//! The grammar of a level marker: `-l`, then the index of the level as a
//! decimal integer with an optional sign.

use crate::error::NumberFault;
use vstd::prelude::*;
use vstd::string::*;

verus! {

/// Whether a token begins with `-l`.
pub open spec fn is_marker(token: Seq<char>) -> bool {
    token.len() >= 2 && token[0] == '-' && token[1] == 'l'
}

/// A token without the markers that it begins with, however many.
pub open spec fn strip_markers(token: Seq<char>) -> Seq<char>
    decreases token.len(),
{
    if is_marker(token) {
        strip_markers(token.skip(2))
    } else {
        token
    }
}

/// Whether `c` is one of the ten decimal digits.
pub open spec fn is_digit(c: char) -> bool {
    48 <= c as u32 <= 57
}

/// The number that a digit stands for.
pub open spec fn digit_value(c: char) -> int {
    c as u32 - 48
}

/// Whether a text begins with a sign.
pub open spec fn has_sign(text: Seq<char>) -> bool {
    text.len() >= 1 && (text[0] == '-' || text[0] == '+')
}

/// A text without the sign that it may begin with.
pub open spec fn unsigned_part(text: Seq<char>) -> Seq<char> {
    if has_sign(text) {
        text.skip(1)
    } else {
        text
    }
}

/// The number that digits stand for, read from the left: each digit is
/// added to ten times what stands before it, or taken from it where the
/// number is negative. The first character that is no digit, or the first
/// digit with which the number leaves the range of `i32`, decides the
/// fault.
pub open spec fn signed_value(digits: Seq<char>, negative: bool) -> Result<int, NumberFault>
    decreases digits.len(),
{
    if digits.len() == 0 {
        Ok(0)
    } else {
        match signed_value(digits.drop_last(), negative) {
            Err(fault) => Err(fault),
            Ok(before) => {
                let next = if negative {
                    before * 10 - digit_value(digits.last())
                } else {
                    before * 10 + digit_value(digits.last())
                };
                if !is_digit(digits.last()) {
                    Err(NumberFault::InvalidDigit)
                } else if next > i32::MAX {
                    Err(NumberFault::TooLarge)
                } else if next < i32::MIN {
                    Err(NumberFault::TooSmall)
                } else {
                    Ok(next)
                }
            },
        }
    }
}

/// The integer that a text stands for: an optional sign, then one digit or
/// more and nothing else.
pub open spec fn signed_number(text: Seq<char>) -> Result<int, NumberFault> {
    if text.len() == 0 {
        Err(NumberFault::Empty)
    } else if text.len() == 1 && has_sign(text) {
        Err(NumberFault::InvalidDigit)
    } else {
        signed_value(unsigned_part(text), text[0] == '-')
    }
}

/// The index that a level marker names, or why it names none.
pub open spec fn level_number(token: Seq<char>) -> Result<i32, NumberFault> {
    match signed_number(strip_markers(token)) {
        Ok(v) => Ok(v as i32),
        Err(fault) => Err(fault),
    }
}

/// Whether `token` begins with `-l`.
pub fn has_marker(token: &str) -> (b: bool)
    ensures
        b == is_marker(token@),
{
    let n = token.unicode_len();
    n >= 2 && token.get_char(0) == '-' && token.get_char(1) == 'l'
}

/// The number of a digit, or nothing for any other character.
pub fn digit_of(c: char) -> (d: Option<u8>)
    ensures
        d is Some <==> is_digit(c),
        d is Some ==> d->0 == digit_value(c),
{
    let code = c as u32;
    if 48 <= code && code <= 57 {
        Some((code - 48) as u8)
    } else {
        None
    }
}

/// How many characters the markers at the beginning of `token` take.
pub fn marker_len(token: &str) -> (i: usize)
    ensures
        i <= token@.len(),
        token@.skip(i as int) == strip_markers(token@),
{
    let n = token.unicode_len();
    let mut i: usize = 0;
    assert(token@.skip(0) =~= token@);
    while n - i >= 2 && token.get_char(i) == '-' && token.get_char(i + 1) == 'l'
        invariant
            i <= n,
            n == token@.len(),
            strip_markers(token@.skip(i as int)) == strip_markers(token@),
        decreases n - i,
    {
        assert(is_marker(token@.skip(i as int)));
        assert(token@.skip(i as int).skip(2) =~= token@.skip(i + 2));
        i = i + 2;
    }
    assert(!is_marker(token@.skip(i as int)));
    i
}

/// A fault among the first digits is the fault of the whole number.
pub proof fn lemma_fault_stays(digits: Seq<char>, negative: bool, j: int)
    requires
        0 <= j <= digits.len(),
        signed_value(digits.take(j), negative) is Err,
    ensures
        signed_value(digits, negative) == signed_value(digits.take(j), negative),
    decreases digits.len() - j,
{
    if j < digits.len() {
        assert(digits.take(j + 1).drop_last() =~= digits.take(j));
        lemma_fault_stays(digits, negative, j + 1);
    } else {
        assert(digits.take(j) =~= digits);
    }
}

/// The index that the level marker `token` names, or why it names none.
pub fn level_index(token: &str) -> (r: Result<i32, NumberFault>)
    ensures
        r == level_number(token@),
{
    let n = token.unicode_len();
    let begin = marker_len(token);
    let ghost text = token@.skip(begin as int);
    if begin == n {
        return Err(NumberFault::Empty);
    }
    let sign = token.get_char(begin);
    assert(sign == text[0]);
    let negative = sign == '-';
    let first: usize = if sign == '-' || sign == '+' {
        begin + 1
    } else {
        begin
    };
    if first == n {
        return Err(NumberFault::InvalidDigit);
    }
    let ghost digits = token@.skip(first as int);
    assert(digits =~= unsigned_part(text));
    let mut acc: i64 = 0;
    let mut i: usize = first;
    assert(digits.take(0) =~= Seq::<char>::empty());
    assert(signed_number(strip_markers(token@)) == signed_value(digits, negative));
    while i < n
        invariant
            first <= i <= n,
            n == token@.len(),
            digits == token@.skip(first as int),
            signed_number(strip_markers(token@)) == signed_value(digits, negative),
            -2147483648 <= acc <= 2147483647,
            signed_value(digits.take(i - first), negative) == Ok::<int, NumberFault>(acc as int),
        decreases n - i,
    {
        let c = token.get_char(i);
        proof {
            assert(digits.take(i - first + 1).drop_last() =~= digits.take(i - first));
            assert(digits.take(i - first + 1).last() == c);
        }
        match digit_of(c) {
            None => {
                proof {
                    lemma_fault_stays(digits, negative, i - first + 1);
                }
                return Err(NumberFault::InvalidDigit);
            },
            Some(d) => {
                let next = if negative {
                    acc * 10 - d as i64
                } else {
                    acc * 10 + d as i64
                };
                if next > 2147483647 {
                    proof {
                        lemma_fault_stays(digits, negative, i - first + 1);
                    }
                    return Err(NumberFault::TooLarge);
                }
                if next < -2147483648 {
                    proof {
                        lemma_fault_stays(digits, negative, i - first + 1);
                    }
                    return Err(NumberFault::TooSmall);
                }
                acc = next;
            },
        }
        i = i + 1;
    }
    assert(digits.take(n - first) =~= digits);
    Ok(acc as i32)
}

} // verus!
