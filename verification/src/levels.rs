//! Building the level map from a list of arguments: a level marker, the
//! labels of that level, the next marker, and so on.

use crate::error::ArgError;
use crate::layout::{covers, labels_of, valid_levels};
use crate::number::{has_marker, is_marker, level_index, level_number};
use std::collections::BTreeMap;
use vstd::prelude::*;
use vstd::string::*;

verus! {

/// The arguments as character sequences.
pub open spec fn tokens_of(args: &[&str]) -> Seq<Seq<char>> {
    Seq::new(args@.len(), |i: int| args@[i]@)
}

/// A level map with its labels as character sequences.
pub open spec fn model_of(m: Map<i32, Vec<String>>) -> Map<i32, Seq<Seq<char>>> {
    Map::new(|k: i32| m.contains_key(k), |k: i32| labels_of(m[k]))
}

/// The labels that a map holds for `level`: none where it has no such level.
pub open spec fn stored(m: Map<i32, Seq<Seq<char>>>, level: i32) -> Seq<Seq<char>> {
    if m.contains_key(level) {
        m[level]
    } else {
        Seq::empty()
    }
}

/// The map with `added` behind the labels that it holds for `level`.
pub open spec fn with_labels(m: Map<i32, Seq<Seq<char>>>, level: i32, added: Seq<Seq<char>>) -> Map<
    i32,
    Seq<Seq<char>>,
> {
    m.insert(level, stored(m, level) + added)
}

/// Where the labels that begin at `pos` end: at the next level marker, or
/// with the arguments.
pub open spec fn labels_end(tokens: Seq<Seq<char>>, pos: int) -> int
    decreases tokens.len() - pos,
{
    if pos < 0 || pos >= tokens.len() || is_marker(tokens[pos]) {
        pos
    } else {
        labels_end(tokens, pos + 1)
    }
}

/// Reading the arguments from `pos` on into the map `m`: the error that
/// stops it, if there is one, the position at which it stops, and the map
/// as it then is. A token that is no marker stops it where it stands; a
/// marker that names no level, names a level that the map holds already,
/// or is followed by no label stops it behind the marker. Only the labels
/// of whole levels reach the map.
pub open spec fn reading(tokens: Seq<Seq<char>>, pos: int, m: Map<i32, Seq<Seq<char>>>) -> (
    Option<ArgError>,
    int,
    Map<i32, Seq<Seq<char>>>,
)
    decreases tokens.len() - pos,
{
    if pos < 0 || pos >= tokens.len() {
        (None, pos, m)
    } else if !is_marker(tokens[pos]) {
        (Some(ArgError::BadPrefix), pos, m)
    } else {
        match level_number(tokens[pos]) {
            Err(fault) => (Some(ArgError::BadLevel(fault)), pos + 1, m),
            Ok(level) => {
                let end = labels_end(tokens, pos + 1);
                if m.contains_key(level) {
                    (Some(ArgError::DuplicateLevel), pos + 1, m)
                } else if pos + 1 < end <= tokens.len() {
                    reading(tokens, end, with_labels(m, level, tokens.subrange(pos + 1, end)))
                } else {
                    (Some(ArgError::MissingArgs), pos + 1, m)
                }
            },
        }
    }
}

/// The verdict on a map: it must hold a level, and a level for every
/// index below their number.
pub open spec fn validity(m: Map<i32, Vec<String>>) -> Result<(), ArgError> {
    if m.len() == 0 {
        Err(ArgError::Empty)
    } else if valid_levels(m) {
        Ok(())
    } else {
        Err(ArgError::MissingLevel)
    }
}

/// The labels end at or behind the place where they begin, and within
/// the arguments.
pub proof fn lemma_labels_end_bounds(tokens: Seq<Seq<char>>, pos: int)
    requires
        0 <= pos <= tokens.len(),
    ensures
        pos <= labels_end(tokens, pos) <= tokens.len(),
    decreases tokens.len() - pos,
{
    if pos < tokens.len() && !is_marker(tokens[pos]) {
        lemma_labels_end_bounds(tokens, pos + 1);
    }
}

/// Number of levels in the map.
pub fn level_count(levels: &BTreeMap<i32, Vec<String>>) -> (n: usize)
    ensures
        n == levels@.len(),
{
    broadcast use vstd::std_specs::btree::group_btree_axioms;
    broadcast use vstd::laws_cmp::group_laws_cmp;

    levels.len()
}

/// The labels of the level with index `key`.
pub fn level_at(levels: &BTreeMap<i32, Vec<String>>, key: i32) -> (labels: &Vec<String>)
    requires
        levels@.contains_key(key),
    ensures
        *labels == levels@[key],
{
    broadcast use vstd::std_specs::btree::group_btree_axioms;
    broadcast use vstd::laws_cmp::group_laws_cmp;

    levels.get(&key).unwrap()
}

/// Whether the map has a level with index `key`.
pub fn has_level(levels: &BTreeMap<i32, Vec<String>>, key: i32) -> (b: bool)
    ensures
        b == levels@.contains_key(key),
{
    broadcast use vstd::std_specs::btree::group_btree_axioms;
    broadcast use vstd::laws_cmp::group_laws_cmp;

    levels.contains_key(&key)
}

/// Takes the labels of `key` out of the map: none where it has no such
/// level.
pub fn take_level(levels: &mut BTreeMap<i32, Vec<String>>, key: i32) -> (labels: Vec<String>)
    ensures
        final(levels)@ == old(levels)@.remove(key),
        labels_of(labels) == stored(model_of(old(levels)@), key),
{
    broadcast use vstd::std_specs::btree::group_btree_axioms;
    broadcast use vstd::laws_cmp::group_laws_cmp;

    match levels.remove(&key) {
        Some(labels) => labels,
        None => {
            let labels: Vec<String> = Vec::new();
            assert(labels_of(labels) =~= Seq::<Seq<char>>::empty());
            labels
        },
    }
}

/// Puts `labels` into the map as the level `key`.
pub fn put_level(levels: &mut BTreeMap<i32, Vec<String>>, key: i32, labels: Vec<String>)
    ensures
        final(levels)@ == old(levels)@.insert(key, labels),
{
    broadcast use vstd::std_specs::btree::group_btree_axioms;
    broadcast use vstd::laws_cmp::group_laws_cmp;

    levels.insert(key, labels);
}

/// Finds where the labels that begin at `start` end.
pub fn scan_labels(args: &[&str], start: usize) -> (end: usize)
    requires
        start <= args@.len(),
    ensures
        start <= end <= args@.len(),
        end == labels_end(tokens_of(args), start as int),
{
    let ghost tokens = tokens_of(args);
    let mut j: usize = start;
    while j < args.len() && !has_marker(args[j])
        invariant
            start <= j <= args@.len(),
            tokens == tokens_of(args),
            labels_end(tokens, j as int) == labels_end(tokens, start as int),
        decreases args@.len() - j,
    {
        j = j + 1;
    }
    j
}

/// Reads the labels of `level`, from `pos` up to the next level marker or
/// the end of the arguments, and puts them behind those that the map holds
/// for that level. There has to be one label at least.
pub fn parse_level(
    levels: &mut BTreeMap<i32, Vec<String>>,
    level: i32,
    args: &[&str],
    pos: &mut usize,
) -> (r: Result<(), ArgError>)
    requires
        *old(pos) <= args@.len(),
    ensures
        *old(pos) <= *final(pos) <= args@.len(),
        *final(pos) == labels_end(tokens_of(args), *old(pos) as int),
        r == if *final(pos) == *old(pos) {
            Err::<(), ArgError>(ArgError::MissingArgs)
        } else {
            Ok::<(), ArgError>(())
        },
        r is Err ==> final(levels)@ == old(levels)@,
        r is Ok ==> model_of(final(levels)@) == with_labels(
            model_of(old(levels)@),
            level,
            tokens_of(args).subrange(*old(pos) as int, *final(pos) as int),
        ),
{
    let ghost tokens = tokens_of(args);
    let ghost before = model_of(levels@);
    let start = *pos;
    let end = scan_labels(args, start);
    *pos = end;
    if end == start {
        return Err(ArgError::MissingArgs);
    }
    let mut labels = take_level(levels, level);
    let ghost prior = labels_of(labels);
    let mut j: usize = start;
    assert(labels_of(labels) =~= prior + tokens.subrange(start as int, j as int));
    while j < end
        invariant
            start <= j <= end <= args@.len(),
            tokens == tokens_of(args),
            labels_of(labels) == prior + tokens.subrange(start as int, j as int),
        decreases end - j,
    {
        let ghost so_far = labels_of(labels);
        let label = String::from_str(args[j]);
        assert(label@ == tokens[j as int]);
        labels.push(label);
        j = j + 1;
        assert(labels_of(labels) =~= so_far.push(tokens[j - 1]));
        assert(labels_of(labels) =~= prior + tokens.subrange(start as int, j as int));
    }
    put_level(levels, level, labels);
    assert(model_of(levels@) =~= with_labels(
        before,
        level,
        tokens.subrange(start as int, end as int),
    ));
    Ok(())
}

/// Says whether the map holds a level, and a level for every index below
/// their number, and which of the two is wanting where it does not.
pub fn verdict(levels: &BTreeMap<i32, Vec<String>>) -> (r: Result<(), ArgError>)
    ensures
        r == validity(levels@),
{
    let n = level_count(levels);
    if n == 0 {
        return Err(ArgError::Empty);
    }
    let mut i: usize = 0;
    while i < n
        invariant
            i <= n,
            n >= 1,
            n == levels@.len(),
            levels@.dom().finite(),
            covers(levels@, i as int),
        decreases n - i,
    {
        if i > 0x7fff_ffff || !has_level(levels, i as i32) {
            assert(!valid_levels(levels@)) by {
                if valid_levels(levels@) {
                    assert(levels@.contains_key(#[verifier::truncate] (i as int as i32)));
                }
            }
            return Err(ArgError::MissingLevel);
        }
        i = i + 1;
    }
    Ok(())
}

/// Validates the map, which stays as it is: it must hold a level, and a
/// level for every index below their number.
pub fn validate_map(levels: &mut BTreeMap<i32, Vec<String>>) -> (r: Result<(), ArgError>)
    ensures
        final(levels)@ == old(levels)@,
        r == validity(old(levels)@),
{
    verdict(levels)
}

/// Reads all arguments from `pos` on, level by level, into the map, and
/// validates the map that comes of it. No level may be named twice. On an
/// error the position and the map stay as they were when it was found.
pub fn parse_args(levels: &mut BTreeMap<i32, Vec<String>>, args: &[&str], pos: &mut usize) -> (r:
    Result<(), ArgError>)
    requires
        *old(pos) <= args@.len(),
    ensures
        *final(pos) == reading(tokens_of(args), *old(pos) as int, model_of(old(levels)@)).1,
        model_of(final(levels)@) == reading(
            tokens_of(args),
            *old(pos) as int,
            model_of(old(levels)@),
        ).2,
        r == match reading(tokens_of(args), *old(pos) as int, model_of(old(levels)@)).0 {
            Some(e) => Err::<(), ArgError>(e),
            None => validity(final(levels)@),
        },
        r is Ok ==> valid_levels(final(levels)@),
{
    let ghost tokens = tokens_of(args);
    let ghost goal = reading(tokens, *pos as int, model_of(levels@));
    while *pos < args.len()
        invariant
            *pos <= args@.len(),
            tokens == tokens_of(args),
            goal == reading(tokens, *pos as int, model_of(levels@)),
            goal == reading(tokens, *old(pos) as int, model_of(old(levels)@)),
        decreases args@.len() - *pos,
    {
        let token = args[*pos];
        if !has_marker(token) {
            return Err(ArgError::BadPrefix);
        }
        *pos = *pos + 1;
        match level_index(token) {
            Err(fault) => {
                return Err(ArgError::BadLevel(fault));
            },
            Ok(level) => {
                if has_level(levels, level) {
                    return Err(ArgError::DuplicateLevel);
                }
                proof {
                    lemma_labels_end_bounds(tokens, *pos as int);
                }
                match parse_level(levels, level, args, pos) {
                    Err(e) => {
                        return Err(e);
                    },
                    Ok(_) => {},
                }
            },
        }
    }
    validate_map(levels)
}

} // verus!
