//! What holds of every diagram.

use crate::layout::{
    body, content, content_width, covers, diagram, fill, gap_extra, gap_width, gutter, joined,
    label_chars, labels_of, left_pad, levels_of, middle_row, min_total, right_pad, row_at, slack, valid_levels, GAP,
};
use crate::error::{ArgError, NumberFault};
use crate::levels::{model_of, reading, validity};
use crate::number::{is_marker, level_number};
use crate::render::lemma_min_total_bounds;
use vstd::prelude::*;

verus! {

/// A diagram of `n` levels has `2 * n - 1` rows: one for each level and one
/// between each two.
pub proof fn law_row_count(name: Seq<char>, levels: Seq<Seq<Seq<char>>>)
    requires
        levels.len() >= 1,
    ensures
        diagram(name, levels).len() == 2 * levels.len() - 1,
{
}

/// The length of joined labels: their characters, a gap between each two,
/// and the extra blanks where there are two labels or more.
pub proof fn lemma_joined_len(labels: Seq<Seq<char>>, gap: nat, extra: nat)
    requires
        labels.len() >= 1,
    ensures
        joined(labels, gap, extra).len() == label_chars(labels) + (labels.len() - 1) * gap + (if labels.len()
            >= 2 {
            extra
        } else {
            0
        }),
    decreases labels.len(),
{
    if labels.len() == 1 {
        assert(labels.drop_last().len() == 0);
        assert(label_chars(labels.drop_last()) == 0);
        assert(labels.last() == labels[0]);
    } else {
        lemma_joined_len(labels.drop_last(), gap, extra);
        let k = labels.len() as int;
        assert((k - 1) * gap == (k - 2) * gap + gap) by (nonlinear_arith);
    }
}

/// In a level of two labels or more, the labels, the gaps between them and
/// the extra blanks after the first label make up the whole width. Put
/// the other way: the content width, an even share of the slack for each
/// gap, and what the shares leave over.
pub proof fn law_gaps_fill_width(labels: Seq<Seq<char>>, total: nat)
    requires
        labels.len() >= 2,
        content_width(labels) <= total,
    ensures
        content_width(labels) + (labels.len() - 1) * (slack(labels, total) / ((labels.len()
            - 1) as nat)) + gap_extra(labels, total) == total,
        label_chars(labels) + (labels.len() - 1) * gap_width(labels, total) + gap_extra(
            labels,
            total,
        ) == total,
        gap_width(labels, total) >= GAP,
        gap_extra(labels, total) < labels.len() - 1,
{
    let between = (labels.len() - 1) as int;
    let spare = slack(labels, total) as int;
    let gap = GAP as int;
    assert(between * (gap + spare / between) + spare % between == between * gap + spare
        && between * (spare / between) + spare % between == spare && 0 <= spare % between
        < between && spare / between >= 0) by (nonlinear_arith)
        requires
            between >= 1,
            spare >= 0,
    ;
}

/// A single label stands in the middle: the blanks before it and after it
/// share the slack, and the blanks after it are as many or one more.
pub proof fn law_single_label_centred(labels: Seq<Seq<char>>, total: nat)
    requires
        labels.len() == 1,
        content_width(labels) <= total,
    ensures
        left_pad(labels, total) + labels[0].len() + right_pad(labels, total) == total,
        left_pad(labels, total) <= right_pad(labels, total) <= left_pad(labels, total) + 1,
        body(labels, total) == fill(' ', 1 + left_pad(labels, total)) + labels[0] + fill(
            ' ',
            right_pad(labels, total) + 1,
        ),
{
    assert(labels.drop_last().len() == 0);
    assert(label_chars(labels.drop_last()) == 0);
    assert(labels.last() == labels[0]);
}

/// The row of a level that is not empty is two characters wider than the
/// diagram's width, after its gutter.
pub proof fn law_body_width(labels: Seq<Seq<char>>, total: nat)
    requires
        labels.len() >= 1,
        content_width(labels) <= total,
    ensures
        body(labels, total).len() == total + 2,
{
    if labels.len() == 1 {
        law_single_label_centred(labels, total);
    } else {
        law_gaps_fill_width(labels, total);
        lemma_joined_len(labels, gap_width(labels, total), gap_extra(labels, total));
    }
}

/// Every row of dashes, and the row of every level that is not empty, has
/// the same length: the gutter, the diagram's width, and a margin of one
/// on either side.
pub proof fn law_rows_share_width(name: Seq<char>, levels: Seq<Seq<Seq<char>>>, r: int)
    requires
        levels.len() >= 1,
        0 <= r < 2 * levels.len() - 1,
        r % 2 == 0 ==> levels[r / 2].len() >= 1,
    ensures
        row_at(name, levels, r).len() == name.len() + 1 + min_total(levels) + 2,
{
    if r % 2 == 0 {
        lemma_min_total_bounds(levels, r / 2);
        law_body_width(levels[r / 2], min_total(levels));
    }
}

/// The row of an empty level is its gutter and nothing more.
pub proof fn law_empty_level_row(name: Seq<char>, total: nat, marked: bool)
    ensures
        content(name, Seq::<Seq<char>>::empty(), total, marked) == gutter(name, marked),
{
    assert(content(name, Seq::<Seq<char>>::empty(), total, marked) =~= gutter(name, marked));
}

/// Exactly one row begins with the name and a colon, the row in the middle
/// of the diagram; every other row begins with as many blanks.
pub proof fn law_one_marked_row(name: Seq<char>, levels: Seq<Seq<Seq<char>>>, r: int)
    requires
        levels.len() >= 1,
        0 <= r < 2 * levels.len() - 1,
    ensures
        0 <= middle_row(levels.len()) < 2 * levels.len() - 1,
        middle_row(levels.len()) == levels.len() - 1,
        row_at(name, levels, r).len() >= name.len() + 1,
        r == middle_row(levels.len()) ==> row_at(name, levels, r).subrange(
            0,
            (name.len() + 1) as int,
        ) == name + seq![':'],
        r != middle_row(levels.len()) ==> row_at(name, levels, r).subrange(
            0,
            (name.len() + 1) as int,
        ) == fill(' ', name.len() + 1),
        row_at(name, levels, r).subrange(0, (name.len() + 1) as int) == name + seq![':'] <==> r
            == middle_row(levels.len()),
{
    let marked = r == middle_row(levels.len());
    let row = row_at(name, levels, r);
    let head = row.subrange(0, (name.len() + 1) as int);
    assert(gutter(name, marked).len() == name.len() + 1);
    assert(head =~= gutter(name, marked));
    let with_name = name + seq![':'];
    assert(with_name[name.len() as int] == ':');
    assert(fill(' ', name.len() + 1)[name.len() as int] == ' ');
}

/// The rows are a function of the name and the levels: what is rendered
/// twice from the same input is the same, row for row.
pub proof fn law_same_input_same_rows(
    first: Seq<Seq<char>>,
    second: Seq<Seq<char>>,
    name: Seq<char>,
    levels: Seq<Seq<Seq<char>>>,
)
    requires
        first == diagram(name, levels),
        second == diagram(name, levels),
    ensures
        first == second,
{
}

/// A finite map that has a key for every index below its own size has no
/// other key.
pub proof fn lemma_indices_fill(m: Map<i32, Vec<String>>, n: nat)
    requires
        m.dom().finite(),
        m.len() == n,
        covers(m, n as int),
    ensures
        forall|k: i32| m.contains_key(k) ==> 0 <= k < n,
    decreases n,
{
    if n == 0 {
        m.dom().lemma_len0_is_empty();
    } else {
        assert(m.contains_key((n - 1) as int as i32));
        let top = (n - 1) as i32;
        let rest = m.remove(top);
        assert forall|i: int| 0 <= i < n - 1 implies i <= i32::MAX && #[trigger] rest.contains_key(
            i as i32,
        ) by {
            assert(m.contains_key(i as i32));
        }
        assert(covers(rest, n - 1));
        lemma_indices_fill(rest, (n - 1) as nat);
        assert forall|k: i32| m.contains_key(k) implies 0 <= k < n by {
            if k != top {
                assert(rest.contains_key(k));
            }
        }
    }
}

/// The keys of a well-formed level map are the indices below the number of
/// its levels, all of them and no other.
pub proof fn law_keys_are_indices(m: Map<i32, Vec<String>>)
    requires
        valid_levels(m),
    ensures
        forall|k: i32| m.contains_key(k) <==> 0 <= k < m.len(),
{
    lemma_indices_fill(m, m.len());
    assert forall|k: i32| 0 <= k < m.len() implies m.contains_key(k) by {
        assert(m.contains_key(k as int as i32));
    }
}

/// What is read is a function of the arguments, the position and the map
/// that reading begins with: two readings of the same arguments stop with
/// the same error or none, at the same position, with the same map, and so
/// hand the same levels to the layout.
pub proof fn law_same_arguments_same_reading(
    first: Seq<Seq<char>>,
    second: Seq<Seq<char>>,
    pos: int,
    m: Map<i32, Seq<Seq<char>>>,
)
    requires
        first == second,
    ensures
        reading(first, pos, m) == reading(second, pos, m),
{
}

/// Reading never puts a second section into a level: where a marker names
/// a level that the map holds already, reading stops there with the error
/// for it, behind the marker, and the map stays as it is.
pub proof fn law_duplicate_level_stops(
    tokens: Seq<Seq<char>>,
    pos: int,
    m: Map<i32, Seq<Seq<char>>>,
    level: i32,
)
    requires
        0 <= pos < tokens.len(),
        is_marker(tokens[pos]),
        level_number(tokens[pos]) == Ok::<i32, NumberFault>(level),
        m.contains_key(level),
    ensures
        reading(tokens, pos, m) == (Some(ArgError::DuplicateLevel), pos + 1, m),
{
}

/// Two maps that hold the same labels under the same indices get the same
/// verdict, and where they are well formed they give the same diagram.
pub proof fn law_same_levels_same_diagram(
    name: Seq<char>,
    first: Map<i32, Vec<String>>,
    second: Map<i32, Vec<String>>,
)
    requires
        model_of(first) == model_of(second),
    ensures
        validity(first) == validity(second),
        valid_levels(first) ==> levels_of(first) == levels_of(second),
        valid_levels(first) ==> diagram(name, levels_of(first)) == diagram(
            name,
            levels_of(second),
        ),
{
    assert forall|k: i32| first.contains_key(k) <==> second.contains_key(k) by {
        assert(model_of(first).contains_key(k) <==> first.contains_key(k));
        assert(model_of(second).contains_key(k) <==> second.contains_key(k));
    }
    assert(first.dom() =~= second.dom());
    if covers(first, first.len() as int) {
        if first.len() > 0 {
            assert(first.contains_key((first.len() - 1) as int as i32));
        }
        assert forall|i: int| 0 <= i < second.len() implies i <= i32::MAX
            && #[trigger] second.contains_key(i as i32) by {
            assert(first.contains_key(i as i32));
        }
        assert(covers(second, second.len() as int));
    }
    if covers(second, second.len() as int) {
        if second.len() > 0 {
            assert(second.contains_key((second.len() - 1) as int as i32));
        }
        assert forall|i: int| 0 <= i < first.len() implies i <= i32::MAX
            && #[trigger] first.contains_key(i as i32) by {
            assert(second.contains_key(i as i32));
        }
        assert(covers(first, first.len() as int));
    }
    assert(first.len() == second.len());
    assert(valid_levels(first) == valid_levels(second));
    if valid_levels(first) {
        assert forall|i: int| 0 <= i < first.len() implies levels_of(first)[i] == levels_of(
            second,
        )[i] by {
            assert(first.contains_key(i as i32));
            assert(model_of(first)[i as i32] == labels_of(first[i as i32]));
            assert(model_of(second)[i as i32] == labels_of(second[i as i32]));
        }
        assert(levels_of(first) =~= levels_of(second));
    }
}

} // verus!
