//! The mathematical model of a diagram: widths, padding and the text of
//! every row, as functions of the root name and the labels of each level.

use vstd::prelude::*;

verus! {

/// Least number of blanks between two neighbouring labels of one level.
pub const GAP: usize = 1;

/// `n` copies of the character `c`.
pub open spec fn fill(c: char, n: nat) -> Seq<char> {
    Seq::new(n, |i: int| c)
}

/// The labels of one level as character sequences.
pub open spec fn labels_of(v: Vec<String>) -> Seq<Seq<char>> {
    Seq::new(v@.len(), |j: int| v@[j]@)
}

/// Whether every index below `n` is a key of the map.
pub open spec fn covers(m: Map<i32, Vec<String>>, n: int) -> bool {
    forall|i: int| 0 <= i < n ==> i <= i32::MAX && #[trigger] m.contains_key(i as i32)
}

/// A level map is well formed when it is not empty and every index below
/// the number of levels is one of its keys.
pub open spec fn valid_levels(m: Map<i32, Vec<String>>) -> bool {
    &&& m.dom().finite()
    &&& m.len() >= 1
    &&& covers(m, m.len() as int)
}

/// The levels of a map in ascending order of their index.
pub open spec fn levels_of(m: Map<i32, Vec<String>>) -> Seq<Seq<Seq<char>>> {
    Seq::new(m.len(), |i: int| labels_of(m[i as i32]))
}

/// Number of characters in all labels of a level together.
pub open spec fn label_chars(labels: Seq<Seq<char>>) -> nat
    decreases labels.len(),
{
    if labels.len() == 0 {
        0
    } else {
        label_chars(labels.drop_last()) + labels.last().len()
    }
}

/// Width that a level needs at least: its labels and one `GAP` between
/// each two of them. An empty level needs nothing.
pub open spec fn content_width(labels: Seq<Seq<char>>) -> nat {
    if labels.len() == 0 {
        0
    } else {
        label_chars(labels) + GAP as nat * ((labels.len() - 1) as nat)
    }
}

/// The width of the diagram: the largest content width of any level.
pub open spec fn min_total(levels: Seq<Seq<Seq<char>>>) -> nat
    decreases levels.len(),
{
    if levels.len() == 0 {
        0
    } else {
        let rest = min_total(levels.drop_last());
        let here = content_width(levels.last());
        if here > rest { here } else { rest }
    }
}

/// Index, among all rows, of the row that carries the root name.
pub open spec fn middle_row(n: nat) -> nat {
    ((n + (n - 1)) / 2) as nat
}

/// Blanks left over in a level once its content width is taken from `total`.
pub open spec fn slack(labels: Seq<Seq<char>>, total: nat) -> nat {
    (total - content_width(labels)) as nat
}

/// Blanks between two neighbouring labels of a level of two or more labels.
pub open spec fn gap_width(labels: Seq<Seq<char>>, total: nat) -> nat {
    GAP as nat + slack(labels, total) / ((labels.len() - 1) as nat)
}

/// Blanks that follow the first label in addition to the gap, in a level
/// of two or more labels: what the even split leaves over.
pub open spec fn gap_extra(labels: Seq<Seq<char>>, total: nat) -> nat {
    slack(labels, total) % ((labels.len() - 1) as nat)
}

/// Blanks before the label of a level with a single label.
pub open spec fn left_pad(labels: Seq<Seq<char>>, total: nat) -> nat {
    slack(labels, total) / 2
}

/// Blanks after the label of a level with a single label.
pub open spec fn right_pad(labels: Seq<Seq<char>>, total: nat) -> nat {
    (slack(labels, total) - slack(labels, total) / 2) as nat
}

/// What every row begins with: the name and a colon on the marked row,
/// as many blanks on any other.
pub open spec fn gutter(name: Seq<char>, marked: bool) -> Seq<char> {
    if marked {
        name + seq![':']
    } else {
        fill(' ', name.len() + 1)
    }
}

/// The row of dashes between two levels.
pub open spec fn separator(name: Seq<char>, total: nat, marked: bool) -> Seq<char> {
    gutter(name, marked) + fill('-', total + 2)
}

/// Labels in order, `gap` blanks between each two, and `extra` more blanks
/// after the first.
pub open spec fn joined(labels: Seq<Seq<char>>, gap: nat, extra: nat) -> Seq<char>
    decreases labels.len(),
{
    if labels.len() == 0 {
        Seq::empty()
    } else if labels.len() == 1 {
        labels[0]
    } else {
        joined(labels.drop_last(), gap, extra) + fill(' ', gap) + fill(
            ' ',
            if labels.len() == 2 { extra } else { 0 },
        ) + labels.last()
    }
}

/// What follows the gutter in the row of a level.
pub open spec fn body(labels: Seq<Seq<char>>, total: nat) -> Seq<char> {
    if labels.len() == 0 {
        Seq::empty()
    } else if labels.len() == 1 {
        fill(' ', 1 + left_pad(labels, total)) + labels[0] + fill(
            ' ',
            right_pad(labels, total) + 1,
        )
    } else {
        fill(' ', 1) + joined(labels, gap_width(labels, total), gap_extra(labels, total)) + fill(
            ' ',
            1,
        )
    }
}

/// The row of a level.
pub open spec fn content(name: Seq<char>, labels: Seq<Seq<char>>, total: nat, marked: bool) -> Seq<
    char,
> {
    gutter(name, marked) + body(labels, total)
}

/// Row `r` of the diagram: levels stand on the even rows, separators on
/// the odd ones.
pub open spec fn row_at(name: Seq<char>, levels: Seq<Seq<Seq<char>>>, r: int) -> Seq<char> {
    let marked = r == middle_row(levels.len());
    if r % 2 == 0 {
        content(name, levels[r / 2], min_total(levels), marked)
    } else {
        separator(name, min_total(levels), marked)
    }
}

/// The whole diagram, row by row.
pub open spec fn diagram(name: Seq<char>, levels: Seq<Seq<Seq<char>>>) -> Seq<Seq<char>> {
    Seq::new((2 * levels.len() - 1) as nat, |r: int| row_at(name, levels, r))
}

/// The rows of a rendered diagram as character sequences.
pub open spec fn rows_of(rows: Vec<String>) -> Seq<Seq<char>> {
    Seq::new(rows@.len(), |r: int| rows@[r]@)
}

/// Whether every width of the diagram can be held in a `usize`.
pub open spec fn fits(name: Seq<char>, levels: Seq<Seq<Seq<char>>>) -> bool {
    name.len() + 1 + min_total(levels) + 2 <= usize::MAX
}

} // verus!
