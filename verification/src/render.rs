//! The layout engine: measures the levels, then writes the rows.

use crate::error::ArgError;
use crate::layout::{
    content, content_width, diagram, fill, fits, gap_extra, gap_width, gutter, joined, label_chars,
    labels_of, levels_of, middle_row, min_total, row_at, rows_of, separator, slack, valid_levels,
    GAP,
};
use crate::levels::{level_at, level_count, verdict};
use std::collections::BTreeMap;
use vstd::prelude::*;
use vstd::string::*;

verus! {

/// The characters of the first `j` labels are no more than those of all.
pub proof fn lemma_label_chars_prefix(labels: Seq<Seq<char>>, j: int)
    requires
        0 <= j <= labels.len(),
    ensures
        label_chars(labels.take(j)) <= label_chars(labels),
        j < labels.len() ==> label_chars(labels.take(j + 1)) == label_chars(labels.take(j))
            + labels[j].len(),
    decreases labels.len() - j,
{
    if j < labels.len() {
        assert(labels.take(j + 1).drop_last() =~= labels.take(j));
        lemma_label_chars_prefix(labels, j + 1);
    } else {
        assert(labels.take(j) =~= labels);
    }
}

/// No level is wider than the diagram.
pub proof fn lemma_min_total_bounds(levels: Seq<Seq<Seq<char>>>, i: int)
    requires
        0 <= i < levels.len(),
    ensures
        content_width(levels[i]) <= min_total(levels),
    decreases levels.len(),
{
    if i < levels.len() - 1 {
        lemma_min_total_bounds(levels.drop_last(), i);
    }
}

/// The width of the first `i + 1` levels from that of the first `i`.
pub proof fn lemma_min_total_prefix(levels: Seq<Seq<Seq<char>>>, i: int)
    requires
        0 <= i <= levels.len(),
    ensures
        min_total(levels.take(i)) <= min_total(levels),
        i < levels.len() ==> min_total(levels.take(i + 1)) == if content_width(levels[i])
            > min_total(levels.take(i)) {
            content_width(levels[i])
        } else {
            min_total(levels.take(i))
        },
    decreases levels.len() - i,
{
    if i < levels.len() {
        assert(levels.take(i + 1).drop_last() =~= levels.take(i));
        lemma_min_total_prefix(levels, i + 1);
    } else {
        assert(levels.take(i) =~= levels);
    }
}

/// Content width of one level, where a `usize` can hold it.
pub fn checked_level_width(labels: &Vec<String>) -> (w: Option<usize>)
    ensures
        match w {
            Some(w) => w == content_width(labels_of(*labels)),
            None => content_width(labels_of(*labels)) > usize::MAX,
        },
{
    let k = labels.len();
    if k == 0 {
        return Some(0);
    }
    let ghost all = labels_of(*labels);
    let mut chars: usize = 0;
    let mut j: usize = 0;
    while j < k
        invariant
            j <= k,
            k == labels@.len(),
            all == labels_of(*labels),
            chars == label_chars(all.take(j as int)),
        decreases k - j,
    {
        proof {
            lemma_label_chars_prefix(all, j as int);
            lemma_label_chars_prefix(all, j + 1);
        }
        match chars.checked_add(labels[j].as_str().unicode_len()) {
            Some(sum) => {
                chars = sum;
            },
            None => {
                return None;
            },
        }
        j = j + 1;
    }
    proof {
        assert(all.take(k as int) =~= all);
    }
    chars.checked_add(GAP * (k - 1))
}

/// Content width of one level.
pub fn level_width(labels: &Vec<String>) -> (w: usize)
    requires
        content_width(labels_of(*labels)) <= usize::MAX,
    ensures
        w == content_width(labels_of(*labels)),
{
    checked_level_width(labels).unwrap()
}

/// First pass, where a `usize` can hold the widths: the content width of
/// every level, and the largest of them.
pub fn checked_measure(levels: &BTreeMap<i32, Vec<String>>) -> (r: Option<(Vec<usize>, usize)>)
    requires
        valid_levels(levels@),
    ensures
        match r {
            Some(m) => {
                &&& m.0@.len() == levels@.len()
                &&& forall|i: int|
                    0 <= i < m.0@.len() ==> m.0@[i] == content_width(
                        #[trigger] levels_of(levels@)[i],
                    )
                &&& m.1 == min_total(levels_of(levels@))
            },
            None => min_total(levels_of(levels@)) > usize::MAX,
        },
{
    let n = level_count(levels);
    let ghost all = levels_of(levels@);
    let mut widths: Vec<usize> = Vec::new();
    let mut widest: usize = 0;
    let mut i: usize = 0;
    while i < n
        invariant
            i <= n,
            n == levels@.len(),
            valid_levels(levels@),
            all == levels_of(levels@),
            widths@.len() == i,
            forall|j: int| 0 <= j < i ==> widths@[j] == content_width(#[trigger] all[j]),
            widest == min_total(all.take(i as int)),
        decreases n - i,
    {
        assert(levels@.contains_key(i as int as i32));
        let labels = level_at(levels, i as i32);
        proof {
            assert(all[i as int] == labels_of(*labels));
            lemma_min_total_bounds(all, i as int);
            lemma_min_total_prefix(all, i as int);
        }
        match checked_level_width(labels) {
            Some(w) => {
                if w > widest {
                    widest = w;
                }
                widths.push(w);
            },
            None => {
                return None;
            },
        }
        i = i + 1;
    }
    proof {
        assert(all.take(n as int) =~= all);
    }
    Some((widths, widest))
}

/// First pass: the content width of every level, and the largest of them.
pub fn measure(levels: &BTreeMap<i32, Vec<String>>) -> (r: (Vec<usize>, usize))
    requires
        valid_levels(levels@),
        min_total(levels_of(levels@)) <= usize::MAX,
    ensures
        r.0@.len() == levels@.len(),
        forall|i: int|
            0 <= i < r.0@.len() ==> r.0@[i] == content_width(#[trigger] levels_of(levels@)[i]),
        r.1 == min_total(levels_of(levels@)),
{
    checked_measure(levels).unwrap()
}

/// Joining one more label: the gap, after the first label the extra
/// blanks too, then the label.
pub proof fn lemma_joined_prefix(labels: Seq<Seq<char>>, gap: nat, extra: nat, j: int)
    requires
        1 <= j < labels.len(),
    ensures
        joined(labels.take(1), gap, extra) == labels[0],
        joined(labels.take(j + 1), gap, extra) == joined(labels.take(j), gap, extra) + fill(
            ' ',
            gap,
        ) + fill(' ', if j == 1 { extra } else { 0 }) + labels[j],
{
    assert(labels.take(j + 1).drop_last() =~= labels.take(j));
}

/// Appends `n` copies of the one character of `unit` to `row`.
pub fn append_fill(row: &mut String, unit: &str, n: usize)
    requires
        unit@.len() == 1,
    ensures
        final(row)@ == old(row)@ + fill(unit@[0], n as nat),
{
    let mut i: usize = 0;
    assert(row@ =~= old(row)@ + fill(unit@[0], 0));
    while i < n
        invariant
            i <= n,
            unit@.len() == 1,
            row@ == old(row)@ + fill(unit@[0], i as nat),
        decreases n - i,
    {
        row.append(unit);
        i = i + 1;
        assert(row@ =~= old(row)@ + fill(unit@[0], i as nat));
    }
}

/// Index of the row that carries the root name, among the rows of a
/// diagram of `n` levels.
pub fn middle_index(n: usize) -> (m: usize)
    requires
        n >= 1,
    ensures
        m == middle_row(n as nat),
        m < 2 * n - 1,
{
    n - 1
}

/// Begins a row with its gutter.
pub fn start_row(name: &str, marked: bool) -> (row: String)
    requires
        name@.len() + 1 <= usize::MAX,
    ensures
        row@ == gutter(name@, marked),
{
    let mut row = String::new();
    if marked {
        row.append(name);
        row.append(":");
        proof {
            reveal_strlit(":");
            assert(row@ =~= gutter(name@, marked));
        }
    } else {
        let width = name.unicode_len();
        proof {
            reveal_strlit(" ");
        }
        append_fill(&mut row, " ", width + 1);
        assert(row@ =~= gutter(name@, marked));
    }
    row
}

/// The row of dashes that stands between two levels.
pub fn separator_row(name: &str, total: usize, marked: bool) -> (row: String)
    requires
        name@.len() + 1 + total + 2 <= usize::MAX,
    ensures
        row@ == separator(name@, total as nat, marked),
{
    let mut row = start_row(name, marked);
    proof {
        reveal_strlit("-");
    }
    append_fill(&mut row, "-", total + 2);
    row
}

/// The row of one level: nothing after the gutter for an empty level, a
/// single label centred, two or more spread over the whole width.
pub fn content_row(name: &str, labels: &Vec<String>, width: usize, total: usize, marked: bool) -> (row:
    String)
    requires
        width == content_width(labels_of(*labels)),
        width <= total,
        name@.len() + 1 + total + 2 <= usize::MAX,
    ensures
        row@ == content(name@, labels_of(*labels), total as nat, marked),
{
    let ghost all = labels_of(*labels);
    let mut row = start_row(name, marked);
    let k = labels.len();
    if k == 0 {
        assert(row@ =~= content(name@, all, total as nat, marked));
        return row;
    }
    proof {
        reveal_strlit(" ");
    }
    let spaces = total - width;
    assert(spaces == slack(all, total as nat));
    if k == 1 {
        let left = spaces / 2;
        append_fill(&mut row, " ", 1 + left);
        row.append(labels[0].as_str());
        append_fill(&mut row, " ", spaces - left + 1);
        assert(row@ =~= content(name@, all, total as nat, marked));
    } else {
        let between = k - 1;
        let quo = spaces / between;
        let extra = spaces % between;
        assert(quo <= spaces) by (nonlinear_arith)
            requires
                quo == spaces / between,
                between >= 1,
        ;
        let gap = GAP + quo;
        assert(gap == gap_width(all, total as nat));
        assert(extra == gap_extra(all, total as nat));
        append_fill(&mut row, " ", 1);
        row.append(labels[0].as_str());
        let mut j: usize = 1;
        proof {
            lemma_joined_prefix(all, gap as nat, extra as nat, 1);
        }
        while j < k
            invariant
                1 <= j <= k,
                k == labels@.len(),
                k >= 2,
                all == labels_of(*labels),
                " "@.len() == 1,
                " "@[0] == ' ',
                row@ == gutter(name@, marked) + fill(' ', 1) + joined(
                    all.take(j as int),
                    gap as nat,
                    extra as nat,
                ),
            decreases k - j,
        {
            proof {
                lemma_joined_prefix(all, gap as nat, extra as nat, j as int);
            }
            append_fill(&mut row, " ", gap);
            if j == 1 {
                append_fill(&mut row, " ", extra);
            }
            row.append(labels[j].as_str());
            j = j + 1;
            assert(row@ =~= gutter(name@, marked) + fill(' ', 1) + joined(
                all.take(j as int),
                gap as nat,
                extra as nat,
            ));
        }
        append_fill(&mut row, " ", 1);
        proof {
            assert(all.take(k as int) =~= all);
            assert(row@ =~= content(name@, all, total as nat, marked));
        }
    }
    row
}

/// Renders the diagram of `name` over `levels`: one row for each level, in
/// ascending order of the levels, and a row of dashes between each two.
pub fn render(name: &str, levels: &BTreeMap<i32, Vec<String>>) -> (rows: Vec<String>)
    requires
        valid_levels(levels@),
        fits(name@, levels_of(levels@)),
    ensures
        rows@.len() == 2 * levels@.len() - 1,
        rows_of(rows) == diagram(name@, levels_of(levels@)),
{
    let ghost all = levels_of(levels@);
    let measured = measure(levels);
    let widths = measured.0;
    let total = measured.1;
    let n = widths.len();
    let middle = middle_index(n);
    let mut rows: Vec<String> = Vec::new();
    let mut i: usize = 0;
    while i < n
        invariant
            i <= n,
            n >= 1,
            n == levels@.len(),
            n == widths@.len(),
            valid_levels(levels@),
            all == levels_of(levels@),
            fits(name@, all),
            total == min_total(all),
            middle == middle_row(n as nat),
            forall|j: int| 0 <= j < n ==> widths@[j] == content_width(#[trigger] all[j]),
            rows@.len() == if i == 0 { 0 } else { 2 * i - 1 },
            forall|r: int| 0 <= r < rows@.len() ==> (#[trigger] rows@[r])@ == row_at(name@, all, r),
        decreases n - i,
    {
        if i != 0 {
            let line = separator_row(name, total, rows.len() == middle);
            rows.push(line);
        }
        assert(levels@.contains_key(i as int as i32));
        let labels = level_at(levels, i as i32);
        proof {
            assert(all[i as int] == labels_of(*labels));
            lemma_min_total_bounds(all, i as int);
        }
        let row = content_row(name, labels, widths[i], total, rows.len() == middle);
        rows.push(row);
        i = i + 1;
    }
    proof {
        assert(rows_of(rows) =~= diagram(name@, all));
    }
    rows
}

/// Whether every width of the diagram of `name` over `levels` can be held
/// in a `usize`.
pub fn fits_width(name: &str, levels: &BTreeMap<i32, Vec<String>>) -> (b: bool)
    requires
        valid_levels(levels@),
    ensures
        b == fits(name@, levels_of(levels@)),
{
    match checked_measure(levels) {
        None => false,
        Some(measured) => match name.unicode_len().checked_add(3) {
            Some(margin) => margin.checked_add(measured.1).is_some(),
            None => false,
        },
    }
}

/// Renders the diagram of `name` over `levels` where the map is well
/// formed and the widths can be held, and says why not where it is not.
pub fn try_render(name: &str, levels: &BTreeMap<i32, Vec<String>>) -> (r: Result<
    Option<Vec<String>>,
    ArgError,
>)
    ensures
        match r {
            Ok(Some(rows)) => valid_levels(levels@) && fits(name@, levels_of(levels@)) && rows_of(
                rows,
            ) == diagram(name@, levels_of(levels@)),
            Ok(None) => valid_levels(levels@) && !fits(name@, levels_of(levels@)),
            Err(e) => !valid_levels(levels@) && e == if levels@.len() == 0 {
                ArgError::Empty
            } else {
                ArgError::MissingLevel
            },
        },
{
    match verdict(levels) {
        Err(e) => Err(e),
        Ok(_) => {
            if fits_width(name, levels) {
                Ok(Some(render(name, levels)))
            } else {
                Ok(None)
            }
        },
    }
}

} // verus!
