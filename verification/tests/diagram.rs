use judgefmt::error::ArgError;
use judgefmt::levels::{level_at, level_count};
use judgefmt::render::{
    append_fill, checked_level_width, checked_measure, content_row, fits_width, level_width, measure, middle_index,
    render, separator_row, start_row, try_render,
};
use std::collections::BTreeMap;

fn level_map(levels: &[&[&str]]) -> BTreeMap<i32, Vec<String>> {
    let mut map = BTreeMap::new();
    for (i, labels) in levels.iter().enumerate() {
        map.insert(i as i32, labels.iter().map(|s| s.to_string()).collect());
    }
    map
}

#[test]
fn two_levels_put_the_name_on_the_line_between() {
    let levels = level_map(&[&["root"], &["a", "bb"]]);
    let (widths, total) = measure(&levels);
    assert_eq!(widths, vec![4, 4]);
    assert_eq!(total, 4);
    let rows = render("J", &levels);
    assert_eq!(rows, vec!["   root ", "J:------", "   a bb "]);
}

#[test]
fn single_level_carries_the_name() {
    let levels = level_map(&[&["a", "b"]]);
    assert_eq!(render("top", &levels), vec!["top: a b "]);
}

#[test]
fn rows_number_twice_the_levels_less_one() {
    for n in 1..6usize {
        let labels: Vec<&[&str]> = (0..n).map(|_| &["x", "yy"][..]).collect();
        let levels = level_map(&labels);
        assert_eq!(render("n", &levels).len(), 2 * n - 1);
    }
}

#[test]
fn rows_share_one_width() {
    let levels = level_map(&[&["alpha", "beta", "gamma"], &["x"], &["p", "q"], &["a", "b", "c", "d"]]);
    let (_, total) = measure(&levels);
    assert_eq!(total, 16);
    let rows = render("name", &levels);
    assert_eq!(rows.len(), 7);
    for row in &rows {
        assert_eq!(row.chars().count(), 5 + total + 2);
    }
}

#[test]
fn single_label_stands_in_the_middle() {
    let even = level_map(&[&["abcdefg"], &["x"]]);
    let rows = render("r", &even);
    assert_eq!(rows[2], "      x    ");
    let odd = level_map(&[&["abcdef"], &["x"]]);
    let rows = render("r", &odd);
    assert_eq!(rows[0], "   abcdef ");
    assert_eq!(rows[1], "r:--------");
    assert_eq!(rows[2], "     x    ");
}

#[test]
fn gaps_fill_the_width_and_the_first_takes_the_rest() {
    let levels = level_map(&[&["aaaaaaaaaa"], &["a", "b", "c"]]);
    let rows = render("r", &levels);
    assert_eq!(rows[2], "   a    b   c ");
    assert_eq!(rows[2].len(), 2 + 10 + 2);
}

#[test]
fn widest_level_keeps_single_gaps() {
    let levels = level_map(&[&["ab", "cd", "ef"], &["z"], &["q", "r"]]);
    let rows = render("xy", &levels);
    assert_eq!(
        rows,
        vec![
            "    ab cd ef ",
            "   ----------",
            "xy:    z     ",
            "   ----------",
            "    q      r ",
        ]
    );
}

#[test]
fn only_the_middle_row_begins_with_the_name() {
    for n in 1..7usize {
        let labels: Vec<&[&str]> = (0..n).map(|_| &["lbl"][..]).collect();
        let rows = render("root", &level_map(&labels));
        assert_eq!(middle_index(n), n - 1);
        for (r, row) in rows.iter().enumerate() {
            if r == middle_index(n) {
                assert!(row.starts_with("root:"));
            } else {
                assert!(row.starts_with("     "));
            }
        }
    }
}

#[test]
fn empty_level_is_a_bare_gutter() {
    let levels = level_map(&[&["a"], &[]]);
    assert_eq!(render("N", &levels), vec!["   a ", "N:---", "  "]);
    let marked = level_map(&[&[]]);
    assert_eq!(render("N", &marked), vec!["N:"]);
}

#[test]
fn widths_count_characters() {
    let levels = level_map(&[&["\u{e9}t\u{e9}"], &["a", "b"]]);
    let (widths, total) = measure(&levels);
    assert_eq!(widths, vec![3, 3]);
    assert_eq!(total, 3);
    let rows = render("\u{fc}", &levels);
    assert_eq!(rows, vec!["   \u{e9}t\u{e9} ", "\u{fc}:-----", "   a b "]);
}

#[test]
fn rendering_twice_gives_the_same_rows() {
    let levels = level_map(&[&["one", "two"], &["three"], &["four", "five", "six"]]);
    assert_eq!(render("again", &levels), render("again", &levels));
}

#[test]
fn level_width_adds_one_gap_between_labels() {
    let none: Vec<String> = Vec::new();
    assert_eq!(level_width(&none), 0);
    assert_eq!(level_width(&vec!["abc".to_string()]), 3);
    assert_eq!(level_width(&vec!["abc".to_string(), "de".to_string(), "f".to_string()]), 8);
}

#[test]
fn rows_one_by_one() {
    assert_eq!(separator_row("ab", 3, false), "   -----");
    assert_eq!(separator_row("ab", 3, true), "ab:-----");
    let labels = vec!["x".to_string(), "y".to_string(), "z".to_string()];
    assert_eq!(content_row("ab", &labels, 5, 5, true), "ab: x y z ");
    assert_eq!(content_row("ab", &labels, 5, 8, false), "    x   y  z ");
}

#[test]
fn try_render_renders_what_is_well_formed() {
    let levels = level_map(&[&["root"], &["a", "bb"]]);
    assert_eq!(
        try_render("J", &levels),
        Ok(Some(vec!["   root ".to_string(), "J:------".to_string(), "   a bb ".to_string()]))
    );
    assert!(fits_width("J", &levels));
    assert_eq!(try_render("J", &BTreeMap::new()), Err(ArgError::Empty));
    let mut gap = BTreeMap::new();
    gap.insert(1, vec!["a".to_string()]);
    assert_eq!(try_render("J", &gap), Err(ArgError::MissingLevel));
}

#[test]
fn checked_measure_is_the_measure() {
    let levels = level_map(&[&["alpha", "beta"], &[], &["x"]]);
    assert_eq!(checked_measure(&levels), Some((vec![10, 0, 1], 10)));
    assert_eq!(measure(&levels), (vec![10, 0, 1], 10));
}

#[test]
fn checked_width_is_the_width() {
    let none: Vec<String> = Vec::new();
    assert_eq!(checked_level_width(&none), Some(0));
    assert_eq!(checked_level_width(&vec!["abc".to_string(), "de".to_string()]), Some(6));
}

#[test]
fn levels_are_found_by_their_index() {
    let levels = level_map(&[&["root"], &["a", "bb"]]);
    assert_eq!(level_count(&levels), 2);
    assert_eq!(level_at(&levels, 1), &vec!["a".to_string(), "bb".to_string()]);
}

#[test]
fn gutter_is_the_name_or_blank() {
    assert_eq!(start_row("abc", true), "abc:");
    assert_eq!(start_row("abc", false), "    ");
    let mut row = String::from("x");
    append_fill(&mut row, "-", 3);
    assert_eq!(row, "x---");
    append_fill(&mut row, " ", 0);
    assert_eq!(row, "x---");
}
