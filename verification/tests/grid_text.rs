use rt_vt::grid_text::{search, selection_text, LineGrid, SearchMatch, TextCell};

fn line(text: &str, cols: usize) -> Vec<TextCell> {
    let mut v: Vec<TextCell> =
        text.chars().map(|c| TextCell { c, spacer: false, wrapline: false }).collect();
    v.resize(cols, TextCell { c: ' ', spacer: false, wrapline: false });
    v
}

fn grid(top: i32, lines: &[&str]) -> LineGrid {
    LineGrid { cols: 8, top, lines: lines.iter().map(|l| line(l, 8)).collect() }
}

#[test]
fn a_linewise_selection_trims_each_line_and_joins_with_newlines() {
    let g = grid(-2, &["hello   ", "big  wide", "world"]);
    assert_eq!(selection_text(&g, (2, -2), (2, 0), false), "llo\nbig  wid\nwor");
    assert_eq!(selection_text(&g, (1, -1), (3, -1), false), "ig");
}

#[test]
fn swapping_the_endpoints_selects_the_same_text() {
    let g = grid(0, &["abcdefgh", "ijklmnop", "qrstuvwx"]);
    assert_eq!(selection_text(&g, (5, 2), (1, 0), false), selection_text(&g, (1, 0), (5, 2), false));
    assert_eq!(selection_text(&g, (5, 2), (1, 0), true), selection_text(&g, (1, 0), (5, 2), true));
    assert_eq!(selection_text(&g, (6, 1), (2, 1), false), "klmno");
}

#[test]
fn a_block_selection_takes_the_same_columns_from_every_line() {
    let g = grid(0, &["abcdefgh", "ij      ", "qrstuvwx"]);
    assert_eq!(selection_text(&g, (5, 2), (1, 0), true), "bcdef\nj\nrstuv");
}

#[test]
fn a_soft_wrapped_line_joins_the_next_without_a_newline() {
    let mut g = grid(0, &["one two ", "three"]);
    g.lines[0][7].wrapline = true;
    assert_eq!(selection_text(&g, (0, 0), (4, 1), false), "one two three");
    // A block selection ignores soft wraps.
    assert_eq!(selection_text(&g, (0, 0), (7, 1), true), "one two\nthree");
}

#[test]
fn wide_character_spacers_are_skipped() {
    let mut g = grid(0, &["a\u{4f60}xb"]);
    g.lines[0][2].spacer = true;
    assert_eq!(selection_text(&g, (0, 0), (3, 0), false), "a\u{4f60}b");
}

#[test]
fn search_finds_every_non_overlapping_occurrence_line_by_line() {
    let g = grid(-1, &["aaaa", "xaay"]);
    assert_eq!(
        search(&g, "aa", true),
        vec![
            SearchMatch { line: -1, col: 0, len: 2 },
            SearchMatch { line: -1, col: 2, len: 2 },
            SearchMatch { line: 0, col: 1, len: 2 },
        ]
    );
    assert_eq!(search(&g, "", true), vec![]);
    assert_eq!(search(&g, "zz", true), vec![]);
}

#[test]
fn a_case_insensitive_search_lowercases_both_sides() {
    let g = grid(3, &["Foo FOO", "fOo"]);
    assert_eq!(search(&g, "FOO", true), vec![SearchMatch { line: 3, col: 4, len: 3 }]);
    assert_eq!(
        search(&g, "FoO", false),
        vec![
            SearchMatch { line: 3, col: 0, len: 3 },
            SearchMatch { line: 3, col: 4, len: 3 },
            SearchMatch { line: 4, col: 0, len: 3 },
        ]
    );
}

#[test]
fn search_columns_count_characters_and_spacers_read_as_nul() {
    let mut g = grid(0, &["\u{e9}\u{4f60}xab"]);
    g.lines[0][2].spacer = true;
    assert_eq!(search(&g, "ab", true), vec![SearchMatch { line: 0, col: 3, len: 2 }]);
    assert_eq!(search(&g, "\u{4f60}x", true), vec![]);
    assert_eq!(search(&g, "\u{4f60}\0", true), vec![SearchMatch { line: 0, col: 1, len: 2 }]);
}
