use rt_vt::attr;
use rt_vt::conformance::{case, cases, eval, row_text, run_spec_cases, Check, SpecCase};
use rt_vt::screen::{feed_whole, CursorState, NColor, ScreenCell, ScreenState, VtEngine};
use rt_vt::vendored::Vendored;

fn blank() -> ScreenCell {
    ScreenCell { ch: ' ', attrs: 0, fg: NColor::Named(256), bg: NColor::Named(257) }
}

fn state(text: &[&str]) -> ScreenState {
    let cols = 6;
    let grid = text
        .iter()
        .map(|line| {
            let mut row: Vec<ScreenCell> = line.chars().map(|ch| ScreenCell { ch, ..blank() }).collect();
            row.resize(cols, blank());
            row
        })
        .collect::<Vec<_>>();
    ScreenState { cols, rows: grid.len(), grid, cursor: None, alt_screen: false, app_cursor: false }
}

#[test]
fn the_table_has_every_seeded_case() {
    let cs = cases();
    assert_eq!(cs.len(), 32);
    assert_eq!(cs[0].name, "CUP absolute");
    assert_eq!(cs[0].input, b"\x1b[3;5H".to_vec());
    assert_eq!(cs[31].name, "DECSTBM confines scroll");
    assert_eq!(cs[17].cols, 5);
}

#[test]
fn case_copies_its_input() {
    let c = case("x", 3, 2, b"ab", vec![Check::NoCursor]);
    assert_eq!((c.name, c.cols, c.rows, c.input.as_slice()), ("x", 3, 2, &b"ab"[..]));
    assert_eq!(c.checks.len(), 1);
}

#[test]
fn row_text_trims_trailing_blanks_only() {
    let s = state(&[" a b  ", "\t x\u{a0}"]);
    assert_eq!(row_text(&s, 0), " a b");
    assert_eq!(row_text(&s, 1), "\t x");
}

#[test]
fn passing_checks_report_nothing() {
    let mut s = state(&["AB"]);
    s.cursor = Some(CursorState { col: 2, line: 0, visible: true });
    s.grid[0][0].attrs = attr::BOLD | attr::ITALIC;
    s.grid[0][1].fg = NColor::Rgb(1, 2, 3);
    s.app_cursor = true;
    for chk in [
        Check::Cursor(2, 0),
        Check::Char(0, 1, 'B'),
        Check::Row(0, "AB"),
        Check::Attr(0, 0, attr::BOLD),
        Check::NoAttr(0, 0, attr::UNDERLINE),
        Check::Fg(0, 1, NColor::Rgb(1, 2, 3)),
        Check::Bg(0, 1, NColor::Named(257)),
        Check::AltScreen(false),
        Check::AppCursor(true),
    ] {
        assert_eq!(eval(&s, &chk), None, "{chk:?}");
    }
}

#[test]
fn failing_checks_say_what_was_seen() {
    let mut s = state(&["AB"]);
    s.grid[0][0].attrs = attr::BOLD;
    assert_eq!(
        eval(&s, &Check::Cursor(4, 2)).unwrap(),
        "expected cursor at (4,2), got None"
    );
    s.cursor = Some(CursorState { col: 1, line: 0, visible: true });
    assert_eq!(
        eval(&s, &Check::Cursor(4, 2)).unwrap(),
        "expected cursor at (4,2), got Some(CursorState { col: 1, line: 0, visible: true })"
    );
    assert_eq!(
        eval(&s, &Check::NoCursor).unwrap(),
        "expected no cursor, got Some(CursorState { col: 1, line: 0, visible: true })"
    );
    assert_eq!(eval(&s, &Check::Char(0, 1, '\n')).unwrap(), "char (0,1) = 'B', expected '\\n'");
    assert_eq!(eval(&s, &Check::Row(0, "A\"")).unwrap(), "row 0 = \"AB\", expected \"A\\\"\"");
    assert_eq!(
        eval(&s, &Check::Attr(0, 0, attr::ITALIC | attr::UNDERLINE)).unwrap(),
        "attrs (0,0) = 0b0010, missing 0b1100"
    );
    assert_eq!(
        eval(&s, &Check::NoAttr(0, 0, attr::BOLD | attr::HIDDEN)).unwrap(),
        "attrs (0,0) = 0b0010, should lack 0b100000010"
    );
    assert_eq!(
        eval(&s, &Check::Fg(0, 0, NColor::Rgb(10, 20, 30))).unwrap(),
        "fg (0,0) = Named(256), expected Rgb(10, 20, 30)"
    );
    assert_eq!(
        eval(&s, &Check::Bg(0, 1, NColor::Indexed(42))).unwrap(),
        "bg (0,1) = Named(257), expected Indexed(42)"
    );
    assert_eq!(eval(&s, &Check::AltScreen(true)).unwrap(), "alt_screen = false, expected true");
    assert_eq!(eval(&s, &Check::AppCursor(true)).unwrap(), "app_cursor = false, expected true");
}

#[test]
fn a_failing_case_is_labelled_with_its_name_and_check_index() {
    let bad = vec![
        case("ok", 10, 3, b"hi", vec![Check::Row(0, "hi")]),
        case("bad", 10, 3, b"hi", vec![Check::Char(0, 0, 'h'), Check::Char(0, 1, 'X')]),
    ];
    let fails = run_spec_cases::<Vendored>(&bad);
    assert_eq!(fails, vec!["[bad] check #1: char (0,1) = 'i', expected 'X'".to_string()]);
}

#[test]
fn the_vendored_engine_reports_text_cursor_and_colours() {
    let s = feed_whole::<Vendored>(8, 3, b"ab\r\n\x1b[31;1mc\x1b[?1h");
    assert_eq!((s.cols, s.rows, s.grid.len(), s.grid[2].len()), (8, 3, 3, 8));
    assert_eq!(row_text(&s, 0), "ab");
    assert_eq!(s.grid[1][0].ch, 'c');
    assert_eq!(s.grid[1][0].fg, NColor::Named(1));
    assert_ne!(s.grid[1][0].attrs & attr::BOLD, 0);
    assert_eq!(s.cursor, Some(CursorState { col: 1, line: 1, visible: true }));
    assert!(s.app_cursor && !s.alt_screen);
    // Hiding the cursor takes it out of the observed state.
    let h = feed_whole::<Vendored>(8, 3, b"\x1b[?25l");
    assert_eq!(h.cursor, None);
}

#[test]
fn every_case_of_the_table_is_well_formed_for_its_grid() {
    for c in cases() {
        let SpecCase { cols, rows, checks, .. } = c;
        assert!(cols >= 2 && rows >= 1);
        for chk in checks {
            match chk {
                Check::Char(r, col, _) | Check::Attr(r, col, _) | Check::NoAttr(r, col, _)
                | Check::Fg(r, col, _) | Check::Bg(r, col, _) => assert!(r < rows && col < cols),
                Check::Row(r, _) => assert!(r < rows),
                _ => {}
            }
        }
    }
}

#[test]
fn the_vendored_parser_resumes_across_feeds() {
    let whole = feed_whole::<Vendored>(80, 24, b"\x1b[3;5Hx\x1b[1mY");
    let mut e = Vendored::new(80, 24);
    for chunk in [&b"\x1b["[..], b"3;", b"5Hx\x1b", b"[1", b"mY"] {
        e.feed(chunk);
    }
    let split = e.observe();
    assert_eq!(split.cursor, whole.cursor);
    assert_eq!(split.cursor, Some(CursorState { col: 6, line: 2, visible: true }));
    assert_eq!(split.grid, whole.grid);
}

#[test]
fn a_run_of_two_lists_reports_the_first_then_the_second() {
    let xs = vec![
        case("a", 10, 3, b"hi", vec![Check::Char(0, 0, 'X'), Check::Row(0, "hi")]),
        case("b", 10, 3, b"", vec![Check::NoCursor]),
    ];
    let ys = vec![case("c", 4, 2, b"\x1b[?1049h", vec![Check::AltScreen(false), Check::Cursor(1, 1)])];
    let both: Vec<SpecCase> = cases_of(&xs).into_iter().chain(cases_of(&ys)).collect();
    let mut expected = run_spec_cases::<Vendored>(&xs);
    expected.extend(run_spec_cases::<Vendored>(&ys));
    assert_eq!(run_spec_cases::<Vendored>(&both), expected);
    assert_eq!(expected.len(), 4);
    assert!(run_spec_cases::<Vendored>(&[]).is_empty());
}

fn cases_of(v: &[SpecCase]) -> Vec<SpecCase> {
    v.iter().map(|c| case(c.name, c.cols, c.rows, &c.input, c.checks.clone())).collect()
}

#[test]
fn a_run_reports_at_most_one_failure_per_check() {
    let all_wrong = vec![case(
        "wrong",
        6,
        2,
        b"ab",
        vec![Check::Char(0, 0, 'z'), Check::Row(1, "q"), Check::AltScreen(true), Check::AppCursor(true)],
    )];
    assert_eq!(run_spec_cases::<Vendored>(&all_wrong).len(), 4);
}

#[test]
fn each_case_is_run_on_its_own_input() {
    let cs = vec![
        case("first", 5, 1, b"one", vec![Check::Row(0, "one")]),
        case("second", 5, 1, b"two", vec![Check::Row(0, "two")]),
    ];
    assert!(run_spec_cases::<Vendored>(&cs).is_empty());
}

#[test]
fn a_two_column_screen_holds_a_full_width_character() {
    let s = feed_whole::<Vendored>(2, 1, "中".as_bytes());
    assert_eq!(s.grid[0][0].ch, '中');
}
