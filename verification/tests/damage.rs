use rt_vt::damage::{frame_damage, CellAttrs, CellDamage, Damage, Rgb, SnapCell};
use rt_vt::pane::{CursorPos, CursorShape};

fn cell(c: char) -> SnapCell {
    let black = Rgb { r: 0, g: 0, b: 0 };
    let white = Rgb { r: 255, g: 255, b: 255 };
    SnapCell {
        c,
        fg: white,
        bg: black,
        attrs: CellAttrs { bold: false, underline: false, italic: false, strikeout: false },
    }
}

fn grid(lines: &[&str]) -> Vec<Vec<SnapCell>> {
    lines.iter().map(|l| l.chars().map(cell).collect()).collect()
}

fn spans(d: Damage) -> Vec<CellDamage> {
    match d {
        Damage::Full => panic!("expected line damage"),
        Damage::Lines(v) => v,
    }
}

#[test]
fn the_first_frame_and_a_resize_are_full() {
    assert!(matches!(frame_damage(&Vec::new(), &grid(&["ab"]), 2, None, None), Damage::Full));
    assert!(matches!(frame_damage(&grid(&["ab"]), &grid(&["ab", "cd"]), 2, None, None), Damage::Full));
    assert!(matches!(frame_damage(&grid(&["ab"]), &grid(&["abc"]), 3, None, None), Damage::Full));
}

#[test]
fn an_idle_pane_reports_no_damage() {
    assert_eq!(spans(frame_damage(&grid(&["ab", "cd"]), &grid(&["ab", "cd"]), 2, None, None)), vec![]);
}

#[test]
fn each_changed_line_reports_its_first_and_last_changed_column() {
    let last = grid(&["abcdef", "abcdef", "abcdef"]);
    let new = grid(&["abXdeY", "abcdef", "Zbcdef"]);
    assert_eq!(
        spans(frame_damage(&last, &new, 6, None, None)),
        vec![
            CellDamage { line: 0, left: 2, right: 5 },
            CellDamage { line: 2, left: 0, right: 0 },
        ]
    );
}

#[test]
fn a_colour_change_alone_is_damage() {
    let last = grid(&["ab"]);
    let mut new = grid(&["ab"]);
    new[0][1].fg = Rgb { r: 1, g: 2, b: 3 };
    assert_eq!(spans(frame_damage(&last, &new, 2, None, None)), vec![CellDamage { line: 0, left: 1, right: 1 }]);
}

fn at(col: usize, line: usize) -> Option<CursorPos> {
    Some(CursorPos { col, line, shape: CursorShape::Block })
}

#[test]
fn a_pure_cursor_move_damages_the_old_and_the_new_cursor_cell() {
    let g = grid(&["abcd", "efgh", "ijkl"]);
    assert_eq!(
        spans(frame_damage(&g, &g, 4, at(1, 0), at(3, 2))),
        vec![
            CellDamage { line: 0, left: 1, right: 1 },
            CellDamage { line: 2, left: 3, right: 3 },
        ]
    );
}

#[test]
fn a_cursor_move_on_one_line_damages_both_cells_in_one_span() {
    let g = grid(&["abcd"]);
    assert_eq!(spans(frame_damage(&g, &g, 4, at(3, 0), at(0, 0))), vec![CellDamage { line: 0, left: 0, right: 3 }]);
}

#[test]
fn a_cursor_move_widens_the_span_of_a_changed_line() {
    let last = grid(&["abcdef"]);
    let new = grid(&["abXdef"]);
    assert_eq!(spans(frame_damage(&last, &new, 6, at(2, 0), at(5, 0))), vec![CellDamage { line: 0, left: 2, right: 5 }]);
}

#[test]
fn a_still_cursor_adds_no_damage() {
    let g = grid(&["ab", "cd"]);
    assert_eq!(spans(frame_damage(&g, &g, 2, at(1, 1), at(1, 1))), vec![]);
}

#[test]
fn hiding_the_cursor_damages_the_cell_it_left() {
    let g = grid(&["ab", "cd"]);
    assert_eq!(spans(frame_damage(&g, &g, 2, at(0, 1), None)), vec![CellDamage { line: 1, left: 0, right: 0 }]);
}
