use rt_vt::select::{move_head, Bounds, Nav};

fn b() -> Bounds {
    Bounds { cols: 80, min_line: -100, max_line: 23, page: 24 }
}

#[test]
fn arrows_move_one_cell_or_row_and_clamp_to_bounds() {
    // Right/Down advance; Left/Up retreat.
    assert_eq!(move_head((5, 0), Nav::Right, b()), (6, 0));
    assert_eq!(move_head((5, 0), Nav::Left, b()), (4, 0));
    assert_eq!(move_head((5, 0), Nav::Down, b()), (5, 1));
    assert_eq!(move_head((5, 0), Nav::Up, b()), (5, -1));
    // Column clamps at both ends of the row.
    assert_eq!(move_head((0, 0), Nav::Left, b()), (0, 0));
    assert_eq!(move_head((79, 0), Nav::Right, b()), (79, 0));
    // Line clamps to the buffer bounds.
    assert_eq!(move_head((5, 23), Nav::Down, b()), (5, 23));
    assert_eq!(move_head((5, -100), Nav::Up, b()), (5, -100));
}

#[test]
fn home_end_hit_the_line_edges_and_page_moves_a_screenful() {
    assert_eq!(move_head((40, 5), Nav::LineStart, b()), (0, 5));
    assert_eq!(move_head((40, 5), Nav::LineEnd, b()), (79, 5));
    assert_eq!(move_head((10, 5), Nav::PageDown, b()), (10, 23)); // 5+24 clamps to 23
    assert_eq!(move_head((10, 5), Nav::PageUp, b()), (10, -19)); // 5-24
}

#[test]
fn buffer_ends_jump_to_the_extremes() {
    assert_eq!(move_head((10, 5), Nav::BufTop, b()), (0, -100));
    assert_eq!(move_head((10, 5), Nav::BufBottom, b()), (79, 23));
}

#[test]
fn a_zero_width_grid_keeps_the_column_at_zero() {
    let z = Bounds { cols: 0, min_line: -5, max_line: 5, page: 10 };
    assert_eq!(move_head((0, 0), Nav::Right, z), (0, 0));
    assert_eq!(move_head((0, 0), Nav::LineEnd, z), (0, 0));
}

#[test]
fn moves_from_inside_the_bounds_stay_inside() {
    let bounds = Bounds { cols: 10, min_line: -3, max_line: 3, page: 4 };
    let navs = [
        Nav::Left,
        Nav::Right,
        Nav::Up,
        Nav::Down,
        Nav::LineStart,
        Nav::LineEnd,
        Nav::PageUp,
        Nav::PageDown,
        Nav::BufTop,
        Nav::BufBottom,
    ];
    for col in 0..10usize {
        for line in -3..=3i32 {
            for nav in navs {
                let (c, l) = move_head((col, line), nav, bounds);
                assert!(c <= 9 && (-3..=3).contains(&l), "{nav:?} from ({col},{line})");
            }
        }
    }
}

#[test]
fn buffer_jumps_repeat_to_the_same_place() {
    let top = move_head((4, 1), Nav::BufTop, b());
    assert_eq!(move_head(top, Nav::BufTop, b()), top);
    let bottom = move_head((4, 1), Nav::BufBottom, b());
    assert_eq!(move_head(bottom, Nav::BufBottom, b()), bottom);
}

#[test]
fn horizontal_moves_keep_an_out_of_range_line_and_clamp_a_wide_column() {
    // Left/Right/Home/End never touch the line, even one outside the bounds.
    assert_eq!(move_head((5, 40), Nav::Left, b()), (4, 40));
    // A column past the grid is pulled back to the last column by any move.
    assert_eq!(move_head((200, 0), Nav::Up, b()), (79, -1));
    // A page step of zero leaves the line where it is.
    let z = Bounds { cols: 5, min_line: 0, max_line: 9, page: 0 };
    assert_eq!(move_head((2, 4), Nav::PageDown, z), (2, 4));
}

#[test]
fn up_then_down_returns_to_the_same_cell() {
    for line in -99..23 {
        let up = move_head((7, line), Nav::Up, b());
        assert_eq!(move_head(up, Nav::Down, b()), (7, line));
        let down = move_head((7, line), Nav::Down, b());
        assert_eq!(move_head(down, Nav::Up, b()), (7, line));
    }
}
