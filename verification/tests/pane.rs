use rt_vt::damage::{CellAttrs, Rgb, SnapCell};
use rt_vt::pane::{
    exit_report, fold_cell, history_rows, remember_exit_code, resize_winsize, resolve_color,
    scroll_to_line_delta, shell_env, upgrade_exits, viewport_cursor, viewport_lines, winsize_for,
    write_pending, write_step, CellStyle, CursorPos, CursorShape, PaneEvent, TermColor, Winsize,
    WriteAction, WriteError,
};

const FG: Rgb = Rgb { r: 200, g: 200, b: 200 };
const BG: Rgb = Rgb { r: 0, g: 0, b: 0 };
const DIM: Rgb = Rgb { r: 100, g: 100, b: 100 };
const IDX: Rgb = Rgb { r: 9, g: 9, b: 9 };

fn style() -> CellStyle {
    CellStyle {
        bold: false,
        dim: false,
        italic: false,
        underline: false,
        inverse: false,
        hidden: false,
        strikeout: false,
    }
}

#[test]
fn viewport_rows_show_lines_above_when_scrolled_back() {
    assert_eq!(viewport_lines(3, 0), vec![0, 1, 2]);
    assert_eq!(viewport_lines(3, 5), vec![-5, -4, -3]);
}

#[test]
fn the_cursor_is_drawn_only_live_visible_and_on_screen() {
    let c = viewport_cursor(true, 0, 3, 1, 24, 80, CursorShape::Beam);
    assert_eq!(c, Some(CursorPos { col: 3, line: 1, shape: CursorShape::Beam }));
    assert_eq!(viewport_cursor(false, 0, 3, 1, 24, 80, CursorShape::Block), None);
    assert_eq!(viewport_cursor(true, 2, 3, 1, 24, 80, CursorShape::Block), None);
    assert_eq!(viewport_cursor(true, 0, 80, 1, 24, 80, CursorShape::Block), None);
}

#[test]
fn history_rows_blank_out_unreadable_lines() {
    assert_eq!(history_rows(-2, 5, -1, 1), vec![None, Some(-1), Some(0), Some(1), None]);
}

#[test]
fn colours_resolve_through_the_palette() {
    assert_eq!(resolve_color(TermColor::Default, true, FG, BG, IDX), FG);
    assert_eq!(resolve_color(TermColor::Default, false, FG, BG, IDX), BG);
    assert_eq!(resolve_color(TermColor::Indexed(4), true, FG, BG, IDX), IDX);
    assert_eq!(resolve_color(TermColor::Rgb(1, 2, 3), true, FG, BG, IDX), Rgb { r: 1, g: 2, b: 3 });
}

#[test]
fn dim_inverse_and_hidden_fold_into_the_colours() {
    let plain = fold_cell('x', FG, BG, DIM, style());
    assert_eq!((plain.fg, plain.bg), (FG, BG));
    let dim_inverse = fold_cell('x', FG, BG, DIM, CellStyle { dim: true, inverse: true, ..style() });
    assert_eq!((dim_inverse.fg, dim_inverse.bg), (BG, DIM));
    let hidden = fold_cell('x', FG, BG, DIM, CellStyle { hidden: true, bold: true, ..style() });
    assert_eq!(
        hidden,
        SnapCell {
            c: 'x',
            fg: BG,
            bg: BG,
            attrs: CellAttrs { bold: true, underline: false, italic: false, strikeout: false },
        }
    );
}

#[test]
fn scrolling_to_a_line_centres_it_within_the_history() {
    // screen 24 rows: line -30 wants offset 12 + 30 = 42, clamped to 40 history.
    assert_eq!(scroll_to_line_delta(24, 40, 0, -30), 40);
    assert_eq!(scroll_to_line_delta(24, 40, 10, -5), 7);
    // A line near the bottom wants no offset.
    assert_eq!(scroll_to_line_delta(24, 40, 3, 20), -3);
}

#[test]
fn the_write_loop_advances_retries_waits_or_stops() {
    assert_eq!(write_step(4, 3, WriteError::Other), WriteAction::Advance(7));
    assert_eq!(write_step(4, -1, WriteError::Interrupted), WriteAction::Retry);
    assert_eq!(write_step(4, -1, WriteError::WouldBlock), WriteAction::WaitWritable);
    assert_eq!(write_step(4, 0, WriteError::Other), WriteAction::Stop);
    assert!(write_pending(6, 7) && !write_pending(7, 7));
}

#[test]
fn an_exit_is_reported_once_and_upgraded_with_its_status() {
    let mut reported = false;
    let mut queue = Vec::new();
    for code in [None, Some(3), Some(4)] {
        if let Some(e) = exit_report(reported, code) {
            queue.push(e);
        }
        reported = true;
    }
    assert_eq!(queue, vec![PaneEvent::Exited(None)]);
    let known = remember_exit_code(None, Some(3));
    assert_eq!(remember_exit_code(known, None), Some(3));
    queue.insert(0, PaneEvent::Title("t".to_string()));
    queue.push(PaneEvent::Exited(Some(1)));
    assert_eq!(
        upgrade_exits(queue.clone(), known),
        vec![PaneEvent::Title("t".to_string()), PaneEvent::Exited(Some(3)), PaneEvent::Exited(Some(1))]
    );
    assert_eq!(upgrade_exits(queue.clone(), None), queue);
}

#[test]
fn a_resize_tells_the_pty_only_when_the_size_changes() {
    assert_eq!(resize_winsize(80, 24, 80, 24), None);
    assert_eq!(
        resize_winsize(80, 24, 100, 30),
        Some(Winsize { ws_row: 30, ws_col: 100, ws_xpixel: 800, ws_ypixel: 480 })
    );
    // Each field is a 16-bit value.
    assert_eq!(winsize_for(9000, 5000).ws_xpixel, (72000u32 % 65536) as u16);
}

#[test]
fn the_shell_environment_puts_the_callers_variables_last() {
    let env = shell_env(&vec![("TERM".to_string(), "dumb".to_string())]);
    assert_eq!(
        env,
        vec![
            ("TERM".to_string(), "xterm-256color".to_string()),
            ("COLORTERM".to_string(), "truecolor".to_string()),
            ("TERM".to_string(), "dumb".to_string()),
        ]
    );
}

#[test]
fn drains_hand_out_events_in_order_and_leave_the_queue_empty() {
    let mut ev = rt_vt::pane::PaneEvents::new();
    ev.post_output(Some("vim".to_string()));
    ev.post_output(None);
    assert_eq!(
        ev.drain(None),
        vec![PaneEvent::Title("vim".to_string()), PaneEvent::Wakeup, PaneEvent::Wakeup]
    );
    assert_eq!(ev.drain(None), vec![]);
}

#[test]
fn an_eof_exit_is_upgraded_once_the_reap_tells_the_status() {
    let mut ev = rt_vt::pane::PaneEvents::new();
    ev.post_output(None);
    ev.post_exit(None);
    ev.post_exit(None);
    assert_eq!(ev.drain(Some(Some(3))), vec![PaneEvent::Wakeup, PaneEvent::Exited(Some(3))]);
    assert_eq!(ev.drain(Some(Some(3))), vec![]);
}

#[test]
fn a_reaped_exit_is_reported_once_over_the_pane_life() {
    let mut ev = rt_vt::pane::PaneEvents::new();
    let mut all = ev.drain(Some(Some(0)));
    ev.post_exit(None);
    all.extend(ev.drain(None));
    all.extend(ev.drain(Some(None)));
    assert_eq!(all, vec![PaneEvent::Exited(Some(0))]);
}

#[test]
fn a_reap_without_status_reports_an_unknown_exit() {
    let mut ev = rt_vt::pane::PaneEvents::new();
    assert_eq!(ev.drain(Some(None)), vec![PaneEvent::Exited(None)]);
}
