use rt_vt::prefs::{estimate_in_gigabytes, full_scrollback_bytes};

#[test]
fn a_full_buffer_costs_its_lines_times_the_line_size() {
    // 80 cells of 24 bytes plus 32 bytes of row overhead, for 10 000 lines.
    assert_eq!(full_scrollback_bytes(10_000, 80, 24), 10_000 * (80 * 24 + 32));
    // A zero-width pane still counts one cell per line.
    assert_eq!(full_scrollback_bytes(10, 0, 24), 10 * 56);
}

#[test]
fn the_estimate_saturates_and_switches_to_gigabytes() {
    assert_eq!(full_scrollback_bytes(u64::MAX, 80, 24), u64::MAX);
    assert!(!estimate_in_gigabytes(999_999_999));
    assert!(estimate_in_gigabytes(1_000_000_000));
}
