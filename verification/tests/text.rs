use rt_vt::text::is_white_space;

#[test]
fn whitespace_agrees_with_std_on_every_char() {
    for n in 0..=0x10FFFFu32 {
        if let Some(c) = char::from_u32(n) {
            assert_eq!(is_white_space(c), c.is_whitespace(), "U+{n:04X}");
        }
    }
}
