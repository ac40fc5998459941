use gbfr_sdk::text::space_char;

#[test]
fn white_space_is_unicode_white_space() {
    for n in 0..=0x10FFFFu32 {
        if let Some(c) = char::from_u32(n) {
            assert_eq!(space_char(c), c.is_whitespace(), "U+{:04X}", n);
        }
    }
}
