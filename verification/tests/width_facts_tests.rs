//! Checks, against the real `unicode_width` tables, the width bounds that
//! the library's contracts rely on.
use repl_engine::StringInfo;
use repl_engine::Vec2;
use unicode_width::UnicodeWidthChar;

#[test]
fn every_character_is_at_most_three_cells_wide() {
    for u in 0..0x110000u32 {
        if let Some(c) = char::from_u32(u) {
            let w = c.width().unwrap_or(0);
            assert!(w <= 3, "U+{u:04X} has width {w}");
        }
    }
}

#[test]
fn characters_below_the_east_asian_blocks_are_at_most_one_cell() {
    for u in 0..0x1100u32 {
        if let Some(c) = char::from_u32(u) {
            let w = c.width().unwrap_or(0);
            assert!(w <= 1, "U+{u:04X} has width {w}");
        }
    }
}

#[test]
fn newline_and_control_characters_take_no_cells() {
    let s: Vec<char> = "a\tb".chars().collect();
    // The tab is a control character; it contributes no display columns.
    assert_eq!(s.byte_to_position(3), Vec2::new(2, 0));
}
