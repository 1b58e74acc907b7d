use repl_engine::StringInfo;
use repl_engine::Vec2;

fn chars(s: &str) -> Vec<char> {
    s.chars().collect()
}

#[test]
fn test_byte_to_position() {
    assert_eq!(chars("hello\nworld").byte_to_position(0), Vec2::new(0, 0));
    assert_eq!(chars("hello\nworld").byte_to_position(5), Vec2::new(5, 0));
    assert_eq!(chars("hello\nworld").byte_to_position(6), Vec2::new(0, 1));
    assert_eq!(chars("hello\nworld").byte_to_position(11), Vec2::new(5, 1));
    assert_eq!(chars("hello\nworld").byte_to_position(12), Vec2::new(5, 1)); // overrunning
}

#[test]
fn test_position_to_byte() {
    // lines
    assert_eq!(chars("hello\nworld").position_to_byte(Vec2::new(5, 0)), 5);
    assert_eq!(chars("hello\nworld").position_to_byte(Vec2::new(6, 0)), 5); // overrunning line
    assert_eq!(chars("hello\nworld").position_to_byte(Vec2::new(0, 1)), 6);
    assert_eq!(chars("hello\nworld").position_to_byte(Vec2::new(5, 1)), 11);
    assert_eq!(chars("hello\nworld").position_to_byte(Vec2::new(6, 1)), 11); // overrunning
    assert_eq!(chars("hello\nworld").position_to_byte(Vec2::new(0, 2)), 11); // overrunning

    // character widths
    assert_eq!(chars("hëy").position_to_byte(Vec2::new(0, 0)), 0);
    assert_eq!(chars("hëy").position_to_byte(Vec2::new(1, 0)), 1);
    assert_eq!(chars("hëy").position_to_byte(Vec2::new(2, 0)), 3);
    assert_eq!(chars("hëy").position_to_byte(Vec2::new(3, 0)), 4);
    assert_eq!(chars("hëy").position_to_byte(Vec2::new(4, 0)), 4); // overrunning
}

#[test]
fn round_trip_on_every_boundary() {
    let text = "hello\nwörld\naïe";
    let s = chars(text);
    for (b, _) in text.char_indices() {
        let pos = s.byte_to_position(b);
        assert_eq!(s.position_to_byte(pos), b);
    }
    let end = s.byte_to_position(text.len());
    assert_eq!(s.position_to_byte(end), text.len());
}

#[test]
fn double_width_character_spans_two_columns() {
    // The first character is two columns wide and three bytes long, so
    // column 2 lands just after it and column 1 resolves past it as well.
    let s = chars("日a");
    assert_eq!(s.position_to_byte(Vec2::new(2, 0)), 3);
    assert_eq!(s.byte_to_position(3), Vec2::new(2, 0));
    assert_eq!(s.byte_to_position(4), Vec2::new(3, 0));
}

#[test]
fn combining_mark_has_no_width() {
    // "e" followed by a combining acute accent: the mark adds bytes but no
    // columns.
    let s = chars("e\u{301}x");
    assert_eq!(s.byte_to_position(3), Vec2::new(1, 0));
    assert_eq!(s.byte_to_position(4), Vec2::new(2, 0));
}

#[test]
fn positions_clamp_to_line_and_content() {
    let s = chars("ab\ncd");
    assert_eq!(s.position_to_byte(Vec2::new(99, 0)), 2); // end of first line
    assert_eq!(s.position_to_byte(Vec2::new(99, 1)), 5); // end of content
    assert_eq!(s.position_to_byte(Vec2::new(0, 7)), 5); // past last line
    assert_eq!(s.byte_to_position(99), Vec2::new(2, 1)); // past end of content
}

#[test]
fn empty_content_positions() {
    let s = chars("");
    assert_eq!(s.byte_to_position(0), Vec2::new(0, 0));
    assert_eq!(s.byte_to_position(5), Vec2::new(0, 0));
    assert_eq!(s.position_to_byte(Vec2::new(3, 2)), 0);
}
