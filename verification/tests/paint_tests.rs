use repl_engine::PaintBuffer;
use repl_engine::PaintOp;
use repl_engine::Vec2;

fn chars(s: &str) -> Vec<char> {
    s.chars().collect()
}

fn text_of(op: &PaintOp) -> String {
    match op {
        PaintOp::Text(v) => v.iter().collect(),
        other => panic!("expected a text operation, got {other:?}"),
    }
}

#[test]
fn new_clamps_size_and_anchors_at_cursor_row() {
    let pb = PaintBuffer::new(2, 4, 80, 24);
    assert_eq!(pb.start_row(), 4);
    assert_eq!(pb.reserved_rows(), 0);
    assert_eq!(pb.lines_available(), 20);

    let tiny = PaintBuffer::new(0, 9, 0, 0);
    assert_eq!(tiny.start_row(), 0);
    assert_eq!(tiny.lines_available(), 1);
}

#[test]
fn reserve_lines_without_scroll_keeps_start() {
    let mut pb = PaintBuffer::new(0, 2, 80, 10);
    let ops = pb.reserve_lines(3);
    assert_eq!(pb.start_row(), 2);
    assert_eq!(pb.reserved_rows(), 3);
    assert_eq!(ops, vec![PaintOp::MoveTo(0, 9)]);
}

#[test]
fn reserve_lines_scrolls_by_the_missing_rows() {
    let mut pb = PaintBuffer::new(0, 8, 80, 10);
    // 2 rows available below row 8; asking for 5 forces 3 blank lines.
    let ops = pb.reserve_lines(5);
    assert_eq!(pb.start_row(), 5);
    assert_eq!(pb.reserved_rows(), 5);
    assert_eq!(ops.len(), 4);
    assert_eq!(ops[0], PaintOp::MoveTo(0, 9));
    for op in &ops[1..] {
        assert_eq!(text_of(op), "\r\n");
    }
}

#[test]
fn reserve_lines_start_clamps_at_top() {
    let mut pb = PaintBuffer::new(0, 1, 80, 4);
    let ops = pb.reserve_lines(9);
    assert_eq!(pb.start_row(), 0);
    assert_eq!(ops.len(), 7); // the bottom move plus 9 - (4 - 1) blanks
}

#[test]
fn paint_renders_prompt_content_and_cursor_move() {
    let mut pb = PaintBuffer::new(2, 0, 80, 24);
    let ops = pb.paint(&chars("> "), &chars("ab\ncd"), Vec2::new(1, 1), None);
    assert_eq!(
        ops,
        vec![
            PaintOp::MoveTo(0, 23),
            PaintOp::MoveTo(2, 0),
            PaintOp::ClearDown,
            PaintOp::Text("> ab\r\n  cd".chars().collect()),
            PaintOp::MoveTo(3, 1),
        ]
    );
    assert_eq!(pb.reserved_rows(), 2);
}

#[test]
fn paint_appends_note_after_separating_space() {
    let mut pb = PaintBuffer::new(0, 0, 80, 24);
    let ops = pb.paint(&chars(""), &chars("x"), Vec2::new(1, 0), Some(&chars("hint")));
    assert_eq!(ops.len(), 7);
    assert_eq!(text_of(&ops[4]), " ");
    assert_eq!(ops[5], PaintOp::Note("hint".chars().collect()));
}

#[test]
fn paint_omits_separator_on_empty_content() {
    let mut pb = PaintBuffer::new(0, 0, 80, 24);
    let ops = pb.paint(&chars(""), &chars(""), Vec2::new(0, 0), Some(&chars("hint")));
    assert_eq!(ops.len(), 6);
    assert_eq!(ops[4], PaintOp::Note("hint".chars().collect()));
}

#[test]
fn paint_never_writes_above_the_region_start() {
    let mut pb = PaintBuffer::new(0, 4, 80, 5);
    // Three lines of content with one row available: two forced blanks.
    let before = pb.start_row();
    let ops = pb.paint(&chars(""), &chars("a\nb\nc"), Vec2::new(1, 2), None);
    assert_eq!(pb.start_row(), 2);
    let blanks = ops
        .iter()
        .filter(|op| matches!(op, PaintOp::Text(v) if v.as_slice() == ['\r', '\n']))
        .count();
    assert_eq!(before - pb.start_row(), blanks);
    for op in &ops {
        if let PaintOp::MoveTo(_, row) = op {
            assert!(*row >= pb.start_row());
        }
    }
}

#[test]
fn carriage_returns_are_dropped_from_content() {
    let mut pb = PaintBuffer::new(1, 0, 80, 24);
    let ops = pb.paint(&chars(""), &chars("a\r\nb"), Vec2::new(1, 1), None);
    assert_eq!(text_of(&ops[3]), "a\r\n b");
}

#[test]
fn set_size_preserves_the_region_anchor() {
    let mut pb = PaintBuffer::new(0, 5, 80, 24);
    let _ = pb.paint(&chars(""), &chars("a\nb"), Vec2::new(1, 1), None);
    // The cursor sits on region row 1; after a resize that reports the
    // physical cursor on row 6, the region still starts on row 5.
    pb.set_size(100, 30, 6);
    assert_eq!(pb.start_row(), 5);
    // A cursor row above the region row clamps the start to the top.
    pb.set_size(100, 30, 0);
    assert_eq!(pb.start_row(), 0);
}

#[test]
fn finalize_moves_below_the_region() {
    let mut pb = PaintBuffer::new(0, 1, 80, 24);
    let _ = pb.reserve_lines(3);
    let ops = pb.finalize();
    assert_eq!(ops.len(), 2);
    assert_eq!(ops[0], PaintOp::MoveTo(0, 3));
    assert_eq!(text_of(&ops[1]), "\r\n");
}
