use core::ops::ControlFlow;

use repl_engine::Editor;
use repl_engine::EditorCommand;
use repl_engine::Handler;
use repl_engine::Repl;
use repl_engine::Signal;
use repl_engine::Vec2;

fn editor_with(text: &str) -> Editor {
    let mut ed = Editor::new();
    ed.insert_str(text);
    ed
}

#[test]
fn new_editor_is_empty() {
    let ed = Editor::new();
    assert_eq!(ed.as_str(), "");
    assert_eq!(ed.cursor_byte(), 0);
    assert_eq!(ed.num_lines(), 1);
}

#[test]
fn insert_char_advances_cursor_and_counts_lines() {
    let mut ed = Editor::new();
    ed.insert_char('a');
    ed.insert_char('\n');
    ed.insert_char('b');
    assert_eq!(ed.as_str(), "a\nb");
    assert_eq!(ed.cursor_byte(), 3);
    assert_eq!(ed.num_lines(), 2);
}

#[test]
fn insert_str_splices_at_cursor() {
    let mut ed = editor_with("ad");
    ed.move_left();
    ed.insert_str("bc");
    assert_eq!(ed.as_str(), "abcd");
    assert_eq!(ed.cursor_byte(), 3);
}

#[test]
fn delete_char_removes_at_cursor_and_is_noop_at_end() {
    let mut ed = editor_with("ab\ncd");
    ed.delete_char(); // at end: no-op
    assert_eq!(ed.as_str(), "ab\ncd");
    ed.move_home();
    ed.move_right();
    ed.move_right();
    ed.delete_char(); // removes the newline
    assert_eq!(ed.as_str(), "abcd");
    assert_eq!(ed.num_lines(), 1);
    assert_eq!(ed.cursor_byte(), 2);
}

#[test]
fn backspace_char_removes_before_cursor_and_is_noop_at_start() {
    let mut ed = editor_with("abc");
    ed.backspace_char();
    assert_eq!(ed.as_str(), "ab");
    assert_eq!(ed.cursor_byte(), 2);
    ed.move_home();
    ed.backspace_char(); // at start: no-op
    assert_eq!(ed.as_str(), "ab");
    assert_eq!(ed.cursor_byte(), 0);
}

#[test]
fn insert_then_backspace_restores_state() {
    let mut ed = editor_with("héllo");
    ed.move_left();
    ed.move_left();
    let before_text = ed.as_str();
    let before_cursor = ed.cursor_byte();
    ed.insert_char('ß');
    ed.backspace_char();
    assert_eq!(ed.as_str(), before_text);
    assert_eq!(ed.cursor_byte(), before_cursor);
    assert_eq!(ed.num_lines(), 1);
}

#[test]
fn move_left_and_right_step_one_codepoint() {
    let mut ed = editor_with("aé");
    assert!(!ed.move_right()); // at end
    assert!(ed.move_left());
    assert_eq!(ed.cursor_byte(), 1); // é is two bytes
    assert!(ed.move_left());
    assert_eq!(ed.cursor_byte(), 0);
    assert!(!ed.move_left());
    assert!(ed.move_right());
    assert_eq!(ed.cursor_byte(), 1);
}

#[test]
fn word_moves_return_byte_distance() {
    let mut ed = editor_with("foo bar");
    // cursor at end (7): moving left one codepoint then over "ba" -> 4
    assert_eq!(ed.move_left_word(), 3);
    assert_eq!(ed.cursor_byte(), 4);
    assert_eq!(ed.move_right_word(), 3);
    assert_eq!(ed.cursor_byte(), 7);
    assert_eq!(ed.move_right_word(), 0); // at end: nothing to cross
}

#[test]
fn left_word_then_right_word_returns_to_space_boundary() {
    // From the offset of the space before "bar", the pair of word moves
    // returns the cursor to the same offset.
    let mut ed = editor_with("foo bar");
    ed.move_home();
    ed.move_right();
    ed.move_right();
    ed.move_right();
    assert_eq!(ed.cursor_byte(), 3);
    ed.move_left_word();
    ed.move_right_word();
    assert_eq!(ed.cursor_byte(), 3);
}

#[test]
fn delete_word_removes_span_and_keeps_cursor() {
    let mut ed = editor_with("foo bar");
    ed.move_home();
    ed.delete_word();
    assert_eq!(ed.as_str(), " bar");
    assert_eq!(ed.cursor_byte(), 0);
}

#[test]
fn delete_word_then_reinsert_restores_content() {
    let mut ed = editor_with("foo bar");
    ed.move_home();
    ed.move_right_word();
    let at = ed.cursor_byte();
    let before = ed.as_str();
    ed.delete_word();
    let remaining = ed.as_str();
    let removed: String = before[at..before.len() - (remaining.len() - at)].to_string();
    ed.insert_str(&removed);
    assert_eq!(ed.as_str(), before);
}

#[test]
fn backspace_word_removes_preceding_span() {
    let mut ed = editor_with("foo bar");
    ed.backspace_word();
    assert_eq!(ed.as_str(), "foo ");
    assert_eq!(ed.cursor_byte(), 4);
}

#[test]
fn word_characters_include_dash_and_underscore() {
    let mut ed = editor_with("a-b_c d");
    ed.move_home();
    ed.move_right_word();
    assert_eq!(ed.cursor_byte(), 5); // the whole "a-b_c" run
}

#[test]
fn word_moves_cross_accented_letters() {
    let mut ed = editor_with("héy ho");
    ed.move_home();
    ed.move_right_word();
    assert_eq!(ed.cursor_byte(), 4); // "héy" is one word of four bytes
}

#[test]
fn vertical_moves_follow_display_columns() {
    let mut ed = editor_with("hello\nhëy");
    // cursor at end of "hëy": column 3 of line 1
    ed.move_up();
    assert_eq!(ed.cursor_byte(), 3); // column 3 of "hello"
    ed.move_down();
    assert_eq!(ed.cursor_byte(), 10); // column 3 of "hëy": back at the end
}

#[test]
fn vertical_moves_clamp_at_edges() {
    let mut ed = editor_with("ab\ncd");
    ed.move_down(); // on last line: to end of content
    assert_eq!(ed.cursor_byte(), 5);
    ed.move_home();
    ed.move_right();
    ed.move_up(); // on first line: to start of content
    assert_eq!(ed.cursor_byte(), 0);
}

#[test]
fn home_and_end_jump_to_content_edges() {
    let mut ed = editor_with("one\ntwo");
    ed.move_home();
    assert_eq!(ed.cursor_byte(), 0);
    ed.move_end();
    assert_eq!(ed.cursor_byte(), 7);
}

#[test]
fn cursor_pos_reports_display_position() {
    let ed = editor_with("hello\nworld");
    assert_eq!(ed.cursor_byte(), 11);
    assert_eq!(ed.cursor_pos(), Vec2::new(5, 1));
}

#[test]
fn take_returns_content_and_resets() {
    let mut ed = editor_with("some\ntext");
    assert_eq!(ed.take(), "some\ntext");
    assert_eq!(ed.as_str(), "");
    assert_eq!(ed.cursor_byte(), 0);
    assert_eq!(ed.num_lines(), 1);
}

#[test]
fn clear_resets_everything() {
    let mut ed = editor_with("a\nb\nc");
    ed.clear();
    assert_eq!(ed.as_str(), "");
    assert_eq!(ed.cursor_byte(), 0);
    assert_eq!(ed.num_lines(), 1);
}

#[test]
fn handle_maps_commands_to_operations() {
    let mut ed = Editor::new();
    assert_eq!(
        ed.handle(EditorCommand::InsertString("ab cd".to_string())),
        Some(ControlFlow::Continue(()))
    );
    assert_eq!(ed.handle(EditorCommand::MoveHome), Some(ControlFlow::Continue(())));
    assert_eq!(ed.handle(EditorCommand::MoveRightWord), Some(ControlFlow::Continue(())));
    assert_eq!(ed.cursor_byte(), 2);
    assert_eq!(ed.handle(EditorCommand::DeleteWordToken), Some(ControlFlow::Continue(())));
    assert_eq!(ed.as_str(), "ab");
    assert_eq!(ed.handle(EditorCommand::BackspaceChar), Some(ControlFlow::Continue(())));
    assert_eq!(ed.as_str(), "a");
    assert_eq!(ed.handle(EditorCommand::InsertChar('!')), Some(ControlFlow::Continue(())));
    assert_eq!(ed.as_str(), "a!");
}

#[test]
fn submit_on_empty_content_yields_empty_submit_signal() {
    let mut ed = Editor::new();
    let r = ed.handle(EditorCommand::Submit);
    assert_eq!(r, Some(ControlFlow::Break(Signal::Submit(String::new()))));
    assert_eq!(ed.num_lines(), 1);
    assert_eq!(ed.cursor_byte(), 0);
}

#[test]
fn submit_drains_the_buffer() {
    let mut ed = editor_with("line one\nline two");
    let r = ed.handle(EditorCommand::Submit);
    match r {
        Some(ControlFlow::Break(Signal::Submit(out))) => {
            assert_eq!(out, "line one\nline two");
        }
        other => panic!("unexpected handle result: {other:?}"),
    }
    assert_eq!(ed.as_str(), "");
    assert_eq!(ed.num_lines(), 1);
}

#[test]
fn repl_holds_a_fresh_editor() {
    let mut repl = Repl::new();
    assert_eq!(repl.editor.as_str(), "");
    repl.editor.insert_char('x');
    assert_eq!(repl.editor.as_str(), "x");
}
