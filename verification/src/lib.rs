//! An embeddable multi-line line-editing engine for building interactive
//! read-eval-print loops on raw terminal input.
//!
//! The crate provides the text buffer ([`Editor`]), the converter between
//! byte offsets and display positions ([`StringInfo`]), and the terminal
//! paint buffer ([`PaintBuffer`]), which renders into a scrolling region as a
//! sequence of explicit paint operations.  Decoding raw terminal events and
//! performing the actual terminal writes are left to the embedding program.
use vstd::prelude::*;

mod chars;
mod editor;
mod event;
mod paint;
mod string_info;
mod vec2;

pub use editor::Editor;
pub use editor::Handler;
pub use event::EditorCommand;
pub use event::MenuCommand;
pub use event::Signal;
pub use paint::PaintBuffer;
pub use paint::PaintOp;
pub use string_info::StringInfo;
pub use vec2::Vec2;

verus! {

/// A read-eval-print session: an editor whose content is filled in by the
/// embedding event loop and drained on submission.
pub struct Repl {
    pub editor: Editor,
}

impl Default for Repl {
    /// A session with an empty editor, as [`Repl::new`] builds it.
    fn default() -> (r: Repl)
        ensures
            r.editor.text() == Seq::<char>::empty(),
            r.editor.cursor_index() == 0,
            r.editor.wf(),
    {
        Repl::new()
    }
}

impl Repl {
    /// Creates a session with an empty editor.
    pub fn new() -> (r: Repl)
        ensures
            r.editor.text() == Seq::<char>::empty(),
            r.editor.cursor_index() == 0,
            r.editor.wf(),
    {
        Repl { editor: Editor::new() }
    }
}

} // verus!
