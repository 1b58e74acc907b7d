//! Commands fed to the editor by the embedding event loop, and the terminal
//! signal an editing session produces.
use vstd::prelude::*;

verus! {

/// One editing command, decoded from a key or paste event by the embedding
/// program.
#[derive(Debug, Clone, PartialEq, Eq, Hash)]
pub enum EditorCommand {
    InsertChar(char),
    InsertString(String),
    DeleteChar,
    DeleteWordToken,
    BackspaceChar,
    BackspaceWordToken,
    MoveLeft,
    MoveRight,
    MoveUp,
    MoveDown,
    MoveLeftWord,
    MoveRightWord,
    MoveHome,
    MoveEnd,
    Submit,
}

/// Movement commands for a selection menu.
pub enum MenuCommand {
    MoveLeft,
    MoveRight,
    MoveDown,
    MoveUp,
    Submit,
}

/// Terminal outcome of one editing session, consumed by the embedding loop.
#[derive(Debug, Clone, PartialEq, Eq, Hash)]
pub enum Signal {
    /// The user submitted the given content.
    Submit(String),
    /// The user asked for the screen to be cleared.
    Clear,
    /// The session was interrupted.
    Interrupted,
    /// The user closed the input.
    Eof,
}

} // verus!
