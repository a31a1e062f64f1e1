//! What the game modes decide on each key press and message, and how a game ends.
pub mod online;
pub mod practice;

use vstd::prelude::*;

verus! {

/// How a game ended.
#[derive(Debug, Clone, Copy, PartialEq, Eq, Structural)]
pub enum SessionEnd {
    /// Every player reached the end of the text.
    Finished,
    /// The local player quit.
    Quit,
}

/// Whether a game goes on.
#[derive(Debug, Clone, Copy, PartialEq, Eq, Structural)]
pub enum SessionState {
    Ongoing,
    End(SessionEnd),
}

/// A key the local player pressed.
#[derive(Debug, Clone, Copy, PartialEq, Eq, Structural)]
pub enum KeyInput {
    Esc,
    Char(char),
    Enter,
    Tab,
    /// Any other key.
    Other,
}

/// The char a key types, if it types one: Enter types a line feed and Tab a tab.
pub open spec fn typed_char(key: KeyInput) -> Option<char> {
    match key {
        KeyInput::Char(c) => Some(c),
        KeyInput::Enter => Some('\n'),
        KeyInput::Tab => Some('\t'),
        _ => None,
    }
}

/// The char a key types, if it types one.
pub fn key_char(key: KeyInput) -> (c: Option<char>)
    ensures
        c == typed_char(key),
{
    match key {
        KeyInput::Char(c) => Some(c),
        KeyInput::Enter => Some('\n'),
        KeyInput::Tab => Some('\t'),
        _ => None,
    }
}

} // verus!
