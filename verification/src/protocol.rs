//! What the players of an online game send each other.
use vstd::prelude::*;

verus! {

/// A move of a player, sent to the others.
#[derive(Debug, Clone, Copy, PartialEq, Eq, Structural)]
pub enum DacttyloCommand {
    /// The player typed this char.
    Input(char),
    /// The player gave up.
    Forfeit,
}

/// What the host publishes about the game: the syntax to highlight the text with, and the
/// text itself.
#[derive(Debug, Clone)]
pub struct DacttyloMetadata {
    pub syntax_name: String,
    pub text: String,
}

} // verus!
