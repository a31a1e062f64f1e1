//! Styling the text before it is shown.
pub mod highlighter;
pub mod noop;
pub mod syntax;
