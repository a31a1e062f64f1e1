//! What a highlighter does.
use crate::line::StyledGrapheme;
use vstd::prelude::*;

verus! {

/// Styles lines of text, cluster by cluster, before they are shown.
pub trait Highlighter {
    /// The styled clusters of each line.
    fn highlight(&mut self, lines: &Vec<&str>) -> Vec<Vec<StyledGrapheme>>;

    /// The styled clusters of `line`.
    fn highlight_line(&mut self, line: &str) -> Vec<StyledGrapheme>;
}

} // verus!
