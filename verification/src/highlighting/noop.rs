//! A highlighter that leaves the text unstyled.
use super::highlighter::Highlighter;
use crate::graphemes::{grapheme_clusters, graphemes, views};
use crate::line::{cells_view, Style, StyledGrapheme};
use vstd::prelude::*;

verus! {

/// The clusters of `line`, each with no style.
pub open spec fn plain_cells(line: Seq<char>) -> Seq<(Seq<char>, Style)> {
    grapheme_clusters(line).map_values(
        |g: Seq<char>| (g, Style { fg: None, bg: None, add_modifier: 0, sub_modifier: 0 }),
    )
}

/// A highlighter that gives every cluster the default style.
pub struct NoOpHighlighter;

impl Highlighter for NoOpHighlighter {
    fn highlight(&mut self, lines: &Vec<&str>) -> (out: Vec<Vec<StyledGrapheme>>)
        ensures
            out@.len() == lines@.len(),
            forall|i: int| 0 <= i < lines@.len() ==> #[trigger] cells_view(out@[i]@) == plain_cells(lines@[i]@),
    {
        let mut out: Vec<Vec<StyledGrapheme>> = Vec::new();
        let mut i: usize = 0;
        while i < lines.len()
            invariant
                i <= lines@.len(),
                out@.len() == i,
                forall|k: int| 0 <= k < i ==> #[trigger] cells_view(out@[k]@) == plain_cells(lines@[k]@),
            decreases lines@.len() - i,
        {
            let row = self.highlight_line(lines[i]);
            out.push(row);
            i = i + 1;
        }
        out
    }

    fn highlight_line(&mut self, line: &str) -> (cells: Vec<StyledGrapheme>)
        ensures
            cells_view(cells@) == plain_cells(line@),
    {
        let gs = graphemes(line);
        let ghost want = plain_cells(line@);
        let mut cells: Vec<StyledGrapheme> = Vec::new();
        let mut j: usize = 0;
        while j < gs.len()
            invariant
                j <= gs@.len(),
                views(gs@) == grapheme_clusters(line@),
                want == plain_cells(line@),
                cells_view(cells@) == want.take(j as int),
            decreases gs@.len() - j,
        {
            let c = StyledGrapheme { symbol: gs[j].clone(), style: Style::new() };
            let ghost prev = cells_view(cells@);
            cells.push(c);
            proof {
                assert(cells_view(cells@) =~= prev.push((gs@[j as int]@, c.style)));
                assert(want.take(j + 1) =~= want.take(j as int).push(want[j as int]));
            }
            j = j + 1;
        }
        assert(want.take(gs@.len() as int) =~= want);
        cells
    }
}

} // verus!
