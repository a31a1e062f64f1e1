//! Which lines of an editor buffer to show: the view keeps the line of the focused
//! coordinate on screen, moving its anchor only when that line leaves the lines shown last.
use crate::text_coord::TextCoord;
use vstd::prelude::*;

verus! {

/// Where a view is pinned: a line to show first, or a line to show last (the rendered
/// lines end just before it).
#[derive(Debug, Clone, Copy, PartialEq, Eq, Structural)]
pub enum Anchor {
    Start(usize),
    End(usize),
}

/// A cell of the screen: row, then column.
#[derive(Debug, Clone, Copy, PartialEq, Eq, Structural)]
pub struct ScreenCell {
    pub row: u16,
    pub col: u16,
}

/// What the last render showed: the lines from `start` up to `end`, pinned at `anchor`,
/// and the screen cell of the cursor if it was shown.
#[derive(Debug, Clone, Copy, PartialEq, Eq, Structural)]
pub struct RenderMetadata {
    pub lines_start: usize,
    pub lines_end: usize,
    pub anchor: Anchor,
    pub cursor: Option<ScreenCell>,
}

/// The state a view keeps between renders.
pub struct EditorViewState {
    /// What the last render showed, if there was one.
    pub last_render: Option<RenderMetadata>,
    /// The coordinate to keep on screen.
    pub focus_coord: TextCoord,
}

impl EditorViewState {
    /// A view that has not rendered yet, focused on the start of the text.
    pub fn new() -> (s: Self)
        ensures
            s.last_render is None,
            s.focus_coord == (TextCoord { ln: 0, x: 0 }),
    {
        EditorViewState { last_render: None, focus_coord: TextCoord::new(0, 0) }
    }

    /// Keeps `coord` on screen from the next render on.
    pub fn focus(&mut self, coord: TextCoord)
        ensures
            final(self).focus_coord == coord,
            final(self).last_render == old(self).last_render,
    {
        self.focus_coord = coord;
    }
}

impl Default for EditorViewState {
    fn default() -> (s: Self)
        ensures
            s.last_render is None,
            s.focus_coord == (TextCoord { ln: 0, x: 0 }),
    {
        Self::new()
    }
}

/// The anchor of the next render: the start of the text the first time; the last anchor
/// when nothing was shown or the focused line is among the lines shown; otherwise pinned
/// so that the focused line is the first shown (when it lies above) or the last shown
/// (when it lies below).
pub open spec fn next_anchor(last: Option<RenderMetadata>, focus_ln: usize) -> Anchor {
    match last {
        None => Anchor::Start(0),
        Some(m) => if m.lines_start >= m.lines_end {
            m.anchor
        } else if focus_ln >= m.lines_end {
            Anchor::End((focus_ln + 1) as usize)
        } else if focus_ln < m.lines_start {
            Anchor::Start(focus_ln)
        } else {
            m.anchor
        },
    }
}

/// The lines of an editor buffer to render.
pub struct EditorRenderer {
    lines: Vec<String>,
}

impl EditorRenderer {
    /// A renderer of `lines`.
    pub fn content(lines: &Vec<&str>) -> (r: Self)
        ensures
            r.spec_lines().len() == lines@.len(),
            forall|i: int| 0 <= i < lines@.len() ==> #[trigger] r.spec_lines()[i] == lines@[i]@,
    {
        let mut v: Vec<String> = Vec::new();
        let mut i: usize = 0;
        while i < lines.len()
            invariant
                i <= lines@.len(),
                v@.len() == i,
                forall|k: int| 0 <= k < i ==> #[trigger] v@[k]@ == lines@[k]@,
            decreases lines@.len() - i,
        {
            v.push(lines[i].to_owned());
            i = i + 1;
        }
        EditorRenderer { lines: v }
    }

    /// The lines to render.
    pub closed spec fn spec_lines(&self) -> Seq<Seq<char>> {
        self.lines@.map_values(|s: String| s@)
    }

    /// The lines to render.
    pub fn lines(&self) -> (v: &Vec<String>)
        ensures
            v@.map_values(|s: String| s@) == self.spec_lines(),
    {
        &self.lines
    }

    /// The anchor of the next render, which uses up what the last render showed.
    pub fn compute_anchor(state: &mut EditorViewState) -> (a: Anchor)
        requires
            old(state).focus_coord.ln < usize::MAX,
        ensures
            a == next_anchor(old(state).last_render, old(state).focus_coord.ln),
            final(state).last_render is None,
            final(state).focus_coord == old(state).focus_coord,
    {
        match state.last_render.take() {
            Some(meta) => {
                if meta.lines_start >= meta.lines_end {
                    meta.anchor
                } else if state.focus_coord.ln >= meta.lines_end {
                    Anchor::End(state.focus_coord.ln + 1)
                } else if state.focus_coord.ln < meta.lines_start {
                    Anchor::Start(state.focus_coord.ln)
                } else {
                    meta.anchor
                }
            },
            None => Anchor::Start(0),
        }
    }
}

} // verus!
