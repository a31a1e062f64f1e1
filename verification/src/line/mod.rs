//! Styled text cells, and turning a line of them into rows that fit a width.
pub mod processor;
pub mod stylizer;

use unicode_segmentation::UnicodeSegmentation;
use unicode_width::UnicodeWidthStr;
use vstd::prelude::*;
use vstd::string::StrSliceExecFns;

verus! {

/// A terminal color, as the terminal UI names them.
#[derive(Debug, Clone, Copy, PartialEq, Eq, Structural)]
pub enum Color {
    Reset,
    Black,
    Red,
    Green,
    Yellow,
    Blue,
    Magenta,
    Cyan,
    Gray,
    DarkGray,
    LightRed,
    LightGreen,
    LightYellow,
    LightBlue,
    LightMagenta,
    LightCyan,
    White,
    Rgb(u8, u8, u8),
    Indexed(u8),
}

/// How a cell is drawn: its colors, if set, and the modifiers (bold, italic, ...) it adds
/// and removes, as bit sets.
#[derive(Debug, Clone, Copy, PartialEq, Eq, Structural)]
pub struct Style {
    pub fg: Option<Color>,
    pub bg: Option<Color>,
    pub add_modifier: u16,
    pub sub_modifier: u16,
}

/// `other` laid over `base`: the colors `other` sets win, and the modifiers `other` adds or
/// removes override those of `base`.
pub open spec fn patched(base: Style, other: Style) -> Style {
    Style {
        fg: if other.fg is Some { other.fg } else { base.fg },
        bg: if other.bg is Some { other.bg } else { base.bg },
        add_modifier: (base.add_modifier & !other.sub_modifier) | other.add_modifier,
        sub_modifier: (base.sub_modifier & !other.add_modifier) | other.sub_modifier,
    }
}

impl Style {
    /// No color set and no modifier.
    pub fn new() -> (s: Style)
        ensures
            s == (Style { fg: None, bg: None, add_modifier: 0, sub_modifier: 0 }),
    {
        Style { fg: None, bg: None, add_modifier: 0, sub_modifier: 0 }
    }

    /// This style with foreground `color`.
    pub fn fg(self, color: Color) -> (s: Style)
        ensures
            s == (Style { fg: Some(color), ..self }),
    {
        Style { fg: Some(color), ..self }
    }

    /// This style with background `color`.
    pub fn bg(self, color: Color) -> (s: Style)
        ensures
            s == (Style { bg: Some(color), ..self }),
    {
        Style { bg: Some(color), ..self }
    }

    /// `other` laid over this style.
    pub fn patch(self, other: Style) -> (s: Style)
        ensures
            s == patched(self, other),
    {
        Style {
            fg: if other.fg.is_some() { other.fg } else { self.fg },
            bg: if other.bg.is_some() { other.bg } else { self.bg },
            add_modifier: (self.add_modifier & !other.sub_modifier) | other.add_modifier,
            sub_modifier: (self.sub_modifier & !other.add_modifier) | other.sub_modifier,
        }
    }
}

impl Default for Style {
    fn default() -> (s: Style)
        ensures
            s == (Style { fg: None, bg: None, add_modifier: 0, sub_modifier: 0 }),
    {
        Style::new()
    }
}

/// `s` drawn in yellow: what the line processors give tabs and line feeds.
pub open spec fn yellowed(s: Style) -> Style {
    patched(s, Style { fg: Some(Color::Yellow), bg: None, add_modifier: 0, sub_modifier: 0 })
}

/// A cell of text: a grapheme cluster (or a symbol standing for one) and its style.
#[derive(Debug, Clone)]
pub struct StyledGrapheme {
    pub symbol: String,
    pub style: Style,
}

/// A cell as plain values.
pub open spec fn cell_view(g: StyledGrapheme) -> (Seq<char>, Style) {
    (g.symbol@, g.style)
}

/// Cells as plain values.
pub open spec fn cells_view(v: Seq<StyledGrapheme>) -> Seq<(Seq<char>, Style)> {
    v.map_values(|g: StyledGrapheme| cell_view(g))
}

/// The number of terminal columns `s` takes, as `UnicodeWidthStr::width` counts them.
pub uninterp spec fn str_width(s: Seq<char>) -> nat;

/// The pieces of `s` between word boundaries, as `UnicodeSegmentation::split_word_bounds`
/// yields them.
pub uninterp spec fn word_bounds(s: Seq<char>) -> Seq<Seq<char>>;

/// Calls `UnicodeWidthStr::width`: the number of columns `s` takes.
#[verifier::external_body]
pub(crate) fn display_width(s: &str) -> (n: usize)
    ensures
        n == str_width(s@),
{
    s.width()
}

/// Calls `UnicodeSegmentation::split_word_bounds` and collects the pieces, which is what
/// `word_bounds` stands for. Its source hands out consecutive non-empty slices of `s`, from
/// its start to its end, so the pieces are non-empty and, put back together, give `s`.
#[verifier::external_body]
pub(crate) fn split_word_bounds(s: &str) -> (words: Vec<String>)
    ensures
        words@.map_values(|w: String| w@) == word_bounds(s@),
        words@.map_values(|w: String| w@).flatten() == s@,
        forall|i: int| 0 <= i < words@.len() ==> #[trigger] words@[i]@.len() > 0,
{
    s.split_word_bounds().map(String::from).collect()
}

/// Whether `s` is the single char `c`.
pub fn is_single(s: &str, c: char) -> (b: bool)
    ensures
        b == (s@ == seq![c]),
{
    if s.unicode_len() == 1 {
        let first = s.get_char(0);
        if first == c {
            assert(s@ =~= seq![c]);
        }
        first == c
    } else {
        false
    }
}

/// A copy of a cell.
pub fn copy_cell(g: &StyledGrapheme) -> (c: StyledGrapheme)
    ensures
        cell_view(c) == cell_view(*g),
{
    StyledGrapheme { symbol: g.symbol.clone(), style: g.style }
}

} // verus!
