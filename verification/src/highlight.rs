//! Highlighters that color lines of text piece by piece: one that shows each line
//! whole, and one that colors Rust source by the highlighting engine.
use crate::highlighting::syntax::{
    has_extension_syntax, highlight_tokens, new_highlight_lines, raw_text, raw_view, syntax_with_extension,
    theme_named, DefaultSyntaxes, DefaultThemes, HighlightError,
};
use crate::line::Color;
use syntect::easy::HighlightLines;
use vstd::prelude::*;

verus! {

/// Colors lines of text, piece by piece.
pub trait Highlighter {
    /// The colored pieces of each line.
    fn highlight(&mut self, lines: &Vec<&str>) -> Vec<Vec<(String, Color)>>;

    /// The colored pieces of `line`.
    fn highlight_line(&mut self, line: &str) -> Vec<(String, Color)>;
}

/// A highlighter that shows each line whole, in white.
pub struct NoHighlight;

impl Highlighter for NoHighlight {
    fn highlight(&mut self, lines: &Vec<&str>) -> (out: Vec<Vec<(String, Color)>>)
        ensures
            out@.len() == lines@.len(),
            forall|i: int| 0 <= i < lines@.len() ==> #[trigger] out@[i]@.len() == 1 && out@[i]@[0].0@ == lines@[i]@
                && out@[i]@[0].1 == Color::White,
    {
        let mut out: Vec<Vec<(String, Color)>> = Vec::new();
        let mut i: usize = 0;
        while i < lines.len()
            invariant
                i <= lines@.len(),
                out@.len() == i,
                forall|k: int| 0 <= k < i ==> #[trigger] out@[k]@.len() == 1 && out@[k]@[0].0@ == lines@[k]@
                    && out@[k]@[0].1 == Color::White,
            decreases lines@.len() - i,
        {
            let row = self.highlight_line(lines[i]);
            out.push(row);
            i = i + 1;
        }
        out
    }

    fn highlight_line(&mut self, line: &str) -> (out: Vec<(String, Color)>)
        ensures
            out@.len() == 1,
            out@[0].0@ == line@,
            out@[0].1 == Color::White,
    {
        let mut out: Vec<(String, Color)> = Vec::new();
        out.push((line.to_owned(), Color::White));
        out
    }
}

/// Engine tokens, each with the color of its foreground.
pub open spec fn colored_tokens(ts: Seq<(Seq<char>, (u8, u8, u8), (u8, u8, u8), u8)>) -> Seq<(Seq<char>, Color)> {
    ts.map_values(|t: (Seq<char>, (u8, u8, u8), (u8, u8, u8), u8)| (t.0, Color::Rgb(t.1.0, t.1.1, t.1.2)))
}

/// Colored pieces as plain values.
pub open spec fn pieces_view(r: Seq<(String, Color)>) -> Seq<(Seq<char>, Color)> {
    r.map_values(|t: (String, Color)| (t.0@, t.1))
}

/// Each engine token with the color of its foreground (its background and font flags are
/// dropped).
pub fn token_colors(tokens: &Vec<(String, (u8, u8, u8), (u8, u8, u8), u8)>) -> (r: Vec<(String, Color)>)
    ensures
        pieces_view(r@) == colored_tokens(raw_view(tokens@)),
{
    let ghost want = colored_tokens(raw_view(tokens@));
    let mut r: Vec<(String, Color)> = Vec::new();
    let mut i: usize = 0;
    while i < tokens.len()
        invariant
            i <= tokens@.len(),
            want == colored_tokens(raw_view(tokens@)),
            pieces_view(r@) == want.take(i as int),
        decreases tokens@.len() - i,
    {
        let t = &tokens[i];
        let fg = t.1;
        let text = t.0.clone();
        let ghost before = r@;
        r.push((text, Color::Rgb(fg.0, fg.1, fg.2)));
        proof {
            assert(pieces_view(r@) =~= pieces_view(before).push((text@, Color::Rgb(fg.0, fg.1, fg.2))));
            assert(want.take(i + 1) =~= want.take(i as int).push(want[i as int]));
        }
        i = i + 1;
    }
    assert(want.take(i as int) =~= want);
    r
}

/// `pieces` are those of a highlighted `line`: tokens that put together give the line, each
/// in the color of its foreground.
pub open spec fn colored_line(line: Seq<char>, pieces: Seq<(Seq<char>, Color)>) -> bool {
    exists|ts: Seq<(Seq<char>, (u8, u8, u8), (u8, u8, u8), u8)>|
        raw_text(ts) == line && pieces == colored_tokens(ts)
}

/// A highlighter for Rust source, in the "base16-ocean.dark" theme, from the built-in
/// syntaxes and themes; it keeps what the lines so far leave open, so it is fed the lines
/// of a text in order.
pub struct SyntectHighlight<'s> {
    syntaxes: &'s DefaultSyntaxes,
    highlighter: HighlightLines<'s>,
}

impl<'s> SyntectHighlight<'s> {
    /// The highlighter for the built-in syntax of files with extension "rs", in the
    /// "base16-ocean.dark" theme. Fails exactly when no built-in syntax has that extension.
    pub fn new(syntaxes: &'s DefaultSyntaxes, themes: &'s DefaultThemes) -> (r: Result<SyntectHighlight<'s>, HighlightError>)
        ensures
            r is Ok <==> has_extension_syntax("rs"@),
            r matches Err(e) ==> e == HighlightError::NoSyntax,
    {
        let syntax = match syntax_with_extension(syntaxes, "rs") {
            Some(s) => s,
            None => return Err(HighlightError::NoSyntax),
        };
        let theme = match theme_named(themes, "base16-ocean.dark") {
            Some(t) => t,
            None => return Err(HighlightError::NoTheme),
        };
        Ok(SyntectHighlight { syntaxes, highlighter: new_highlight_lines(syntax, theme) })
    }
}

impl<'s> Highlighter for SyntectHighlight<'s> {
    fn highlight(&mut self, lines: &Vec<&str>) -> (out: Vec<Vec<(String, Color)>>)
        ensures
            out@.len() == lines@.len(),
            forall|i: int| 0 <= i < lines@.len() ==> #[trigger] colored_line(lines@[i]@, pieces_view(out@[i]@)),
    {
        let mut out: Vec<Vec<(String, Color)>> = Vec::new();
        let mut i: usize = 0;
        while i < lines.len()
            invariant
                i <= lines@.len(),
                out@.len() == i,
                forall|k: int| 0 <= k < i ==> #[trigger] colored_line(lines@[k]@, pieces_view(out@[k]@)),
            decreases lines@.len() - i,
        {
            let row = self.highlight_line(lines[i]);
            out.push(row);
            i = i + 1;
        }
        out
    }

    /// The tokens of `line` as the engine highlights it, each in the color of its
    /// foreground; put together, they give the line.
    fn highlight_line(&mut self, line: &str) -> (out: Vec<(String, Color)>)
        ensures
            colored_line(line@, pieces_view(out@)),
    {
        let tokens = highlight_tokens(&mut self.highlighter, line, self.syntaxes);
        let out = token_colors(&tokens);
        proof {
            let ts = raw_view(tokens@);
            assert(ts.map_values(|t: (Seq<char>, (u8, u8, u8), (u8, u8, u8), u8)| t.0) =~= tokens@.map_values(
                |t: (String, (u8, u8, u8), (u8, u8, u8), u8)| t.0@,
            ));
            assert(raw_text(ts) == line@ && pieces_view(out@) == colored_tokens(ts));
        }
        out
    }
}

} // verus!
