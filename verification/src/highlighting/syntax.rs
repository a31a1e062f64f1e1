//! Choosing the syntax and the theme a text is highlighted with, among those the
//! highlighting engine ships with.
use super::highlighter::Highlighter;
use crate::game_state::board::style::{engine_style, from_engine_style};
use crate::line::processor::symbols_text;
use crate::line::{cells_view, Style, StyledGrapheme};
use crate::line_stylizer::{tokens_cells, tokens_text, tokens_view, LineStylizer};
use syntect::easy::HighlightLines;
use syntect::highlighting::{Theme, ThemeSet};
use syntect::parsing::{SyntaxReference, SyntaxSet};
use vstd::prelude::*;
use vstd::string::StringExecFns;

verus! {

/// The name of the built-in syntax whose first-line pattern (a shebang, a mode line)
/// matches `text`, if one does.
pub uninterp spec fn first_line_syntax(text: Seq<char>) -> Option<Seq<char>>;

/// Some built-in syntax is named `name`.
pub uninterp spec fn has_default_syntax(name: Seq<char>) -> bool;

/// Calls `SyntaxSet::find_syntax_by_first_line` on the built-in syntaxes and hands back
/// the name of the syntax found. Which syntax that is, is named `first_line_syntax`.
#[verifier::external_body]
fn syntax_by_first_line(text: &str) -> (r: Option<String>)
    ensures
        r matches Some(n) ==> first_line_syntax(text@) == Some(n@),
        r is None ==> first_line_syntax(text@) is None,
{
    SyntaxSet::load_defaults_newlines().find_syntax_by_first_line(text).map(|s| s.name.clone())
}

/// Calls `SyntaxSet::find_syntax_by_name` on the built-in syntaxes, which finds a syntax
/// whose name equals `name`, and hands back that name.
#[verifier::external_body]
fn syntax_by_name(name: &str) -> (r: Option<String>)
    ensures
        r is Some <==> has_default_syntax(name@),
        r matches Some(n) ==> n@ == name@,
{
    SyntaxSet::load_defaults_newlines().find_syntax_by_name(name).map(|s| s.name.clone())
}

/// Why no highlighter setting could be made.
#[derive(Debug, Clone, Copy, PartialEq, Eq, Structural)]
pub enum HighlightError {
    /// No built-in syntax fits.
    NoSyntax,
    /// No built-in theme has the name asked for.
    NoTheme,
}

impl HighlightError {
    /// The message that reports the error.
    pub fn message(&self) -> (m: String)
        ensures
            *self == HighlightError::NoSyntax ==> m@ == "failed to find syntax"@,
            *self == HighlightError::NoTheme ==> m@ == "failed to find theme"@,
    {
        match self {
            HighlightError::NoSyntax => String::from_str("failed to find syntax"),
            HighlightError::NoTheme => String::from_str("failed to find theme"),
        }
    }
}

/// The syntax and the theme, by name, that a highlighter is to be built with.
#[derive(Debug, Clone)]
pub struct SyntectHighlighterBuilder {
    pub syntax: String,
    pub theme: String,
}

impl Default for SyntectHighlighterBuilder {
    /// Plain text, in the first of the default themes.
    fn default() -> (b: Self)
        ensures
            b.syntax@ == "Plain Text"@,
            b.theme@ == "Solarized (dark)"@,
    {
        SyntectHighlighterBuilder { syntax: String::from_str("Plain Text"), theme: String::from_str("Solarized (dark)") }
    }
}

impl SyntectHighlighterBuilder {
    /// The syntax picked by the first line of `text`; the theme is kept. Fails when no
    /// syntax's first-line pattern matches.
    pub fn from_text(self, text: &str) -> (r: Result<Self, HighlightError>)
        ensures
            match r {
                Ok(b) => first_line_syntax(text@) == Some(b.syntax@) && b.theme@ == self.theme@,
                Err(e) => e == HighlightError::NoSyntax && first_line_syntax(text@) is None,
            },
    {
        match syntax_by_first_line(text) {
            Some(name) => Ok(SyntectHighlighterBuilder { syntax: name, theme: self.theme }),
            None => Err(HighlightError::NoSyntax),
        }
    }

    /// The syntax named `name`; the theme is kept. Fails when no syntax has that name.
    pub fn from_syntax(self, name: &str) -> (r: Result<Self, HighlightError>)
        ensures
            r is Ok <==> has_default_syntax(name@),
            match r {
                Ok(b) => b.syntax@ == name@ && b.theme@ == self.theme@,
                Err(e) => e == HighlightError::NoSyntax,
            },
    {
        match syntax_by_name(name) {
            Some(found) => Ok(SyntectHighlighterBuilder { syntax: found, theme: self.theme }),
            None => Err(HighlightError::NoSyntax),
        }
    }

    /// The theme named `theme`; the syntax is kept.
    pub fn theme(self, theme: String) -> (b: Self)
        ensures
            b.theme@ == theme@,
            b.syntax@ == self.syntax@,
    {
        SyntectHighlighterBuilder { syntax: self.syntax, theme }
    }
}

#[verifier::external_type_specification]
#[verifier::external_body]
pub struct ExSyntaxSet(SyntaxSet);

#[verifier::external_type_specification]
#[verifier::external_body]
pub struct ExSyntaxReference(SyntaxReference);

#[verifier::external_type_specification]
#[verifier::external_body]
pub struct ExThemeSet(ThemeSet);

#[verifier::external_type_specification]
#[verifier::external_body]
pub struct ExTheme(Theme);

#[verifier::external_type_specification]
#[verifier::external_body]
pub struct ExHighlightLines<'a>(HighlightLines<'a>);

/// Some built-in syntax is for files with extension `ext`.
pub uninterp spec fn has_extension_syntax(ext: Seq<char>) -> bool;

/// Some built-in theme is named `name`: the engine ships seven, by these names.
pub open spec fn has_default_theme(name: Seq<char>) -> bool {
    ||| name == "base16-ocean.dark"@
    ||| name == "base16-eighties.dark"@
    ||| name == "base16-mocha.dark"@
    ||| name == "base16-ocean.light"@
    ||| name == "InspiredGitHub"@
    ||| name == "Solarized (dark)"@
    ||| name == "Solarized (light)"@
}

/// The syntaxes the highlighting engine ships with (and no other set).
pub struct DefaultSyntaxes {
    set: SyntaxSet,
}

/// The themes the highlighting engine ships with (and no other set).
pub struct DefaultThemes {
    set: ThemeSet,
}

/// Calls `SyntaxSet::load_defaults_newlines`: the built-in syntaxes.
#[verifier::external_body]
fn load_syntax_set() -> SyntaxSet {
    SyntaxSet::load_defaults_newlines()
}

/// Calls `ThemeSet::load_defaults`: the built-in themes.
#[verifier::external_body]
fn load_theme_set() -> ThemeSet {
    ThemeSet::load_defaults()
}

impl DefaultSyntaxes {
    /// Loads the built-in syntaxes.
    pub fn load() -> DefaultSyntaxes {
        DefaultSyntaxes { set: load_syntax_set() }
    }
}

impl DefaultThemes {
    /// Loads the built-in themes.
    pub fn load() -> DefaultThemes {
        DefaultThemes { set: load_theme_set() }
    }
}

/// Calls `SyntaxSet::find_syntax_by_extension` on the built-in syntaxes, which finds a
/// syntax listing `ext` among its file extensions, if one does.
#[verifier::external_body]
pub(crate) fn syntax_with_extension<'a>(syntaxes: &'a DefaultSyntaxes, ext: &str) -> (r: Option<&'a SyntaxReference>)
    ensures
        r is Some <==> has_extension_syntax(ext@),
{
    syntaxes.set.find_syntax_by_extension(ext)
}

/// Calls `SyntaxSet::find_syntax_by_name` on the built-in syntaxes.
#[verifier::external_body]
fn syntax_named<'a>(syntaxes: &'a DefaultSyntaxes, name: &str) -> (r: Option<&'a SyntaxReference>)
    ensures
        r is Some <==> has_default_syntax(name@),
{
    syntaxes.set.find_syntax_by_name(name)
}

/// Looks `name` up (`BTreeMap::get`) among the built-in themes, which `ThemeSet` keeps by
/// name; `ThemeSet::load_defaults` documents the seven names it holds.
#[verifier::external_body]
pub(crate) fn theme_named<'a>(themes: &'a DefaultThemes, name: &str) -> (r: Option<&'a Theme>)
    ensures
        r is Some <==> has_default_theme(name@),
{
    themes.set.themes.get(name)
}

/// Calls `HighlightLines::new`: a highlighter for `syntax` in `theme`, at the start of a
/// text.
#[verifier::external_body]
pub(crate) fn new_highlight_lines<'a>(syntax: &SyntaxReference, theme: &'a Theme) -> HighlightLines<'a> {
    HighlightLines::new(syntax, theme)
}

/// Calls `HighlightLines::highlight` on the next line of a text and hands back each token
/// with its colors (foreground, background, as red, green, blue) and font flags. Its source
/// cuts the line into consecutive slices from its start to its end, so the tokens put
/// together give the line; which tokens and styles come out depends on the lines
/// highlighted before, which the highlighter keeps, and is not stated.
#[verifier::external_body]
pub(crate) fn highlight_tokens(h: &mut HighlightLines, line: &str, syntaxes: &DefaultSyntaxes) -> (tokens: Vec<
    (String, (u8, u8, u8), (u8, u8, u8), u8),
>)
    ensures
        tokens@.map_values(|t: (String, (u8, u8, u8), (u8, u8, u8), u8)| t.0@).flatten() == line@,
{
    h.highlight(line, &syntaxes.set).into_iter().map(
        |(s, t)|
            (
                t.to_string(),
                (s.foreground.r, s.foreground.g, s.foreground.b),
                (s.background.r, s.background.g, s.background.b),
                s.font_style.bits(),
            ),
    ).collect()
}

/// A token as the engine hands it out, as plain values: its text, its colors (foreground,
/// background, as red, green, blue) and its font flags.
pub open spec fn raw_view(ts: Seq<(String, (u8, u8, u8), (u8, u8, u8), u8)>) -> Seq<(Seq<char>, (u8, u8, u8), (u8, u8, u8), u8)> {
    ts.map_values(|t: (String, (u8, u8, u8), (u8, u8, u8), u8)| (t.0@, t.1, t.2, t.3))
}

/// The text of engine tokens, one after the other.
pub open spec fn raw_text(ts: Seq<(Seq<char>, (u8, u8, u8), (u8, u8, u8), u8)>) -> Seq<char> {
    ts.map_values(|t: (Seq<char>, (u8, u8, u8), (u8, u8, u8), u8)| t.0).flatten()
}

/// Engine tokens with the style their colors and flags make.
pub open spec fn engine_tokens(ts: Seq<(Seq<char>, (u8, u8, u8), (u8, u8, u8), u8)>) -> Seq<(Seq<char>, Style)> {
    ts.map_values(|t: (Seq<char>, (u8, u8, u8), (u8, u8, u8), u8)| (t.0, engine_style(t.1, t.2, t.3)))
}

/// Styled tokens as plain values.
pub open spec fn styled_view(r: Seq<(String, Style)>) -> Seq<(Seq<char>, Style)> {
    r.map_values(|t: (String, Style)| (t.0@, t.1))
}

/// Each engine token with the style its colors and font flags make.
pub fn style_tokens(tokens: &Vec<(String, (u8, u8, u8), (u8, u8, u8), u8)>) -> (r: Vec<(String, Style)>)
    ensures
        styled_view(r@) == engine_tokens(raw_view(tokens@)),
{
    let ghost want = engine_tokens(raw_view(tokens@));
    let mut r: Vec<(String, Style)> = Vec::new();
    let mut i: usize = 0;
    while i < tokens.len()
        invariant
            i <= tokens@.len(),
            want == engine_tokens(raw_view(tokens@)),
            styled_view(r@) == want.take(i as int),
        decreases tokens@.len() - i,
    {
        let t = &tokens[i];
        let style = from_engine_style(t.1, t.2, t.3);
        let text = t.0.clone();
        let ghost before = r@;
        r.push((text, style));
        proof {
            assert(styled_view(r@) =~= styled_view(before).push((text@, style)));
            assert(want.take(i + 1) =~= want.take(i as int).push(want[i as int]));
        }
        i = i + 1;
    }
    assert(want.take(i as int) =~= want);
    r
}

/// The tokens of `line` as the engine highlights it, each with the style its colors and
/// font flags make: the engine-styled form of tokens that put together give the line.
pub(crate) fn styled_tokens(h: &mut HighlightLines, line: &str, syntaxes: &DefaultSyntaxes) -> (r: Vec<(String, Style)>)
    ensures
        exists|ts: Seq<(Seq<char>, (u8, u8, u8), (u8, u8, u8), u8)>|
            raw_text(ts) == line@ && styled_view(r@) == engine_tokens(ts),
{
    let tokens = highlight_tokens(h, line, syntaxes);
    let r = style_tokens(&tokens);
    proof {
        let ts = raw_view(tokens@);
        assert(ts.map_values(|t: (Seq<char>, (u8, u8, u8), (u8, u8, u8), u8)| t.0) =~= tokens@.map_values(
            |t: (String, (u8, u8, u8), (u8, u8, u8), u8)| t.0@,
        ));
        assert(raw_text(ts) == line@ && styled_view(r@) == engine_tokens(ts));
    }
    r
}

/// `cells` are those of a highlighted `line`: the clusters of tokens that put together give
/// the line, each cluster in the style the colors and font flags of its token make.
pub open spec fn highlighted(line: Seq<char>, cells: Seq<(Seq<char>, Style)>) -> bool {
    exists|ts: Seq<(Seq<char>, (u8, u8, u8), (u8, u8, u8), u8)>|
        raw_text(ts) == line && cells == tokens_cells(engine_tokens(ts))
}

/// A highlighter for one syntax and one theme, from the built-in ones; it keeps what the
/// lines highlighted so far leave open (a string or comment that goes on), so it is fed
/// the lines of a text in order.
pub struct SyntectHighlighter<'s> {
    syntaxes: &'s DefaultSyntaxes,
    highlighter: HighlightLines<'s>,
}

impl<'s> SyntectHighlighter<'s> {
    /// The settings to build a highlighter from: plain text, in the first default theme.
    pub fn new() -> (b: SyntectHighlighterBuilder)
        ensures
            b.syntax@ == "Plain Text"@,
            b.theme@ == "Solarized (dark)"@,
    {
        SyntectHighlighterBuilder::default()
    }
}

impl<'s> Highlighter for SyntectHighlighter<'s> {
    fn highlight(&mut self, lines: &Vec<&str>) -> (out: Vec<Vec<StyledGrapheme>>)
        ensures
            out@.len() == lines@.len(),
            forall|i: int| 0 <= i < lines@.len() ==> #[trigger] highlighted(lines@[i]@, cells_view(out@[i]@))
                && symbols_text(cells_view(out@[i]@)) == lines@[i]@,
    {
        let mut out: Vec<Vec<StyledGrapheme>> = Vec::new();
        let mut i: usize = 0;
        while i < lines.len()
            invariant
                i <= lines@.len(),
                out@.len() == i,
                forall|k: int| 0 <= k < i ==> #[trigger] highlighted(lines@[k]@, cells_view(out@[k]@))
                    && symbols_text(cells_view(out@[k]@)) == lines@[k]@,
            decreases lines@.len() - i,
        {
            let row = self.highlight_line(lines[i]);
            out.push(row);
            i = i + 1;
        }
        out
    }

    /// The clusters of `line`, each in the style of the engine token it lies in; put
    /// together, their symbols give the line.
    fn highlight_line(&mut self, line: &str) -> (cells: Vec<StyledGrapheme>)
        ensures
            highlighted(line@, cells_view(cells@)),
            symbols_text(cells_view(cells@)) == line@,
    {
        let tokens = styled_tokens(&mut self.highlighter, line, self.syntaxes);
        let ghost texts = tokens@.map_values(|t: (String, Style)| t.0@);
        let mut refs: Vec<(&str, Style)> = Vec::new();
        let mut i: usize = 0;
        while i < tokens.len()
            invariant
                i <= tokens@.len(),
                texts == tokens@.map_values(|t: (String, Style)| t.0@),
                refs@.len() == i,
                forall|k: int| 0 <= k < i ==> (#[trigger] refs@[k]).0@ == texts[k] && refs@[k].1 == tokens@[k].1,
            decreases tokens@.len() - i,
        {
            refs.push((tokens[i].0.as_str(), tokens[i].1));
            i = i + 1;
        }
        let cells = LineStylizer::tokens_to_graphemes(refs.as_slice());
        proof {
            assert(tokens_view(refs@) =~= styled_view(tokens@));
            let ts = choose|ts: Seq<(Seq<char>, (u8, u8, u8), (u8, u8, u8), u8)>|
                raw_text(ts) == line@ && styled_view(tokens@) == engine_tokens(ts);
            assert(raw_text(ts) == line@ && cells_view(cells@) == tokens_cells(engine_tokens(ts)));
            assert(engine_tokens(ts).map_values(|t: (Seq<char>, Style)| t.0) =~= ts.map_values(
                |t: (Seq<char>, (u8, u8, u8), (u8, u8, u8), u8)| t.0,
            ));
        }
        cells
    }
}

impl SyntectHighlighterBuilder {
    /// The highlighter for these settings, over the built-in syntaxes and themes given.
    /// Fails when no built-in syntax or no built-in theme has the name.
    pub fn build<'s>(self, syntaxes: &'s DefaultSyntaxes, themes: &'s DefaultThemes) -> (r: Result<
        SyntectHighlighter<'s>,
        HighlightError,
    >)
        ensures
            r is Ok <==> has_default_syntax(self.syntax@) && has_default_theme(self.theme@),
            r matches Err(e) ==> (e == HighlightError::NoSyntax <==> !has_default_syntax(self.syntax@)),
    {
        match syntax_named(syntaxes, self.syntax.as_str()) {
            None => Err(HighlightError::NoSyntax),
            Some(syntax) => match theme_named(themes, self.theme.as_str()) {
                None => Err(HighlightError::NoTheme),
                Some(theme) => Ok(SyntectHighlighter { syntaxes, highlighter: new_highlight_lines(syntax, theme) }),
            },
        }
    }
}

} // verus!
