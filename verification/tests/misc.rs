use dacttylo::highlighting::syntax::{HighlightError, SyntectHighlighterBuilder};
use dacttylo::cli::base_opts::BaseOpts;
use dacttylo::cli::{is_valid_file, HostOptions, JoinOptions, PracticeOptions};
use dacttylo::editor_view::{Anchor, EditorRenderer, EditorViewState, RenderMetadata};
use dacttylo::graphemes::{count_graphemes, grapheme_offset, graphemes};
use dacttylo::highlight::{token_colors, Highlighter as LineHighlighter, NoHighlight, SyntectHighlight};
use dacttylo::highlighting::syntax::{DefaultSyntaxes, DefaultThemes};
use dacttylo::highlighting::highlighter::Highlighter;
use dacttylo::highlighting::noop::NoOpHighlighter;
use dacttylo::line::{Color, Style};
use dacttylo::network::errors::NetMessageError;
use dacttylo::network::message::{accepts, Identifier, Message};
use dacttylo::text_coord::{index_to_coord, text_to_line_index, TextCoord};

fn meta(start: usize, end: usize, anchor: Anchor) -> RenderMetadata {
    RenderMetadata { lines_start: start, lines_end: end, anchor, cursor: None }
}

#[test]
fn anchor_starts_at_top() {
    let mut s = EditorViewState::new();
    assert_eq!(EditorRenderer::compute_anchor(&mut s), Anchor::Start(0));
}

#[test]
fn anchor_follows_focus_out_of_view() {
    let mut s = EditorViewState::new();
    s.focus(TextCoord::new(12, 0));
    s.last_render = Some(meta(0, 10, Anchor::Start(0)));
    assert_eq!(EditorRenderer::compute_anchor(&mut s), Anchor::End(13));
    assert!(s.last_render.is_none());
    s.focus(TextCoord::new(2, 0));
    s.last_render = Some(meta(5, 10, Anchor::End(10)));
    assert_eq!(EditorRenderer::compute_anchor(&mut s), Anchor::Start(2));
    s.focus(TextCoord::new(6, 0));
    s.last_render = Some(meta(5, 10, Anchor::End(10)));
    assert_eq!(EditorRenderer::compute_anchor(&mut s), Anchor::End(10));
    s.last_render = Some(meta(3, 3, Anchor::Start(3)));
    assert_eq!(EditorRenderer::compute_anchor(&mut s), Anchor::Start(3));
}

#[test]
fn renderer_holds_lines() {
    let lines = vec!["a\n", "b"];
    let r = EditorRenderer::content(&lines);
    assert_eq!(r.lines(), &vec!["a\n".to_string(), "b".to_string()]);
}

#[test]
fn usernames_of_options() {
    let h = HostOptions { user: "h".to_string(), file: "f".to_string() };
    assert_eq!(h.get_username(), Some("h"));
    let j = JoinOptions { host: "x".to_string(), user: "j".to_string() };
    assert_eq!(j.get_username(), Some("j"));
    let p = PracticeOptions { file: "f".to_string(), ghost_race: false, save: None, username: None };
    assert_eq!(p.get_username(), None);
    let p = PracticeOptions { username: Some("p".to_string()), ..p };
    assert_eq!(p.get_username(), Some("p"));
}

#[test]
fn grapheme_helpers() {
    assert_eq!(count_graphemes("a\r\nb"), 3);
    assert_eq!(count_graphemes(""), 0);
    assert_eq!(graphemes("e\u{301}x"), vec!["e\u{301}".to_string(), "x".to_string()]);
    assert_eq!(grapheme_offset("e\u{301}x", 1), 2);
    assert_eq!(grapheme_offset("e\u{301}x", 5), 3);
}

#[test]
fn coords_of_indexes() {
    let t: Vec<char> = "ab\ncd".chars().collect();
    assert_eq!(index_to_coord(&t, 4), Some(TextCoord::new(1, 1)));
    assert_eq!(index_to_coord(&t, 2), Some(TextCoord::new(0, 2)));
    assert_eq!(index_to_coord(&vec![], 0), None);
    assert_eq!(text_to_line_index(&vec![0, 3], &t), Some(vec![TextCoord::new(0, 0), TextCoord::new(1, 0)]));
}

#[test]
fn noop_highlighters() {
    let mut h = NoOpHighlighter;
    let cells = h.highlight_line("ab");
    assert_eq!(cells.len(), 2);
    assert_eq!(cells[1].symbol, "b");
    assert_eq!(cells[1].style, Style::new());
    let mut n = NoHighlight;
    assert_eq!(n.highlight(&vec!["x", "y"]), vec![vec![("x".to_string(), Color::White)], vec![("y".to_string(), Color::White)]]);
}

#[test]
fn network_messages() {
    assert_eq!(NetMessageError::ConnectionTimeout.message(), "remote endpoint connection timeout");
    assert_eq!(NetMessageError::UnexpectedEvent.message(), "unexpected");
    let me = Identifier { name: "me".to_string(), id: 1 };
    let subs = vec!["bob".to_string()];
    let from_bob = Message { from: Identifier { name: "bob".to_string(), id: 2 }, buffer: vec![] };
    let from_eve = Message { from: Identifier { name: "eve".to_string(), id: 3 }, buffer: vec![] };
    let from_me = Message { from: Identifier { name: "me".to_string(), id: 1 }, buffer: vec![] };
    assert!(accepts(&me, &subs, &from_bob));
    assert!(!accepts(&me, &subs, &from_eve));
    assert!(!accepts(&me, &vec!["me".to_string()], &from_me));
}

#[test]
fn existing_file_is_valid() {
    assert_eq!(is_valid_file("notes.txt", true), Ok(()));
}

#[test]
fn missing_file_is_refused_by_name() {
    assert_eq!(
        is_valid_file("notes.txt", false),
        Err("file `notes.txt` does not exist.".to_string())
    );
}

#[test]
fn podium_marks_first_three_places() {
    let r = dacttylo::report::Ranking {
        spot: 1,
        names: vec!["ann".to_string(), "bob".to_string(), "cid".to_string(), "dee".to_string()],
    };
    assert_eq!(
        r.podium_lines(),
        vec!["🥇 ann".to_string(), "🥈 bob".to_string(), "🥉 cid".to_string(), "💩 dee".to_string()]
    );
}

#[test]
fn default_highlighter_settings() {
    let b = SyntectHighlighterBuilder::default();
    assert_eq!(b.syntax, "Plain Text");
    assert_eq!(b.theme, "Solarized (dark)");
}

#[test]
fn syntax_found_by_name_keeps_theme() {
    let b = SyntectHighlighterBuilder::default().theme("InspiredGitHub".to_string());
    let r = b.from_syntax("Rust").unwrap();
    assert_eq!(r.syntax, "Rust");
    assert_eq!(r.theme, "InspiredGitHub");
}

#[test]
fn unknown_syntax_name_is_refused() {
    let r = SyntectHighlighterBuilder::default().from_syntax("No Such Syntax");
    assert_eq!(r.unwrap_err(), HighlightError::NoSyntax);
}

#[test]
fn syntax_found_by_shebang() {
    let r = SyntectHighlighterBuilder::default().from_text("#!/bin/bash\necho hi\n").unwrap();
    assert_eq!(r.syntax, "Bourne Again Shell (bash)");
    assert_eq!(r.theme, "Solarized (dark)");
}

#[test]
fn plain_first_line_finds_no_syntax() {
    let r = SyntectHighlighterBuilder::default().from_text("hello there\n");
    assert_eq!(r.unwrap_err(), HighlightError::NoSyntax);
}

#[test]
fn plain_ascii_has_one_cluster_per_char() {
    let s = "a\tb \n~!";
    let gs = graphemes(s);
    let chars: Vec<String> = s.chars().map(|c| c.to_string()).collect();
    assert_eq!(gs, chars);
}

#[test]
fn engine_tokens_take_their_foreground_color() {
    let tokens = vec![("let".to_string(), (10, 20, 30), (1, 1, 1), 1), (" y".to_string(), (40, 50, 60), (2, 2, 2), 0)];
    let pieces = token_colors(&tokens);
    assert_eq!(pieces, vec![("let".to_string(), Color::Rgb(10, 20, 30)), (" y".to_string(), Color::Rgb(40, 50, 60))]);
}

#[test]
fn rust_highlighter_colors_whole_lines() {
    let syntaxes = DefaultSyntaxes::load();
    let themes = DefaultThemes::load();
    let mut h = SyntectHighlight::new(&syntaxes, &themes).unwrap();
    let rows = h.highlight(&vec!["fn main() {", "    let s = \"a\";", "}"]);
    assert_eq!(rows.len(), 3);
    let joined: Vec<String> = rows.iter().map(|r| r.iter().map(|p| p.0.as_str()).collect()).collect();
    assert_eq!(joined, vec!["fn main() {", "    let s = \"a\";", "}"]);
    assert!(rows.iter().flatten().all(|p| matches!(p.1, Color::Rgb(..))));
    assert!(rows[0].len() > 1);
}
