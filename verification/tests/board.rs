use dacttylo::game_state::board::style::from_engine_style;
use dacttylo::game_state::board::{resolve_displayed_cursors, to_token_markers, Board, Cursor, TokenMarker};
use dacttylo::highlighting::highlighter::Highlighter;
use dacttylo::highlighting::syntax::{style_tokens, DefaultSyntaxes, DefaultThemes, HighlightError, SyntectHighlighterBuilder};
use dacttylo::line::{Color, Style};

fn colored(c: Color) -> Style {
    Style::new().fg(c)
}

fn cursor(index: usize, c: Color, precedence: u8) -> Cursor {
    Cursor { index, style: colored(c).bg(Color::White), precedence }
}

#[test]
fn token_markers_lie_end_to_end() {
    let line = vec![(colored(Color::Red), "fn"), (colored(Color::Blue), " é"), (colored(Color::Green), "()")];
    let markers = to_token_markers(&line);
    assert_eq!(markers.len(), 3);
    assert_eq!((markers[0].start, markers[0].end), (0, 2));
    assert_eq!((markers[1].start, markers[1].end), (2, 5));
    assert_eq!((markers[2].start, markers[2].end), (5, 7));
    assert_eq!(markers[1].style, colored(Color::Blue));
}

#[test]
fn displayed_cursors_one_per_place_by_precedence() {
    let cursors = vec![
        cursor(2, Color::Red, 0),
        cursor(1, Color::Blue, 1),
        cursor(2, Color::Yellow, 3),
        cursor(2, Color::Green, 3),
    ];
    let shown = resolve_displayed_cursors(&cursors);
    assert_eq!(shown.len(), 2);
    assert_eq!(shown[0], cursors[1]);
    assert_eq!(shown[1], cursors[2]);
}

#[test]
fn engine_style_keeps_colors_and_font_flags() {
    let s = from_engine_style((1, 2, 3), (4, 5, 6), 1 | 4);
    assert_eq!(s.fg, Some(Color::Rgb(1, 2, 3)));
    assert_eq!(s.bg, Some(Color::Rgb(4, 5, 6)));
    assert_eq!(s.add_modifier, 1 | 4);
    assert_eq!(s.sub_modifier, 0);
}

fn two_token_board() -> Board {
    let tokens = vec![
        TokenMarker { start: 0, end: 2, style: colored(Color::Magenta) },
        TokenMarker { start: 2, end: 5, style: colored(Color::Cyan) },
    ];
    Board::from_tokens("ab\ncd".to_string(), tokens)
}

#[test]
fn board_cells_take_token_and_cursor_styles() {
    let mut b = two_token_board();
    let luis = cursor(2, Color::Red, 0);
    let agathe = cursor(1, Color::Blue, 1);
    assert_eq!(b.get_cursor("luis", luis), luis);
    assert_eq!(b.get_cursor("agathe", agathe), agathe);
    let cells = b.iter();
    let expected = vec![
        ('a', colored(Color::Magenta)),
        ('b', agathe.style),
        ('\n', luis.style),
        ('c', colored(Color::Cyan)),
        ('d', colored(Color::Cyan)),
    ];
    assert_eq!(cells, expected);
}

#[test]
fn existing_cursor_is_kept_by_get_cursor() {
    let mut b = two_token_board();
    let first = cursor(3, Color::Red, 0);
    b.get_cursor("luis", first);
    assert_eq!(b.get_cursor("luis", cursor(0, Color::Blue, 9)), first);
    assert_eq!(b.cursors.len(), 1);
}

#[test]
fn removed_cursor_is_no_longer_drawn() {
    let mut b = two_token_board();
    b.get_cursor("luis", cursor(0, Color::Red, 0));
    b.remove_cursor("luis");
    b.remove_cursor("nobody");
    assert_eq!(b.cursors.len(), 0);
    assert_eq!(b.iter()[0], ('a', colored(Color::Magenta)));
}

#[test]
fn cursor_inside_a_char_holds_back_later_cursors() {
    // "é" takes two bytes: a cursor at byte 1 stands inside it and is never drawn, and the
    // cursor after it is not drawn either.
    let tokens = vec![
        TokenMarker { start: 0, end: 2, style: colored(Color::Magenta) },
        TokenMarker { start: 2, end: 3, style: colored(Color::Cyan) },
    ];
    let mut b = Board::from_tokens("é!".to_string(), tokens);
    b.get_cursor("inside", cursor(1, Color::Red, 0));
    b.get_cursor("after", cursor(2, Color::Blue, 0));
    assert_eq!(b.iter(), vec![('é', colored(Color::Magenta)), ('!', colored(Color::Cyan))]);
}

#[test]
fn board_from_str_tokens_run_end_to_end() {
    let text = "fn main() {\n    let é = 1;\n}\n";
    let b = Board::from_str(text, "rs").unwrap();
    assert_eq!(b.text, text);
    assert!(!b.tokens.is_empty());
    assert_eq!(b.tokens[0].start, 0);
    assert_eq!(b.tokens[b.tokens.len() - 1].end, text.len());
    for w in b.tokens.windows(2) {
        assert_eq!(w[0].end, w[1].start);
    }
    assert_eq!(b.cursors.len(), 0);
}

#[test]
fn board_from_str_unknown_extension_is_refused() {
    assert_eq!(Board::from_str("x", "no-such-ext").err(), Some(HighlightError::NoSyntax));
}

#[test]
fn syntect_cells_put_together_give_the_line() {
    let syntaxes = DefaultSyntaxes::load();
    let themes = DefaultThemes::load();
    let settings = SyntectHighlighterBuilder::default().from_syntax("Rust").unwrap();
    let mut hl = settings.build(&syntaxes, &themes).unwrap();
    let line = "fn main() { let s = \"é\"; }\n";
    let cells = hl.highlight_line(line);
    let joined: String = cells.iter().map(|c| c.symbol.as_str()).collect();
    assert_eq!(joined, line);
}

#[test]
fn building_with_an_unknown_theme_is_refused() {
    let syntaxes = DefaultSyntaxes::load();
    let themes = DefaultThemes::load();
    let settings = SyntectHighlighterBuilder::default().theme("No Such Theme".to_string());
    let err = settings.build(&syntaxes, &themes).err().unwrap();
    assert_eq!(err, HighlightError::NoTheme);
    assert_eq!(err.message(), "failed to find theme");
    assert_eq!(HighlightError::NoSyntax.message(), "failed to find syntax");
}

#[test]
fn engine_tokens_take_their_colors_and_flags() {
    let tokens = vec![("fn".to_string(), (1, 2, 3), (4, 5, 6), 2), (" x".to_string(), (7, 8, 9), (0, 0, 0), 0)];
    let styled = style_tokens(&tokens);
    assert_eq!(styled.len(), 2);
    assert_eq!(styled[0].0, "fn");
    assert_eq!(styled[0].1.fg, Some(Color::Rgb(1, 2, 3)));
    assert_eq!(styled[0].1.bg, Some(Color::Rgb(4, 5, 6)));
    assert_eq!(styled[0].1.add_modifier, 8);
    assert_eq!(styled[1].1, from_engine_style((7, 8, 9), (0, 0, 0), 0));
}

#[test]
fn highlighted_rust_cells_carry_engine_colors() {
    let syntaxes = DefaultSyntaxes::load();
    let themes = DefaultThemes::load();
    let settings = SyntectHighlighterBuilder::default().from_syntax("Rust").unwrap();
    let mut hl = settings.build(&syntaxes, &themes).unwrap();
    let cells = hl.highlight_line("fn main() {}\n");
    assert!(cells.iter().all(|c| matches!(c.style.fg, Some(Color::Rgb(..))) && matches!(c.style.bg, Some(Color::Rgb(..)))));
    let b = Board::from_str("fn main() {}\n", "rs").unwrap();
    assert!(b.tokens.iter().all(|t| matches!(t.style.fg, Some(Color::Rgb(..)))));
}
