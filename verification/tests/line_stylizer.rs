use dacttylo::line::processor::BaseLineProcessor;
use dacttylo::line::{Color, Style, StyledGrapheme};
use dacttylo::line_stylizer::LineStylizer;
use std::collections::HashMap;

fn cell(s: &str) -> StyledGrapheme {
    StyledGrapheme { symbol: s.to_string(), style: Style::new() }
}

fn symbols(rows: &Vec<Vec<StyledGrapheme>>) -> Vec<Vec<String>> {
    rows.iter().map(|r| r.iter().map(|c| c.symbol.clone()).collect()).collect()
}

#[test]
fn wrapping() {
    let cells = vec![cell("a"), cell("b"), cell("c"), cell("\u{200b}"), cell("d"), cell("e")];
    let rows = LineStylizer::wrap_line(cells, 2);
    assert_eq!(symbols(&rows), vec![vec!["a", "b"], vec!["c", "d"], vec!["e"]]);
}

#[test]
fn wrapping_wide_cells() {
    let cells = vec![cell("a"), cell("혓"), cell("b")];
    let rows = LineStylizer::wrap_line(cells, 3);
    assert_eq!(symbols(&rows), vec![vec!["a", "혓"], vec!["b"]]);
}

#[test]
fn wrapping_cell_wider_than_row_gets_own_row() {
    let cells = vec![cell("혓"), cell("a")];
    let rows = LineStylizer::wrap_line(cells, 1);
    assert_eq!(symbols(&rows), vec![vec![], vec!["혓"], vec!["a"]]);
}

#[test]
fn wrapping_empty_line() {
    let rows = LineStylizer::wrap_line(vec![], 4);
    assert!(rows.is_empty());
}

#[test]
fn stylizer_remaps_tab_and_newline() {
    let plain = Style::new();
    let tokens: Vec<(&str, Style)> = vec![("a\tb\n", plain)];
    let sparse: HashMap<usize, Style> = HashMap::new();
    let rows = LineStylizer.process_line(&tokens, &sparse, 80);
    assert_eq!(symbols(&rows), vec![vec!["a", "\u{21e5}", " ", " ", "b", "\u{23ce}"]]);
    let yellow = Style::new().fg(Color::Yellow);
    assert_eq!(rows[0][1].style, yellow);
    assert_eq!(rows[0][2].style, yellow);
    assert_eq!(rows[0][5].style, yellow);
    assert_eq!(rows[0][0].style, plain);
}

#[test]
fn stylizer_tab_at_column_four_is_full_width() {
    let tokens: Vec<(&str, Style)> = vec![("abcd\t", Style::new())];
    let rows = LineStylizer.process_line(&tokens, &HashMap::new(), 80);
    assert_eq!(symbols(&rows), vec![vec!["a", "b", "c", "d", "\u{21e5}", " ", " ", " "]]);
}

#[test]
fn stylizer_applies_sparse_styling() {
    let red = Style::new().fg(Color::Red);
    let mut sparse: HashMap<usize, Style> = HashMap::new();
    sparse.insert(1, red);
    let tokens: Vec<(&str, Style)> = vec![("x", Style::new()), ("\ty", Style::new())];
    let rows = LineStylizer.process_line(&tokens, &sparse, 80);
    assert_eq!(symbols(&rows), vec![vec!["x", "\u{21e5}", " ", " ", "y"]]);
    assert_eq!(rows[0][1].style, red);
    assert_eq!(rows[0][2].style, Style::new().fg(Color::Yellow));
}

#[test]
fn base_processor_wraps_between_words() {
    let cells: Vec<StyledGrapheme> = "hello world".chars().map(|c| cell(&c.to_string())).collect();
    let rows = BaseLineProcessor::wrap_line(cells, 5);
    let joined: Vec<String> = symbols(&rows).iter().map(|r| r.concat()).collect();
    assert_eq!(joined, vec!["hello", " ", "world"]);
}

#[test]
fn base_processor_keeps_words_on_one_row_when_they_fit() {
    let cells: Vec<StyledGrapheme> = "ab cd".chars().map(|c| cell(&c.to_string())).collect();
    let rows = BaseLineProcessor::wrap_line(cells, 10);
    let joined: Vec<String> = symbols(&rows).iter().map(|r| r.concat()).collect();
    assert_eq!(joined, vec!["ab cd"]);
}

#[test]
fn base_processor_default_symbols_are_blank() {
    let p = BaseLineProcessor::default();
    let line = vec![cell("a"), cell("\t"), cell("\n")];
    let out = p.transform_line(line, Color::Reset);
    let syms: Vec<String> = out.iter().map(|c| c.symbol.clone()).collect();
    assert_eq!(syms, vec!["a", " ", " ", " ", " "]);
}

#[test]
fn style_patch_overrides_set_colors() {
    let base = Style { fg: Some(Color::Red), bg: Some(Color::Blue), add_modifier: 0b0101, sub_modifier: 0b0010 };
    let over = Style { fg: Some(Color::Green), bg: None, add_modifier: 0b0010, sub_modifier: 0b0001 };
    let p = base.patch(over);
    assert_eq!(p.fg, Some(Color::Green));
    assert_eq!(p.bg, Some(Color::Blue));
    assert_eq!(p.add_modifier, 0b0110);
    assert_eq!(p.sub_modifier, 0b0001);
}

#[test]
fn base_processor_rows_put_together_are_the_cells() {
    let cells: Vec<StyledGrapheme> = "let x = 10; // ok".chars().map(|c| cell(&c.to_string())).collect();
    let rows = BaseLineProcessor::wrap_line(cells.clone(), 4);
    let flat: Vec<(String, Style)> = rows.into_iter().flatten().map(|c| (c.symbol, c.style)).collect();
    let expected: Vec<(String, Style)> = cells.into_iter().map(|c| (c.symbol, c.style)).collect();
    assert_eq!(flat, expected);
}

#[test]
fn base_processor_zero_width_word_keeps_only_a_prefix() {
    // The zero-width space is a word of no width: it takes no cell, so the next word takes
    // the cell after `a`, and the last cell is left over.
    let cells = vec![cell("a"), cell("\u{200b}"), cell("b")];
    let rows = BaseLineProcessor::wrap_line(cells, 4);
    let flat: Vec<String> = rows.into_iter().flatten().map(|c| c.symbol).collect();
    assert_eq!(flat, vec!["a".to_string(), "\u{200b}".to_string()]);
}

#[test]
fn base_processor_fills_each_row_before_starting_the_next() {
    let cells: Vec<StyledGrapheme> = "aa bb cc".chars().map(|c| cell(&c.to_string())).collect();
    let rows = BaseLineProcessor::wrap_line(cells, 5);
    let joined: Vec<String> = symbols(&rows).iter().map(|r| r.concat()).collect();
    assert_eq!(joined, vec!["aa bb", " cc"]);
}
