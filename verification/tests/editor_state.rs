use dacttylo::editor_state::{Cursor, EditorKey, EditorState};
use dacttylo::text_coord::TextCoord;

fn lines(e: &EditorState) -> Vec<String> {
    e.get_lines().iter().map(|s| s.to_string()).collect()
}

#[test]
fn content_splits_after_line_feeds() {
    let e = EditorState::new().content("ab\ncd\n\nef");
    assert_eq!(lines(&e), vec!["ab\n", "cd\n", "\n", "ef"]);
    let e = EditorState::new().content("");
    assert_eq!(lines(&e), vec![""]);
    let e = EditorState::new().content("x\n");
    assert_eq!(lines(&e), vec!["x\n"]);
}

#[test]
fn move_cursor_clamps_to_line_length() {
    let mut e = EditorState::new().content("abcd\nx\nabc");
    e.move_cursor(Cursor::Right);
    e.move_cursor(Cursor::Right);
    e.move_cursor(Cursor::Right);
    assert_eq!(e.get_cursor(), TextCoord::new(0, 3));
    e.move_cursor(Cursor::Down);
    assert_eq!(e.get_cursor(), TextCoord::new(1, 1));
    e.move_cursor(Cursor::Down);
    assert_eq!(e.get_cursor(), TextCoord::new(2, 1));
    e.move_cursor(Cursor::Down);
    assert_eq!(e.get_cursor(), TextCoord::new(2, 1));
    e.move_cursor(Cursor::Up);
    e.move_cursor(Cursor::Up);
    e.move_cursor(Cursor::Up);
    assert_eq!(e.get_cursor(), TextCoord::new(0, 1));
    e.move_cursor(Cursor::Left);
    e.move_cursor(Cursor::Left);
    assert_eq!(e.get_cursor(), TextCoord::new(0, 0));
}

#[test]
fn right_stops_before_line_feed() {
    let mut e = EditorState::new().content("ab\ncd");
    for _ in 0..5 {
        e.move_cursor(Cursor::Right);
    }
    assert_eq!(e.get_cursor(), TextCoord::new(0, 2));
}

#[test]
fn offset_moves_across_lines() {
    let mut e = EditorState::new().content("ab\ncd");
    assert_eq!(e.offset(2), Some(TextCoord::new(0, 2)));
    assert_eq!(e.offset(1), Some(TextCoord::new(1, 0)));
    assert_eq!(e.offset(2), Some(TextCoord::new(1, 2)));
    assert_eq!(e.offset(1), None);
    assert_eq!(e.get_cursor(), TextCoord::new(1, 2));
    assert_eq!(e.offset(-3), Some(TextCoord::new(0, 2)));
    assert_eq!(e.offset(-2), Some(TextCoord::new(0, 0)));
    assert_eq!(e.offset(-1), None);
}

#[test]
fn typing_and_backspace() {
    let mut e = EditorState::new();
    for c in "hi".chars() {
        assert!(!e.handle_key(EditorKey::Char(c)));
    }
    e.handle_key(EditorKey::Enter);
    e.handle_key(EditorKey::Char('x'));
    assert_eq!(lines(&e), vec!["hi\n", "x"]);
    assert_eq!(e.get_cursor(), TextCoord::new(1, 1));
    e.handle_key(EditorKey::Backspace);
    e.handle_key(EditorKey::Backspace);
    assert_eq!(lines(&e), vec!["hi"]);
    assert_eq!(e.get_cursor(), TextCoord::new(0, 2));
    assert!(e.handle_key(EditorKey::Esc));
}

#[test]
fn backspace_at_start_does_nothing() {
    let mut e = EditorState::new().content("ab");
    e.handle_key(EditorKey::Backspace);
    assert_eq!(lines(&e), vec!["ab"]);
    assert_eq!(e.get_cursor(), TextCoord::new(0, 0));
}

#[test]
fn insert_and_delete_at_cursor() {
    let mut e = EditorState::new().content("ac");
    e.move_cursor(Cursor::Right);
    e.insert_ch('b');
    assert_eq!(lines(&e), vec!["abc"]);
    assert_eq!(e.cursor_ch(), Some('b'));
    e.delete_ch();
    assert_eq!(lines(&e), vec!["ac"]);
    e.insert_ch('\n');
    assert_eq!(lines(&e), vec!["a\n", "c"]);
    e.delete_ch();
    assert_eq!(lines(&e), vec!["ac"]);
}

#[test]
fn tab_key_inserts_tab() {
    let mut e = EditorState::new();
    e.handle_key(EditorKey::Tab);
    assert_eq!(lines(&e), vec!["\t"]);
    assert_eq!(e.get_cursor(), TextCoord::new(0, 1));
}

#[test]
fn columns_count_clusters() {
    let mut e = EditorState::new().content("e\u{301}x");
    e.move_cursor(Cursor::Right);
    e.move_cursor(Cursor::Right);
    assert_eq!(e.get_cursor(), TextCoord::new(0, 2));
    let mut e = EditorState::new().content("e\u{301}x");
    assert_eq!(e.offset(1), Some(TextCoord::new(0, 1)));
    e.insert_ch('y');
    assert_eq!(lines(&e), vec!["e\u{301}yx"]);
}

#[test]
fn delete_after_insert_gives_back_the_lines() {
    for ch in ['x', '\n', '\t', ' '] {
        let mut e = EditorState::new().content("fn main() {\n\tlet a = 1;\n}");
        e.move_cursor(Cursor::Down);
        e.move_cursor(Cursor::Right);
        e.move_cursor(Cursor::Right);
        let before = lines(&e);
        let cursor = e.get_cursor();
        e.insert_ch(ch);
        e.delete_ch();
        assert_eq!(lines(&e), before);
        assert_eq!(e.get_cursor(), cursor);
    }
}
