use dacttylo::editor::{Coord, Direction, EditorState};

#[test]
fn insert_char() {
    let mut editor = EditorState::new();
    editor.insert_char('a');

    assert_eq!(editor.cursor(), Coord(0, 0));
    assert_eq!(editor.at_cursor(), 'a');

    editor.insert_char('혓');

    assert_eq!(editor.cursor(), Coord(0, 0));
    assert_eq!(editor.at_cursor(), '혓');
}

#[test]
fn append_char() {
    let mut editor = EditorState::new();
    editor.append_char('a');

    assert_eq!(editor.cursor(), Coord(0, 1));
}

#[test]
fn append_char_unicode() {
    let mut editor = EditorState::new();
    editor.append_char('혓');

    assert_eq!(editor.cursor(), Coord(0, 1));
}

#[test]
fn unicode_char_by_char_append() {
    let mut editor = EditorState::new();

    let chars = ['न', 'म', 'स', '्', 'त', 'े'];
    assert_eq!(String::from_iter(chars), "नमस्ते");

    for c in chars {
        editor.append_char(c);
    }

    assert_eq!(editor.cursor(), Coord(0, 4));
}

#[test]
fn nl_append() {
    let mut editor = EditorState::new();

    editor.append_char('\n');
    assert_eq!(editor.cursor(), Coord(1, 0));
}

#[test]
fn move_cursor_empty_buffer() {
    let mut editor = EditorState::new();

    editor.move_cursor(Direction::Right);
    assert_eq!(editor.cursor(), Coord(0, 0));
    editor.move_cursor(Direction::Left);
    assert_eq!(editor.cursor(), Coord(0, 0));
    editor.move_cursor(Direction::Up);
    assert_eq!(editor.cursor(), Coord(0, 0));
    editor.move_cursor(Direction::Down);
    assert_eq!(editor.cursor(), Coord(0, 0));
}

#[test]
fn move_cursor_after_insert() {
    let mut editor = EditorState::new();

    editor.insert_char('a');

    editor.move_cursor(Direction::Right);
    assert_eq!(editor.cursor(), Coord(0, 1));

    editor.move_cursor(Direction::Left);
    assert_eq!(editor.cursor(), Coord(0, 0));
}

#[test]
fn insert_slice() {
    let mut editor = EditorState::new();

    editor.insert("abc");
    assert_eq!(editor.cursor(), Coord(0, 0));
}

#[test]
fn insert_slice_unicode() {
    let mut editor = EditorState::new();

    editor.insert("नमस्ते");
    assert_eq!(editor.cursor(), Coord(0, 0));
}

#[test]
fn append_slice() {
    let mut editor = EditorState::new();

    editor.append("abc");
    assert_eq!(editor.cursor(), Coord(0, 3));
}

#[test]
fn append_slice_unicode() {
    let mut editor = EditorState::new();

    editor.append("नमस्ते");
    assert_eq!(editor.cursor(), Coord(0, 4));
}

#[test]
fn append_slice_with_linebreaks() {
    let mut editor = EditorState::new();

    editor.append("नमस्ते\r\nab\n혓주");
    assert_eq!(editor.cursor(), Coord(2, 2));
}

#[test]
fn move_up() {
    let mut editor = EditorState::new();

    editor.append("abcd\ndefg\n");
    assert_eq!(editor.cursor(), Coord(2, 0));

    editor.move_cursor(Direction::Up);
    assert_eq!(editor.cursor(), Coord(1, 0));

    editor.move_cursor(Direction::Up);
    assert_eq!(editor.cursor(), Coord(0, 0));

    editor.move_cursor(Direction::Up);
    assert_eq!(editor.cursor(), Coord(0, 0));
}

#[test]
fn move_up_adjust_offset() {
    let mut editor = EditorState::new();

    editor.append("\nijkl\nabcdefgh");
    assert_eq!(editor.cursor(), Coord(2, 8));

    editor.move_cursor(Direction::Up);
    assert_eq!(editor.cursor(), Coord(1, 4));

    editor.move_cursor(Direction::Up);
    assert_eq!(editor.cursor(), Coord(0, 0));

    editor.move_cursor(Direction::Up);
    assert_eq!(editor.cursor(), Coord(0, 0));
}

#[test]
fn remember_longest_offset() {
    let mut editor = EditorState::new();

    editor.append("\nijkl");
    assert_eq!(editor.cursor(), Coord(1, 4));

    editor.move_cursor(Direction::Up);
    assert_eq!(editor.cursor(), Coord(0, 0));

    editor.move_cursor(Direction::Down);
    assert_eq!(editor.cursor(), Coord(1, 4));
}

#[test]
fn move_left_blocks_at_line_start() {
    let mut editor = EditorState::new();

    editor.append("ijkl\n");
    assert_eq!(editor.cursor(), Coord(1, 0));
    editor.move_cursor(Direction::Left);
    editor.move_cursor(Direction::Left);
    assert_eq!(editor.cursor(), Coord(1, 0));
}

#[test]
fn move_right_blocks_at_eol() {
    let mut editor = EditorState::new();

    editor.append("ijkl\nijkl");
    assert_eq!(editor.cursor(), Coord(1, 4));

    editor.move_cursor(Direction::Up);
    assert_eq!(editor.cursor(), Coord(0, 4));

    editor.move_cursor(Direction::Right);
    assert_eq!(editor.cursor(), Coord(0, 4));

    editor.move_cursor(Direction::Down);
    assert_eq!(editor.cursor(), Coord(1, 4));
}

#[test]
fn move_right_blocks_at_eof() {
    let mut editor = EditorState::new();

    editor.append("ijkl");
    assert_eq!(editor.cursor(), Coord(0, 4));

    editor.move_cursor(Direction::Right);
    assert_eq!(editor.cursor(), Coord(0, 4));
}
