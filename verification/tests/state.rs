use dacttylo::app::state::{PlayerPool, PlayerState, PoolError};
use dacttylo::app::{InputResult, Progress};
use dacttylo::text_coord::TextCoord;

#[test]
fn correct_input_moves_cursor() {
    let mut p = PlayerState::new("me".to_string(), "ab");
    assert_eq!(p.process_input('a'), Some(InputResult::Correct(Progress::Ongoing)));
    assert_eq!(p.cursor(), 1);
    assert_eq!(p.process_input('b'), Some(InputResult::Correct(Progress::Finished)));
    assert_eq!(p.get_progress(), Progress::Finished);
    assert!(p.is_done());
    assert_eq!(p.process_input('c'), None);
    assert_eq!(p.record().inputs.len(), 2);
}

#[test]
fn wrong_input_marks_mistake() {
    let mut p = PlayerState::new("me".to_string(), "ab");
    assert_eq!(p.process_input('x'), Some(InputResult::Wrong('a')));
    assert_eq!(p.cursor(), 0);
    assert_eq!(p.last_input(), Some(InputResult::Wrong('a')));
    assert_eq!(p.get_error_coords(), vec![TextCoord::new(0, 0)]);
    assert_eq!(p.record().count_wrong(), 1);
    assert_eq!(p.record().count_correct(), 0);
}

#[test]
fn line_feed_skips_leading_blanks() {
    let mut p = PlayerState::new("me".to_string(), "a\n   b");
    p.process_input('a');
    assert_eq!(p.process_input('\n'), Some(InputResult::Correct(Progress::Ongoing)));
    assert_eq!(p.cursor(), 5);
    assert_eq!(p.get_cursor_coord(), Some(TextCoord::new(1, 3)));
}

#[test]
fn cursor_moves_within_text_only() {
    let mut p = PlayerState::new("me".to_string(), "abc");
    assert!(p.set_cursor(3).is_ok());
    assert!(p.set_cursor(4).is_err());
    assert_eq!(p.cursor(), 3);
    assert!(p.advance_cursor().is_err());
    assert!(p.set_cursor(1).is_ok());
    assert!(p.advance_cursor().is_ok());
    assert_eq!(p.cursor(), 2);
}

#[test]
fn empty_text_has_no_cursor_coord() {
    let p = PlayerState::new("me".to_string(), "");
    assert_eq!(p.get_cursor_coord(), None);
    assert!(p.is_done());
}

#[test]
fn pool_adds_each_name_once() {
    let pool = PlayerPool::new("abc").with_players(&["x", "y", "x"]);
    let names: Vec<String> = pool.players().iter().map(|p| p.name.clone()).collect();
    assert_eq!(names, vec!["x", "y"]);
    assert_eq!(pool.text(), "abc");
}

#[test]
fn pool_routes_input_by_name() {
    let mut pool = PlayerPool::new("abc").with_players(&["x", "y"]);
    assert_eq!(pool.process_input("x", 'a'), Ok(InputResult::Correct(Progress::Ongoing)));
    assert_eq!(pool.process_input("z", 'a'), Err(PoolError::PlayerNotFound));
    assert_eq!(pool.player("x").unwrap().cursor(), 1);
    assert_eq!(pool.player("y").unwrap().cursor(), 0);
    assert!(pool.advance_player("y").is_ok());
    assert_eq!(pool.advance_player("q"), Err(PoolError::PlayerNotFound));
}

#[test]
fn pool_refuses_input_at_end() {
    let mut pool = PlayerPool::new("a").with_players(&["x"]);
    assert!(pool.process_input("x", 'a').is_ok());
    assert_eq!(pool.process_input("x", 'a'), Err(PoolError::EndReached));
    assert_eq!(pool.advance_player("x"), Err(PoolError::CursorOutOfBounds));
    assert!(pool.are_done());
}

#[test]
fn pool_remove_takes_player_out() {
    let mut pool = PlayerPool::new("ab").with_players(&["x", "y"]);
    let removed = pool.remove("x").unwrap();
    assert_eq!(removed.name, "x");
    assert!(pool.player("x").is_none());
    assert!(pool.remove("x").is_none());
    assert_eq!(pool.players().len(), 1);
    assert!(!pool.are_done());
}

#[test]
fn pool_cursor_coords_are_distinct() {
    let mut pool = PlayerPool::new("ab\ncd").with_players(&["x", "y", "z"]);
    pool.process_input("y", 'a');
    let coords = pool.get_cursor_coords();
    let mut cs: Vec<TextCoord> = coords.iter().map(|(c, _)| *c).collect();
    cs.sort_by_key(|c| (c.ln, c.x));
    assert_eq!(cs, vec![TextCoord::new(0, 0), TextCoord::new(0, 1)]);
}

#[test]
fn mistakes_are_listed_once_each_in_text_order() {
    let mut p = PlayerState::new("me".to_string(), "ab\ncd");
    assert_eq!(p.process_input('x'), Some(InputResult::Wrong('a')));
    assert_eq!(p.process_input('x'), Some(InputResult::Wrong('a')));
    assert_eq!(p.process_input('a'), Some(InputResult::Correct(Progress::Ongoing)));
    assert_eq!(p.process_input('b'), Some(InputResult::Correct(Progress::Ongoing)));
    assert_eq!(p.process_input('\n'), Some(InputResult::Correct(Progress::Ongoing)));
    assert_eq!(p.process_input('z'), Some(InputResult::Wrong('c')));
    assert_eq!(p.get_error_coords(), vec![TextCoord::new(0, 0), TextCoord::new(1, 0)]);
}

#[test]
fn refused_cursor_moves_say_why() {
    let mut p = PlayerState::new("me".to_string(), "ab");
    assert_eq!(p.set_cursor(3), Err("cursor out of bounds"));
    assert_eq!(p.set_cursor(2), Ok(()));
    assert_eq!(p.advance_cursor(), Err("cursor out of bounds"));
    assert_eq!(PoolError::PlayerNotFound.message(), "Player does not exist");
    assert_eq!(PoolError::EndReached.message(), "Played already reached the end");
    assert_eq!(PoolError::CursorOutOfBounds.message(), "cursor out of bounds");
}
