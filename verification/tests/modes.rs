use dacttylo::app::state::{PlayerPool, PlayerState};
use dacttylo::app::{InputResult, Progress};
use dacttylo::cli::Save;
use dacttylo::modes::online::{self, RemoteError};
use dacttylo::modes::practice::{handle_ghost_input, handle_term, practice_ranking, should_save};
use dacttylo::modes::{KeyInput, SessionEnd, SessionState};
use dacttylo::protocol::DacttyloCommand;
use dacttylo::record::elapsed::Elapsed;
use dacttylo::record::input::InputResultRecord;
use dacttylo::session::registry::UserRegistry;

#[test]
fn practice_keys() {
    let mut main = PlayerState::new("me".to_string(), "a\tb");
    assert_eq!(handle_term(KeyInput::Char('a'), &mut main), SessionState::Ongoing);
    assert_eq!(handle_term(KeyInput::Other, &mut main), SessionState::Ongoing);
    assert_eq!(handle_term(KeyInput::Tab, &mut main), SessionState::Ongoing);
    assert_eq!(handle_term(KeyInput::Char('b'), &mut main), SessionState::End(SessionEnd::Finished));
    assert_eq!(handle_term(KeyInput::Esc, &mut main), SessionState::End(SessionEnd::Quit));
}

#[test]
fn practice_enter_types_line_feed() {
    let mut main = PlayerState::new("me".to_string(), "\n");
    assert_eq!(handle_term(KeyInput::Enter, &mut main), SessionState::End(SessionEnd::Finished));
}

#[test]
fn ghost_moves_on_correct_input_only() {
    let mut pool = PlayerPool::new("abc").with_players(&["ghost"]);
    handle_ghost_input(InputResult::Wrong('a'), &mut pool);
    assert_eq!(pool.player("ghost").unwrap().cursor(), 0);
    handle_ghost_input(InputResult::Correct(Progress::Ongoing), &mut pool);
    assert_eq!(pool.player("ghost").unwrap().cursor(), 1);
}

#[test]
fn practice_rankings() {
    let main = PlayerState::new("me".to_string(), "ab");
    let mut pool = PlayerPool::new("ab").with_players(&["ghost"]);
    assert!(practice_ranking(&main, &pool, false).is_none());
    let r = practice_ranking(&main, &pool, true).unwrap();
    assert_eq!((r.spot, r.names.clone()), (0, vec!["me".to_string(), "ghost".to_string()]));
    pool.advance_player("ghost").unwrap();
    pool.advance_player("ghost").unwrap();
    let r = practice_ranking(&main, &pool, true).unwrap();
    assert_eq!((r.spot, r.names.clone()), (1, vec!["ghost".to_string(), "me".to_string()]));
}

fn finished_at(ms: u64) -> InputResultRecord {
    InputResultRecord { inputs: vec![(Elapsed::from_millis(ms), InputResult::Correct(Progress::Finished))] }
}

#[test]
fn saving_records() {
    let fast = finished_at(1000);
    let slow = finished_at(2000);
    assert!(!should_save(None, Some(&slow), &fast));
    assert!(should_save(Some(Save::Override), Some(&fast), &slow));
    assert!(should_save(Some(Save::Best), None, &slow));
    assert!(should_save(Some(Save::Best), Some(&slow), &fast));
    assert!(!should_save(Some(Save::Best), Some(&fast), &slow));
    assert!(!should_save(Some(Save::Best), Some(&fast), &fast));
}

#[test]
fn online_keys_send_commands() {
    let mut main = PlayerState::new("me".to_string(), "a");
    let opponents = PlayerPool::new("a").with_players(&["x"]);
    assert_eq!(online::handle_term(KeyInput::Other, &mut main, &opponents), (None, SessionState::Ongoing));
    assert_eq!(
        online::handle_term(KeyInput::Char('a'), &mut main, &opponents),
        (Some(DacttyloCommand::Input('a')), SessionState::Ongoing)
    );
    assert_eq!(
        online::handle_term(KeyInput::Esc, &mut main, &opponents),
        (Some(DacttyloCommand::Forfeit), SessionState::End(SessionEnd::Quit))
    );
}

#[test]
fn remote_commands_update_opponents() {
    let mut main = PlayerState::new("me".to_string(), "a");
    main.process_input('a');
    let mut opponents = PlayerPool::new("a").with_players(&["x", "y"]);
    let mut users = UserRegistry::new();
    users.insert("px".to_string(), "x".to_string());
    users.insert("py".to_string(), "y".to_string());
    assert_eq!(online::handle_session_event("pz", DacttyloCommand::Input('a'), &mut users, &main, &mut opponents), Err(RemoteError::UnknownOrigin));
    assert_eq!(online::handle_session_event("px", DacttyloCommand::Input('a'), &mut users, &main, &mut opponents), Ok(SessionState::Ongoing));
    assert!(opponents.player("x").unwrap().is_done());
    assert_eq!(
        online::handle_session_event("py", DacttyloCommand::Forfeit, &mut users, &main, &mut opponents),
        Ok(SessionState::End(SessionEnd::Finished))
    );
    assert!(opponents.player("y").is_none());
    assert!(users.get("py").is_none());
}

#[test]
fn online_ranking_orders_finishers_by_time() {
    let mut main = PlayerState::new("me".to_string(), "a");
    main.process_input('a');
    let mut opponents = PlayerPool::new("a").with_players(&["x", "y"]);
    opponents.process_input("x", 'a').unwrap();
    let r = online::generate_session_result(&main, &opponents);
    assert_eq!(r.names.len(), 2);
    assert!(r.names.contains(&"me".to_string()));
    assert!(r.names.contains(&"x".to_string()));
    assert_eq!(r.names[r.spot], "me");
}
