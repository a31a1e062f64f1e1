use dacttylo::session::command::SessionCommand;
use dacttylo::session::flow::{lock_details, take_registration, FlowAction, FlowEvent, HostFlow, HostPhase, JoinFlow, JoinPhase};
use dacttylo::session::registry::UserRegistry;

fn msg(peer: &str, cmd: SessionCommand) -> FlowEvent {
    FlowEvent::Message { peer: peer.to_string(), cmd }
}

#[test]
fn registry_insert_replaces_and_get_reads() {
    let mut r = UserRegistry::new();
    r.insert("p1".to_string(), "alice".to_string());
    r.insert("p2".to_string(), "bob".to_string());
    r.insert("p1".to_string(), "carol".to_string());
    assert_eq!(r.len(), 2);
    assert_eq!(r.get("p1").map(|s| s.as_str()), Some("carol"));
    assert_eq!(r.get("p3"), None);
    assert_eq!(r.names(), vec!["carol", "bob"]);
    assert_eq!(r.remove("p2"), Some("bob".to_string()));
    assert_eq!(r.remove("p2"), None);
    assert_eq!(r.len(), 1);
}

#[test]
fn registry_insert_if_absent_keeps_first() {
    let mut r = UserRegistry::new();
    assert!(r.insert_if_absent("p".to_string(), "first".to_string()));
    assert!(!r.insert_if_absent("p".to_string(), "second".to_string()));
    assert_eq!(r.get("p").map(|s| s.as_str()), Some("first"));
}

#[test]
fn host_takes_registrations_until_locked() {
    let mut host = HostFlow::new("h".to_string(), "host".to_string());
    match host.step(msg("p1", SessionCommand::Register { user: "alice".to_string() })) {
        FlowAction::Registered(n) => assert_eq!(n, "alice"),
        _ => panic!("expected a registration"),
    }
    match host.step(FlowEvent::Line(String::new())) {
        FlowAction::LockSession(users) => assert_eq!(users.names(), vec!["host", "alice"]),
        _ => panic!("expected the session to lock"),
    }
    assert!(matches!(host.step(msg("p2", SessionCommand::Register { user: "late".to_string() })), FlowAction::Nothing));
    assert_eq!(host.users().len(), 2);
    assert!(matches!(host.step(FlowEvent::Line("ignored".to_string())), FlowAction::Nothing));
    assert!(matches!(host.step(FlowEvent::TimerFired), FlowAction::StartSession));
    match host.step(FlowEvent::Line("hello".to_string())) {
        FlowAction::Publish(l) => assert_eq!(l, "hello"),
        _ => panic!("expected a publish"),
    }
    match host.step(msg("p1", SessionCommand::Push(vec![1, 2]))) {
        FlowAction::Display { user, payload } => {
            assert_eq!(user, "alice");
            assert_eq!(payload, vec![1, 2]);
        }
        _ => panic!("expected a display"),
    }
    assert!(matches!(host.step(msg("zz", SessionCommand::Push(vec![]))), FlowAction::UnknownPeer));
    assert!(matches!(host.step(FlowEvent::StreamClosed), FlowAction::StreamClosed));
}

#[test]
fn host_timer_does_nothing_before_lock() {
    let mut host = HostFlow::new("h".to_string(), "host".to_string());
    assert!(matches!(host.step(FlowEvent::TimerFired), FlowAction::Nothing));
    let _ = HostPhase::TakingRegistrations;
}

#[test]
fn joiner_waits_for_lock_then_start() {
    let mut join = JoinFlow::new();
    assert!(matches!(join.step(FlowEvent::Line("x".to_string())), FlowAction::PleaseWait));
    let mut users = UserRegistry::new();
    users.insert("h".to_string(), "host".to_string());
    match join.step(msg("h", SessionCommand::LockSession { registered_users: users, session_start: "2024-01-01T00:00:00Z".to_string() })) {
        FlowAction::ScheduleStart(d) => assert_eq!(d, "2024-01-01T00:00:00Z"),
        _ => panic!("expected a schedule"),
    }
    assert!(matches!(join.step(msg("h", SessionCommand::Push(vec![9]))), FlowAction::Nothing));
    assert!(matches!(join.step(FlowEvent::TimerFired), FlowAction::StartSession));
    match join.step(msg("h", SessionCommand::Push(vec![9]))) {
        FlowAction::Display { user, payload } => {
            assert_eq!(user, "host");
            assert_eq!(payload, vec![9]);
        }
        _ => panic!("expected a display"),
    }
    let _ = JoinPhase::SessionStarted;
}

#[test]
fn registration_keeps_first_name_of_a_peer() {
    let mut users = UserRegistry::new();
    let first = take_registration(&mut users, "p".to_string(), SessionCommand::Register { user: "a".to_string() });
    assert_eq!(first, Some("a".to_string()));
    let again = take_registration(&mut users, "p".to_string(), SessionCommand::Register { user: "b".to_string() });
    assert_eq!(again, None);
    assert_eq!(take_registration(&mut users, "q".to_string(), SessionCommand::Push(vec![])), None);
    assert_eq!(users.get("p").map(|s| s.as_str()), Some("a"));
}

#[test]
fn lock_details_of_commands() {
    let mut users = UserRegistry::new();
    users.insert("h".to_string(), "host".to_string());
    let cmd = SessionCommand::LockSession { registered_users: users, session_start: "t".to_string() };
    let (u, d) = lock_details(cmd).unwrap();
    assert_eq!(u.names(), vec!["host"]);
    assert_eq!(d, "t");
    assert!(lock_details(SessionCommand::Register { user: "x".to_string() }).is_none());
}
