//! What the host and the joining peers of a session decide on each event, from taking
//! registrations to relaying what the users type. The caller waits for the events (a
//! line on standard input, a message from a peer, the start timer) and carries out the
//! actions (publishing, printing, arming the timer).
use super::command::SessionCommand;
use super::registry::UserRegistry;
use vstd::prelude::*;

verus! {

/// Something that happened while a session runs.
pub enum FlowEvent {
    /// The start timer went off.
    TimerFired,
    /// The user entered a line.
    Line(String),
    /// A peer published a command.
    Message { peer: String, cmd: SessionCommand },
    /// The stream of peer messages ended.
    StreamClosed,
}

/// What to do after an event.
pub enum FlowAction {
    /// Nothing.
    Nothing,
    /// The session starts now: show the text.
    StartSession,
    /// Close registrations: publish these users with a start date chosen now, and arm the
    /// timer for that date.
    LockSession(UserRegistry),
    /// Arm the timer for the start date the host published (a date in RFC 3339 form).
    ScheduleStart(String),
    /// Publish this line to the other peers.
    Publish(String),
    /// A user registered under this name.
    Registered(String),
    /// Show what a registered user sent.
    Display { user: String, payload: Vec<u8> },
    /// A payload came from a peer that is not registered.
    UnknownPeer,
    /// Tell the user to wait for the session to start.
    PleaseWait,
    /// The stream of peer messages was closed.
    StreamClosed,
}

/// Where the host is in a session.
#[derive(Debug, Clone, Copy, PartialEq, Eq, Structural)]
pub enum HostPhase {
    TakingRegistrations,
    AwaitingSessionStart,
    SessionStarted,
}

/// Where a joining peer is in a session.
#[derive(Debug, Clone, Copy, PartialEq, Eq, Structural)]
pub enum JoinPhase {
    AwaitingSessionStart,
    SessionStarted,
}

/// What a payload from `peer` is shown as once the session runs.
pub open spec fn relay(users: Map<Seq<char>, Seq<char>>, peer: Seq<char>, payload: Seq<u8>, a: FlowAction) -> bool {
    if users.contains_key(peer) {
        a matches FlowAction::Display { user, payload: p } && user@ == users[peer] && p@ == payload
    } else {
        a is UnknownPeer
    }
}

/// One step of the host: from phase `p0`, users `u0` and timer `t0`, `event` leads to action
/// `a`, phase `p1`, users `u1` and timer `t1`.
pub open spec fn host_step(
    p0: HostPhase,
    u0: Map<Seq<char>, Seq<char>>,
    t0: bool,
    event: FlowEvent,
    a: FlowAction,
    p1: HostPhase,
    u1: Map<Seq<char>, Seq<char>>,
    t1: bool,
) -> bool {
    let same = p1 == p0 && u1 == u0 && t1 == t0;
    match event {
        FlowEvent::TimerFired => if t0 {
            &&& a is StartSession
            &&& p1 == HostPhase::SessionStarted
            &&& !t1
            &&& u1 == u0
        } else {
            a is Nothing && same
        },
        FlowEvent::Line(line) => match p0 {
            HostPhase::TakingRegistrations => {
                &&& a matches FlowAction::LockSession(r) && r@ == u0 && r.wf()
                &&& p1 == HostPhase::AwaitingSessionStart
                &&& t1
                &&& u1 == u0
            },
            HostPhase::AwaitingSessionStart => a is Nothing && same,
            HostPhase::SessionStarted => (a matches FlowAction::Publish(l) && l@ == line@) && same,
        },
        FlowEvent::Message { peer, cmd } => match p0 {
            HostPhase::TakingRegistrations => match cmd {
                SessionCommand::Register { user } => {
                    &&& a matches FlowAction::Registered(n) && n@ == user@
                    &&& u1 == u0.insert(peer@, user@)
                    &&& p1 == p0
                    &&& t1 == t0
                },
                _ => a is Nothing && same,
            },
            HostPhase::AwaitingSessionStart => a is Nothing && same,
            HostPhase::SessionStarted => match cmd {
                SessionCommand::Push(payload) => relay(u0, peer@, payload@, a) && same,
                _ => a is Nothing && same,
            },
        },
        FlowEvent::StreamClosed => a is StreamClosed && same,
    }
}

/// One step of a joining peer: from phase `p0`, users `u0` and timer `t0`, `event` leads to
/// action `a`, phase `p1`, users `u1` and timer `t1`.
pub open spec fn join_step(
    p0: JoinPhase,
    u0: Map<Seq<char>, Seq<char>>,
    t0: bool,
    event: FlowEvent,
    a: FlowAction,
    p1: JoinPhase,
    u1: Map<Seq<char>, Seq<char>>,
    t1: bool,
) -> bool {
    let same = p1 == p0 && u1 == u0 && t1 == t0;
    match event {
        FlowEvent::TimerFired => if t0 {
            &&& a is StartSession
            &&& p1 == JoinPhase::SessionStarted
            &&& !t1
            &&& u1 == u0
        } else {
            a is Nothing && same
        },
        FlowEvent::Line(line) => match p0 {
            JoinPhase::AwaitingSessionStart => a is PleaseWait && same,
            JoinPhase::SessionStarted => (a matches FlowAction::Publish(l) && l@ == line@) && same,
        },
        FlowEvent::Message { peer, cmd } => match p0 {
            JoinPhase::AwaitingSessionStart => match cmd {
                SessionCommand::LockSession { registered_users, session_start } => {
                    &&& a matches FlowAction::ScheduleStart(d) && d@ == session_start@
                    &&& u1 == registered_users@
                    &&& t1
                    &&& p1 == p0
                },
                _ => a is Nothing && same,
            },
            JoinPhase::SessionStarted => match cmd {
                SessionCommand::Push(payload) => relay(u0, peer@, payload@, a) && same,
                _ => a is Nothing && same,
            },
        },
        FlowEvent::StreamClosed => a is StreamClosed && same,
    }
}

/// The event is a command that locks the session.
pub open spec fn is_lock(e: FlowEvent) -> bool {
    e matches FlowEvent::Message { cmd: SessionCommand::LockSession { .. }, .. }
}

/// Some step before `i` received the lock of the session and scheduled the start.
pub open spec fn lock_received_before(events: Seq<FlowEvent>, actions: Seq<FlowAction>, i: int) -> bool {
    exists|l: int| 0 <= l < i && is_lock(#[trigger] events[l]) && actions[l] is ScheduleStart
}

/// Some step before `i` started the session: the timer fired after a lock was received.
pub open spec fn join_started_before(events: Seq<FlowEvent>, actions: Seq<FlowAction>, i: int) -> bool {
    exists|j: int|
        0 <= j < i && (#[trigger] events[j]) is TimerFired && actions[j] is StartSession && lock_received_before(
            events,
            actions,
            j,
        )
}

/// The steps of a joining peer, from a fresh one: `states[i]` (phase, users, timer) is
/// where step `i` starts and `states[i + 1]` where it ends.
pub open spec fn join_run(
    states: Seq<(JoinPhase, Map<Seq<char>, Seq<char>>, bool)>,
    events: Seq<FlowEvent>,
    actions: Seq<FlowAction>,
) -> bool {
    &&& states.len() == events.len() + 1
    &&& actions.len() == events.len()
    &&& states[0] == (JoinPhase::AwaitingSessionStart, Map::<Seq<char>, Seq<char>>::empty(), false)
    &&& forall|i: int|
        0 <= i < events.len() ==> join_step(
            states[i].0,
            states[i].1,
            states[i].2,
            #[trigger] events[i],
            actions[i],
            states[i + 1].0,
            states[i + 1].1,
            states[i + 1].2,
        )
}

proof fn lemma_join_inv(
    states: Seq<(JoinPhase, Map<Seq<char>, Seq<char>>, bool)>,
    events: Seq<FlowEvent>,
    actions: Seq<FlowAction>,
    i: int,
)
    requires
        join_run(states, events, actions),
        0 <= i <= events.len(),
    ensures
        states[i].2 ==> lock_received_before(events, actions, i),
        states[i].0 == JoinPhase::SessionStarted ==> !states[i].2 && join_started_before(events, actions, i),
        states[i].0 == JoinPhase::AwaitingSessionStart ==> forall|j: int| 0 <= j < i ==> !(#[trigger] actions[j] is StartSession),
    decreases i,
{
    if i > 0 {
        let k = i - 1;
        lemma_join_inv(states, events, actions, k);
        assert(join_step(states[k].0, states[k].1, states[k].2, events[k], actions[k], states[i].0, states[i].1, states[i].2));
        if states[k].2 && lock_received_before(events, actions, k) {
            let l = choose|l: int| 0 <= l < k && is_lock(#[trigger] events[l]) && actions[l] is ScheduleStart;
            assert(lock_received_before(events, actions, i));
        }
        if is_lock(events[k]) && actions[k] is ScheduleStart {
            assert(lock_received_before(events, actions, i));
        }
        if states[k].0 == JoinPhase::SessionStarted {
            let j = choose|j: int|
                0 <= j < k && (#[trigger] events[j]) is TimerFired && actions[j] is StartSession
                    && lock_received_before(events, actions, j);
            assert(join_started_before(events, actions, i));
        }
        if events[k] is TimerFired && actions[k] is StartSession {
            assert(join_started_before(events, actions, i));
        }
    }
}

/// A joining peer publishes no line before the session has started, which happens only
/// when the timer armed by a received lock of the session fires; before that each line
/// only asks the user to wait, and from then on each line is published as it was entered.
pub proof fn lemma_join_publishes_only_once_started(
    states: Seq<(JoinPhase, Map<Seq<char>, Seq<char>>, bool)>,
    events: Seq<FlowEvent>,
    actions: Seq<FlowAction>,
)
    requires
        join_run(states, events, actions),
    ensures
        forall|i: int| 0 <= i < events.len() && #[trigger] actions[i] is Publish ==> events[i] is Line
            && join_started_before(events, actions, i),
        forall|i: int|
            0 <= i < events.len() && (#[trigger] events[i]) is Line && !join_started_before(events, actions, i)
                ==> actions[i] is PleaseWait,
        forall|i: int|
            0 <= i < events.len() && join_started_before(events, actions, i) ==> match #[trigger] events[i] {
                FlowEvent::Line(line) => actions[i] matches FlowAction::Publish(l) && l@ == line@,
                _ => true,
            },
{
    assert forall|i: int| 0 <= i < events.len() implies {
        &&& (#[trigger] actions[i] is Publish ==> events[i] is Line && join_started_before(events, actions, i))
        &&& (events[i] is Line && !join_started_before(events, actions, i) ==> actions[i] is PleaseWait)
        &&& (join_started_before(events, actions, i) ==> match events[i] {
            FlowEvent::Line(line) => actions[i] matches FlowAction::Publish(l) && l@ == line@,
            _ => true,
        })
    } by {
        lemma_join_inv(states, events, actions, i);
        assert(join_step(states[i].0, states[i].1, states[i].2, events[i], actions[i], states[i + 1].0, states[i + 1].1, states[i + 1].2));
        if join_started_before(events, actions, i) && states[i].0 == JoinPhase::AwaitingSessionStart {
            let j = choose|j: int|
                0 <= j < i && (#[trigger] events[j]) is TimerFired && actions[j] is StartSession
                    && lock_received_before(events, actions, j);
            assert(!(actions[j] is StartSession));
        }
    }
}

/// Some step before `i` locked the session.
pub open spec fn lock_sent_before(actions: Seq<FlowAction>, i: int) -> bool {
    exists|l: int| 0 <= l < i && #[trigger] actions[l] is LockSession
}

/// Some step before `i` started the session: the timer fired after the session was
/// locked.
pub open spec fn host_started_before(events: Seq<FlowEvent>, actions: Seq<FlowAction>, i: int) -> bool {
    exists|j: int|
        0 <= j < i && (#[trigger] events[j]) is TimerFired && actions[j] is StartSession && lock_sent_before(actions, j)
}

/// The event is a registration sent from `peer`.
pub open spec fn is_register_from(e: FlowEvent, peer: Seq<char>) -> bool {
    e matches FlowEvent::Message { peer: p, cmd: SessionCommand::Register { .. } } && p@ == peer
}

/// The steps of a host, from a fresh one for `host_peer` and its user `host_user`:
/// `states[i]` (phase, users, timer) is where step `i` starts and `states[i + 1]` where it
/// ends.
pub open spec fn host_run(
    host_peer: Seq<char>,
    host_user: Seq<char>,
    states: Seq<(HostPhase, Map<Seq<char>, Seq<char>>, bool)>,
    events: Seq<FlowEvent>,
    actions: Seq<FlowAction>,
) -> bool {
    &&& states.len() == events.len() + 1
    &&& actions.len() == events.len()
    &&& states[0] == (
        HostPhase::TakingRegistrations,
        Map::<Seq<char>, Seq<char>>::empty().insert(host_peer, host_user),
        false,
    )
    &&& forall|i: int|
        0 <= i < events.len() ==> host_step(
            states[i].0,
            states[i].1,
            states[i].2,
            #[trigger] events[i],
            actions[i],
            states[i + 1].0,
            states[i + 1].1,
            states[i + 1].2,
        )
}

proof fn lemma_host_inv(
    host_peer: Seq<char>,
    host_user: Seq<char>,
    states: Seq<(HostPhase, Map<Seq<char>, Seq<char>>, bool)>,
    events: Seq<FlowEvent>,
    actions: Seq<FlowAction>,
    i: int,
)
    requires
        host_run(host_peer, host_user, states, events, actions),
        0 <= i <= events.len(),
    ensures
        states[i].2 ==> lock_sent_before(actions, i),
        states[i].0 == HostPhase::SessionStarted ==> !states[i].2 && host_started_before(events, actions, i),
        states[i].0 == HostPhase::TakingRegistrations ==> !states[i].2 && forall|j: int|
            0 <= j < i ==> !((#[trigger] events[j]) is Line),
        states[i].0 != HostPhase::TakingRegistrations ==> exists|j: int| 0 <= j < i && (#[trigger] events[j]) is Line,
        (forall|j: int| 0 <= j < i ==> !is_register_from(#[trigger] events[j], host_peer)) ==> states[i].1.contains_key(
            host_peer,
        ) && states[i].1[host_peer] == host_user,
    decreases i,
{
    if i > 0 {
        let k = i - 1;
        lemma_host_inv(host_peer, host_user, states, events, actions, k);
        assert(host_step(states[k].0, states[k].1, states[k].2, events[k], actions[k], states[i].0, states[i].1, states[i].2));
        if states[k].2 && lock_sent_before(actions, k) {
            let l = choose|l: int| 0 <= l < k && #[trigger] actions[l] is LockSession;
            assert(lock_sent_before(actions, i));
        }
        if actions[k] is LockSession {
            assert(lock_sent_before(actions, i));
        }
        if states[k].0 == HostPhase::SessionStarted {
            let j = choose|j: int|
                0 <= j < k && (#[trigger] events[j]) is TimerFired && actions[j] is StartSession && lock_sent_before(actions, j);
            assert(host_started_before(events, actions, i));
        }
        if events[k] is TimerFired && actions[k] is StartSession {
            assert(host_started_before(events, actions, i));
        }
        if states[k].0 != HostPhase::TakingRegistrations {
            let j = choose|j: int| 0 <= j < k && (#[trigger] events[j]) is Line;
            assert(exists|j: int| 0 <= j < i && (#[trigger] events[j]) is Line);
        }
        if events[k] is Line {
            assert(exists|j: int| 0 <= j < i && (#[trigger] events[j]) is Line);
        }
        if forall|j: int| 0 <= j < i ==> !is_register_from(#[trigger] events[j], host_peer) {
            assert(!is_register_from(events[k], host_peer));
        }
    }
}

proof fn lemma_host_users_frozen(
    host_peer: Seq<char>,
    host_user: Seq<char>,
    states: Seq<(HostPhase, Map<Seq<char>, Seq<char>>, bool)>,
    events: Seq<FlowEvent>,
    actions: Seq<FlowAction>,
    i: int,
    k: int,
)
    requires
        host_run(host_peer, host_user, states, events, actions),
        0 <= i < k <= events.len(),
        actions[i] is LockSession,
    ensures
        states[k].1 == states[i].1,
        states[k].0 != HostPhase::TakingRegistrations,
    decreases k - i,
{
    assert(host_step(states[i].0, states[i].1, states[i].2, events[i], actions[i], states[i + 1].0, states[i + 1].1, states[i + 1].2));
    if k > i + 1 {
        lemma_host_users_frozen(host_peer, host_user, states, events, actions, i, k - 1);
        let m = k - 1;
        assert(host_step(states[m].0, states[m].1, states[m].2, events[m], actions[m], states[k].0, states[k].1, states[k].2));
    }
}

/// A host locks the session once, at the first line its user enters, publishing the users
/// registered until then, who stay the same from then on; it publishes lines only once the
/// session has started, which happens only when the timer armed by the lock fires; and,
/// unless a registration comes from its own peer id, its own user stays registered.
pub proof fn lemma_host_run(
    host_peer: Seq<char>,
    host_user: Seq<char>,
    states: Seq<(HostPhase, Map<Seq<char>, Seq<char>>, bool)>,
    events: Seq<FlowEvent>,
    actions: Seq<FlowAction>,
)
    requires
        host_run(host_peer, host_user, states, events, actions),
    ensures
        forall|i: int| 0 <= i < events.len() ==> match #[trigger] actions[i] {
            FlowAction::LockSession(r) => events[i] is Line && r@ == states[i].1 && forall|j: int|
                0 <= j < i ==> !((#[trigger] events[j]) is Line),
            _ => true,
        },
        forall|i: int|
            0 <= i < events.len() && (#[trigger] events[i]) is Line && (forall|j: int| 0 <= j < i ==> !((#[trigger] events[j]) is Line))
                ==> actions[i] is LockSession,
        forall|i: int, k: int| 0 <= i < k <= events.len() && #[trigger] actions[i] is LockSession ==> #[trigger] states[k].1 == states[i].1,
        forall|i: int| 0 <= i < events.len() && #[trigger] actions[i] is Publish ==> events[i] is Line
            && host_started_before(events, actions, i),
        (forall|j: int| 0 <= j < events.len() ==> !is_register_from(#[trigger] events[j], host_peer)) ==> forall|k: int|
            0 <= k <= events.len() ==> (#[trigger] states[k]).1.contains_key(host_peer) && states[k].1[host_peer] == host_user,
{
    assert forall|i: int| 0 <= i < events.len() implies {
        &&& match #[trigger] actions[i] {
            FlowAction::LockSession(r) => events[i] is Line && r@ == states[i].1 && forall|j: int|
                0 <= j < i ==> !((#[trigger] events[j]) is Line),
            _ => true,
        }
        &&& (events[i] is Line && (forall|j: int| 0 <= j < i ==> !((#[trigger] events[j]) is Line)) ==> actions[i] is LockSession)
        &&& (actions[i] is Publish ==> events[i] is Line && host_started_before(events, actions, i))
    } by {
        lemma_host_inv(host_peer, host_user, states, events, actions, i);
        assert(host_step(states[i].0, states[i].1, states[i].2, events[i], actions[i], states[i + 1].0, states[i + 1].1, states[i + 1].2));
    }
    assert forall|i: int, k: int| 0 <= i < k <= events.len() && #[trigger] actions[i] is LockSession implies #[trigger] states[k].1
        == states[i].1 by {
        lemma_host_users_frozen(host_peer, host_user, states, events, actions, i, k);
    }
    if forall|j: int| 0 <= j < events.len() ==> !is_register_from(#[trigger] events[j], host_peer) {
        assert forall|k: int| 0 <= k <= events.len() implies (#[trigger] states[k]).1.contains_key(host_peer)
            && states[k].1[host_peer] == host_user by {
            lemma_host_inv(host_peer, host_user, states, events, actions, k);
        }
    }
}

/// The host of a session: it takes registrations until its user enters a line, then waits
/// for the start it announced, then relays payloads.
pub struct HostFlow {
    phase: HostPhase,
    users: UserRegistry,
    timer_active: bool,
}

impl HostFlow {
    pub closed spec fn spec_phase(&self) -> HostPhase {
        self.phase
    }

    pub closed spec fn spec_users(&self) -> Map<Seq<char>, Seq<char>> {
        self.users@
    }

    pub closed spec fn spec_timer_active(&self) -> bool {
        self.timer_active
    }

    pub closed spec fn wf(&self) -> bool {
        self.users.wf()
    }

    /// A session hosted by `host_peer` for its user `host_user`, who is registered first.
    pub fn new(host_peer: String, host_user: String) -> (f: Self)
        ensures
            f.wf(),
            f.spec_phase() == HostPhase::TakingRegistrations,
            f.spec_users() == Map::<Seq<char>, Seq<char>>::empty().insert(host_peer@, host_user@),
            !f.spec_timer_active(),
    {
        let mut users = UserRegistry::new();
        users.insert(host_peer, host_user);
        HostFlow { phase: HostPhase::TakingRegistrations, users, timer_active: false }
    }

    /// The registered users.
    pub fn users(&self) -> (u: &UserRegistry)
        ensures
            u@ == self.spec_users(),
            u.wf() == self.wf(),
    {
        &self.users
    }

    /// Decides what an event leads to.
    pub fn step(&mut self, event: FlowEvent) -> (a: FlowAction)
        requires
            old(self).wf(),
        ensures
            final(self).wf(),
            host_step(
                old(self).spec_phase(),
                old(self).spec_users(),
                old(self).spec_timer_active(),
                event,
                a,
                final(self).spec_phase(),
                final(self).spec_users(),
                final(self).spec_timer_active(),
            ),
    {
        match event {
            FlowEvent::TimerFired => {
                if self.timer_active {
                    self.phase = HostPhase::SessionStarted;
                    self.timer_active = false;
                    FlowAction::StartSession
                } else {
                    FlowAction::Nothing
                }
            },
            FlowEvent::Line(line) => match self.phase {
                HostPhase::TakingRegistrations => {
                    let snapshot = self.users.duplicate();
                    self.phase = HostPhase::AwaitingSessionStart;
                    self.timer_active = true;
                    FlowAction::LockSession(snapshot)
                },
                HostPhase::AwaitingSessionStart => FlowAction::Nothing,
                HostPhase::SessionStarted => FlowAction::Publish(line),
            },
            FlowEvent::Message { peer, cmd } => match self.phase {
                HostPhase::TakingRegistrations => match cmd {
                    SessionCommand::Register { user } => {
                        let shown = user.clone();
                        self.users.insert(peer, user);
                        FlowAction::Registered(shown)
                    },
                    _ => FlowAction::Nothing,
                },
                HostPhase::AwaitingSessionStart => FlowAction::Nothing,
                HostPhase::SessionStarted => match cmd {
                    SessionCommand::Push(payload) => relay_payload(&self.users, peer.as_str(), payload),
                    _ => FlowAction::Nothing,
                },
            },
            FlowEvent::StreamClosed => FlowAction::StreamClosed,
        }
    }
}

/// Shows `payload` as sent by the registered user of `peer`.
fn relay_payload(users: &UserRegistry, peer: &str, payload: Vec<u8>) -> (a: FlowAction)
    requires
        users.wf(),
    ensures
        relay(users@, peer@, payload@, a),
{
    match users.get(peer) {
        Some(user) => FlowAction::Display { user: user.clone(), payload },
        None => FlowAction::UnknownPeer,
    }
}

/// A peer that joined a session: it waits for the host to lock the session, then for the
/// start, then relays payloads.
pub struct JoinFlow {
    phase: JoinPhase,
    users: UserRegistry,
    timer_active: bool,
}

impl JoinFlow {
    pub closed spec fn spec_phase(&self) -> JoinPhase {
        self.phase
    }

    pub closed spec fn spec_users(&self) -> Map<Seq<char>, Seq<char>> {
        self.users@
    }

    pub closed spec fn spec_timer_active(&self) -> bool {
        self.timer_active
    }

    pub closed spec fn wf(&self) -> bool {
        self.users.wf()
    }

    /// A peer that has just registered and knows no users yet.
    pub fn new() -> (f: Self)
        ensures
            f.wf(),
            f.spec_phase() == JoinPhase::AwaitingSessionStart,
            f.spec_users() == Map::<Seq<char>, Seq<char>>::empty(),
            !f.spec_timer_active(),
    {
        JoinFlow { phase: JoinPhase::AwaitingSessionStart, users: UserRegistry::new(), timer_active: false }
    }

    /// Decides what an event leads to.
    pub fn step(&mut self, event: FlowEvent) -> (a: FlowAction)
        requires
            old(self).wf(),
            event matches FlowEvent::Message { cmd: SessionCommand::LockSession { registered_users, .. }, .. }
                ==> registered_users.wf(),
        ensures
            final(self).wf(),
            join_step(
                old(self).spec_phase(),
                old(self).spec_users(),
                old(self).spec_timer_active(),
                event,
                a,
                final(self).spec_phase(),
                final(self).spec_users(),
                final(self).spec_timer_active(),
            ),
    {
        match event {
            FlowEvent::TimerFired => {
                if self.timer_active {
                    self.phase = JoinPhase::SessionStarted;
                    self.timer_active = false;
                    FlowAction::StartSession
                } else {
                    FlowAction::Nothing
                }
            },
            FlowEvent::Line(line) => match self.phase {
                JoinPhase::AwaitingSessionStart => FlowAction::PleaseWait,
                JoinPhase::SessionStarted => FlowAction::Publish(line),
            },
            FlowEvent::Message { peer, cmd } => match self.phase {
                JoinPhase::AwaitingSessionStart => match cmd {
                    SessionCommand::LockSession { registered_users, session_start } => {
                        self.users = registered_users;
                        self.timer_active = true;
                        FlowAction::ScheduleStart(session_start)
                    },
                    _ => FlowAction::Nothing,
                },
                JoinPhase::SessionStarted => match cmd {
                    SessionCommand::Push(payload) => relay_payload(&self.users, peer.as_str(), payload),
                    _ => FlowAction::Nothing,
                },
            },
            FlowEvent::StreamClosed => FlowAction::StreamClosed,
        }
    }
}

/// While registrations are open, a peer's registration is taken unless the peer holds one
/// already; hands back the name of a new registration.
pub fn take_registration(users: &mut UserRegistry, peer: String, cmd: SessionCommand) -> (r: Option<String>)
    requires
        old(users).wf(),
    ensures
        final(users).wf(),
        match cmd {
            SessionCommand::Register { user } => if old(users)@.contains_key(peer@) {
                r is None && final(users)@ == old(users)@
            } else {
                r matches Some(n) && n@ == user@ && final(users)@ == old(users)@.insert(peer@, user@)
            },
            _ => r is None && final(users)@ == old(users)@,
        },
{
    match cmd {
        SessionCommand::Register { user } => {
            let shown = user.clone();
            if users.insert_if_absent(peer, user) {
                Some(shown)
            } else {
                None
            }
        },
        _ => None,
    }
}

/// The users and start date of a command that locks the session, if it is one.
pub fn lock_details(cmd: SessionCommand) -> (r: Option<(UserRegistry, String)>)
    ensures
        match cmd {
            SessionCommand::LockSession { registered_users, session_start } => r matches Some(
                (u, d),
            ) && u.entries() == registered_users.entries() && d@ == session_start@,
            _ => r is None,
        },
{
    match cmd {
        SessionCommand::LockSession { registered_users, session_start } => Some((registered_users, session_start)),
        _ => None,
    }
}

} // verus!
