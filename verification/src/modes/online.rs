//! An online game: the local player races the other registered users of a session, whose
//! moves come in as messages.
use super::{key_char, typed_char, KeyInput, SessionEnd, SessionState};
use crate::app::state::{input_step, PlayerPool, PlayerState};
use crate::protocol::DacttyloCommand;
use crate::record::elapsed::Elapsed;
use crate::report::Ranking;
use crate::session::registry::UserRegistry;
use vstd::prelude::*;

verus! {

/// Every player of the pool reached the end of the text.
pub open spec fn all_done(pool: PlayerPool) -> bool {
    forall|i: int| 0 <= i < pool.spec_players().len() ==> (#[trigger] pool.spec_players()[i]).spec_pos()
        == pool.spec_players()[i].spec_text().len()
}

/// The player reached the end of the text.
pub open spec fn done(p: PlayerState) -> bool {
    p.spec_pos() == p.spec_text().len()
}

/// The game is finished once the local player and all opponents reached the end.
pub open spec fn state_after(main: PlayerState, opponents: PlayerPool) -> SessionState {
    if done(main) && all_done(opponents) {
        SessionState::End(SessionEnd::Finished)
    } else {
        SessionState::Ongoing
    }
}

/// Handles a key of the local player, handing back the command to send to the other
/// players: Esc forfeits and quits; a key that types a char sends and types it, and the
/// game is finished once everybody reached the end; other keys do nothing.
pub fn handle_term(key: KeyInput, main: &mut PlayerState, opponents: &PlayerPool) -> (r: (Option<DacttyloCommand>, SessionState))
    requires
        old(main).wf(),
        opponents.wf(),
    ensures
        final(main).wf(),
        key is Esc ==> r == (Some(DacttyloCommand::Forfeit), SessionState::End(SessionEnd::Quit))
            && *final(main) == *old(main),
        !(key is Esc) && typed_char(key) is None ==> r == (None::<DacttyloCommand>, SessionState::Ongoing)
            && *final(main) == *old(main),
        typed_char(key) matches Some(c) ==> {
            &&& input_step(*old(main), c, *final(main))
            &&& r == (Some(DacttyloCommand::Input(c)), state_after(*final(main), *opponents))
        },
{
    if let KeyInput::Esc = key {
        return (Some(DacttyloCommand::Forfeit), SessionState::End(SessionEnd::Quit));
    }
    match key_char(key) {
        Some(c) => {
            main.process_input(c);
            let state = if main.is_done() && opponents.are_done() {
                SessionState::End(SessionEnd::Finished)
            } else {
                SessionState::Ongoing
            };
            (Some(DacttyloCommand::Input(c)), state)
        },
        None => (None, SessionState::Ongoing),
    }
}

/// A command came from a peer that is not registered.
#[derive(Debug, Clone, Copy, PartialEq, Eq, Structural)]
pub enum RemoteError {
    UnknownOrigin,
}

/// Applies a command that the registered user of `peer` sent: a typed char is typed for
/// that user's player (a refusal changes nothing), and a forfeit takes the player out of
/// the game and the user out of the registry. The game is finished once everybody left
/// reached the end of the text. Refused when the peer is not registered.
pub fn handle_session_event(
    peer: &str,
    cmd: DacttyloCommand,
    users: &mut UserRegistry,
    main: &PlayerState,
    opponents: &mut PlayerPool,
) -> (r: Result<SessionState, RemoteError>)
    requires
        old(users).wf(),
        main.wf(),
        old(opponents).wf(),
    ensures
        final(users).wf(),
        final(opponents).wf(),
        !old(users)@.contains_key(peer@) ==> r == Err::<SessionState, RemoteError>(RemoteError::UnknownOrigin)
            && *final(users) == *old(users) && *final(opponents) == *old(opponents),
        old(users)@.contains_key(peer@) ==> {
            let name = old(users)@[peer@];
            &&& r == Ok::<SessionState, RemoteError>(state_after(*main, *final(opponents)))
            &&& match cmd {
                DacttyloCommand::Input(c) => {
                    &&& final(users)@ == old(users)@
                    &&& old(opponents).index_of(name) is None ==> final(opponents).spec_players() == old(opponents).spec_players()
                    &&& old(opponents).index_of(name) matches Some(i) ==> {
                        let after = final(opponents).spec_players()[i];
                        &&& final(opponents).spec_players() == old(opponents).spec_players().update(i, after)
                        &&& input_step(old(opponents).spec_players()[i], c, after)
                    }
                },
                DacttyloCommand::Forfeit => {
                    &&& final(users)@ == old(users)@.remove(peer@)
                    &&& old(opponents).index_of(name) is None ==> final(opponents).spec_players() == old(opponents).spec_players()
                    &&& old(opponents).index_of(name) matches Some(i) ==> final(opponents).spec_players()
                        == old(opponents).spec_players().remove(i)
                },
            }
        },
{
    let username = match users.get(peer) {
        Some(u) => u.clone(),
        None => return Err(RemoteError::UnknownOrigin),
    };
    match cmd {
        DacttyloCommand::Input(ch) => {
            let _ = opponents.process_input(username.as_str(), ch);
        },
        DacttyloCommand::Forfeit => {
            let _ = opponents.remove(username.as_str());
            let _ = users.remove(peer);
        },
    }
    if main.is_done() && opponents.are_done() {
        Ok(SessionState::End(SessionEnd::Finished))
    } else {
        Ok(SessionState::Ongoing)
    }
}

/// A finisher: a name and the time of the last input.
pub open spec fn finisher(p: PlayerState) -> (Seq<char>, int) {
    (p.spec_name()@, p.spec_inputs().last().0@)
}

/// The players of `ps` that reached the end of the text, in order, as finishers.
pub open spec fn finishers(ps: Seq<PlayerState>) -> Seq<(Seq<char>, int)>
    decreases ps.len(),
{
    if ps.len() == 0 {
        seq![]
    } else if done(ps.last()) {
        finishers(ps.drop_last()).push(finisher(ps.last()))
    } else {
        finishers(ps.drop_last())
    }
}

/// `e` put into `s` after every entry that finished no later than it.
pub open spec fn insert_by_time(s: Seq<(Seq<char>, int)>, e: (Seq<char>, int)) -> Seq<(Seq<char>, int)>
    decreases s.len(),
{
    if s.len() == 0 || s.last().1 <= e.1 {
        s.push(e)
    } else {
        insert_by_time(s.drop_last(), e).push(s.last())
    }
}

/// The finishers ordered by time, those with equal times in their original order.
pub open spec fn rank_by_time(s: Seq<(Seq<char>, int)>) -> Seq<(Seq<char>, int)>
    decreases s.len(),
{
    if s.len() == 0 {
        s
    } else {
        insert_by_time(rank_by_time(s.drop_last()), s.last())
    }
}

/// The entries are ordered by time.
pub open spec fn ordered_by_time(s: Seq<(Seq<char>, int)>) -> bool {
    forall|i: int, j: int| 0 <= i < j < s.len() ==> #[trigger] s[i].1 <= #[trigger] s[j].1
}

proof fn lemma_insert_by_time(s: Seq<(Seq<char>, int)>, e: (Seq<char>, int))
    requires
        ordered_by_time(s),
    ensures
        ordered_by_time(insert_by_time(s, e)),
        insert_by_time(s, e).to_multiset() == s.to_multiset().insert(e),
    decreases s.len(),
{
    broadcast use vstd::multiset::group_multiset_axioms;
    broadcast use vstd::seq_lib::group_to_multiset_ensures;
    if s.len() == 0 || s.last().1 <= e.1 {
    } else {
        let init = s.drop_last();
        assert(ordered_by_time(init)) by {
            assert forall|i: int, j: int| 0 <= i < j < init.len() implies #[trigger] init[i].1 <= #[trigger] init[j].1 by {
                assert(init[i] == s[i]);
                assert(init[j] == s[j]);
            }
        }
        lemma_insert_by_time(init, e);
        let t = insert_by_time(init, e);
        assert(s =~= init.push(s.last()));
        assert forall|k: int| 0 <= k < t.len() implies #[trigger] t[k].1 <= s.last().1 by {
            assert(t.to_multiset().count(t[k]) > 0);
            assert(init.to_multiset().insert(e).count(t[k]) > 0);
            if t[k] != e {
                assert(init.to_multiset().count(t[k]) > 0);
                assert(init.contains(t[k]));
                let m = choose|m: int| 0 <= m < init.len() && init[m] == t[k];
                assert(init[m] == s[m]);
                assert(s[m].1 <= s[s.len() - 1].1);
            }
        }
        let r = t.push(s.last());
        assert forall|i: int, j: int| 0 <= i < j < r.len() implies #[trigger] r[i].1 <= #[trigger] r[j].1 by {
            if j == r.len() - 1 {
                assert(r[i] == t[i]);
            } else {
                assert(r[i] == t[i]);
                assert(r[j] == t[j]);
            }
        }
    }
}

/// The ranking holds exactly the finishers, ordered by time.
pub proof fn lemma_rank_by_time(s: Seq<(Seq<char>, int)>)
    ensures
        ordered_by_time(rank_by_time(s)),
        rank_by_time(s).to_multiset() == s.to_multiset(),
    decreases s.len(),
{
    broadcast use vstd::multiset::group_multiset_axioms;
    broadcast use vstd::seq_lib::group_to_multiset_ensures;
    if s.len() > 0 {
        lemma_rank_by_time(s.drop_last());
        lemma_insert_by_time(rank_by_time(s.drop_last()), s.last());
        assert(s =~= s.drop_last().push(s.last()));
    }
}

/// The ranking names, in order.
pub open spec fn ranked_names(s: Seq<(Seq<char>, int)>) -> Seq<Seq<char>> {
    rank_by_time(s).map_values(|e: (Seq<char>, int)| e.0)
}

/// Puts `e` into the time-ordered `ranked` after every entry that finished no later.
fn insert_ranked(ranked: &mut Vec<(String, Elapsed)>, e: (String, Elapsed))
    requires
        forall|i: int| 0 <= i < old(ranked)@.len() ==> (#[trigger] old(ranked)@[i]).1.wf(),
        e.1.wf(),
    ensures
        forall|i: int| 0 <= i < final(ranked)@.len() ==> (#[trigger] final(ranked)@[i]).1.wf(),
        views_of(final(ranked)@) == insert_by_time(views_of(old(ranked)@), (e.0@, e.1@)),
{
    let ghost s = views_of(ranked@);
    let ghost ev = (e.0@, e.1@);
    let mut k = ranked.len();
    assert(s.take(k as int) =~= s);
    assert(s.skip(k as int) =~= Seq::<(Seq<char>, int)>::empty());
    while k > 0 && e.1.is_shorter_than(&ranked[k - 1].1)
        invariant
            ranked@ == old(ranked)@,
            s == views_of(ranked@),
            ev == (e.0@, e.1@),
            forall|i: int| 0 <= i < ranked@.len() ==> (#[trigger] ranked@[i]).1.wf(),
            e.1.wf(),
            k <= ranked@.len(),
            insert_by_time(s, ev) == insert_by_time(s.take(k as int), ev) + s.skip(k as int),
        decreases k,
    {
        proof {
            let t = s.take(k as int);
            assert(s[k - 1] == (ranked@[k - 1].0@, ranked@[k - 1].1@));
            assert(t.last() == s[k - 1]);
            assert(t.drop_last() =~= s.take(k - 1));
            assert(s.skip(k - 1) =~= seq![s[k - 1]] + s.skip(k as int));
            assert(insert_by_time(t, ev) == insert_by_time(s.take(k - 1), ev).push(s[k - 1]));
            assert(insert_by_time(s.take(k - 1), ev).push(s[k - 1]) + s.skip(k as int) =~= insert_by_time(s.take(k - 1), ev) + s.skip(k - 1));
        }
        k = k - 1;
    }
    proof {
        let t = s.take(k as int);
        if k > 0 {
            assert(s[k - 1] == (ranked@[k - 1].0@, ranked@[k - 1].1@));
            assert(t.last() == s[k - 1]);
        }
        assert(insert_by_time(t, ev) == t.push(ev));
    }
    ranked.insert(k, e);
    proof {
        assert(views_of(ranked@) =~= s.take(k as int).push(ev) + s.skip(k as int));
    }
}

/// Names and time stamps, as plain values.
pub open spec fn views_of(v: Seq<(String, Elapsed)>) -> Seq<(Seq<char>, int)> {
    v.map_values(|e: (String, Elapsed)| (e.0@, e.1@))
}

/// Adds player `p`, the one at `i` in `all`, to the ranking of the players before it, if
/// it reached the end of the text.
fn add_if_done(ranked: &mut Vec<(String, Elapsed)>, p: &PlayerState, Ghost(all): Ghost<Seq<PlayerState>>, Ghost(i): Ghost<int>)
    requires
        0 <= i < all.len(),
        all[i] == *p,
        p.wf(),
        done(*p) ==> p.spec_inputs().len() > 0,
        forall|k: int| 0 <= k < old(ranked)@.len() ==> (#[trigger] old(ranked)@[k]).1.wf(),
        views_of(old(ranked)@) == rank_by_time(finishers(all.take(i))),
    ensures
        forall|k: int| 0 <= k < final(ranked)@.len() ==> (#[trigger] final(ranked)@[k]).1.wf(),
        views_of(final(ranked)@) == rank_by_time(finishers(all.take(i + 1))),
{
    proof {
        assert(all.take(i + 1).drop_last() =~= all.take(i));
        assert(all.take(i + 1).last() == *p);
    }
    if p.is_done() {
        let record = p.record();
        proof {
            p.lemma_wf();
            assert(record.inputs@[record.inputs@.len() - 1].0.wf());
        }
        let last = record.inputs[record.inputs.len() - 1].0;
        let name = p.name().clone();
        proof {
            let fs = finishers(all.take(i));
            assert(finishers(all.take(i + 1)) == fs.push(finisher(*p)));
            assert(fs.push(finisher(*p)).drop_last() =~= fs);
            assert(rank_by_time(fs.push(finisher(*p))) == insert_by_time(rank_by_time(fs), finisher(*p)));
        }
        insert_ranked(ranked, (name, last));
    } else {
        proof {
            assert(finishers(all.take(i + 1)) == finishers(all.take(i)));
        }
    }
}

/// The ranking of an online game: the opponents (in the order they joined) and then the
/// local player, those who reached the end of the text ordered by the time of their last
/// input (equal times kept in that order), and the place of the first one named like the
/// local player. The local player reached the end, and each player who did typed at least
/// once.
pub fn generate_session_result(main: &PlayerState, opponents: &PlayerPool) -> (r: Ranking)
    requires
        main.wf(),
        opponents.wf(),
        done(*main),
        main.spec_inputs().len() > 0,
        forall|i: int| 0 <= i < opponents.spec_players().len() && done(#[trigger] opponents.spec_players()[i])
            ==> opponents.spec_players()[i].spec_inputs().len() > 0,
    ensures
        ({
            let names = ranked_names(finishers(opponents.spec_players().push(*main)));
            &&& r.names@.len() == names.len()
            &&& forall|i: int| 0 <= i < names.len() ==> #[trigger] r.names@[i]@ == names[i]
            &&& r.spot < names.len()
            &&& names[r.spot as int] == main.spec_name()@
            &&& forall|j: int| 0 <= j < r.spot ==> names[j] != main.spec_name()@
        }),
{
    let ghost all = opponents.spec_players().push(*main);
    let players = opponents.players();
    proof {
        opponents.lemma_wf();
    }
    let mut ranked: Vec<(String, Elapsed)> = Vec::new();
    let mut i: usize = 0;
    while i < players.len()
        invariant
            players@ == opponents.spec_players(),
            all == players@.push(*main),
            forall|k: int| 0 <= k < players@.len() ==> (#[trigger] players@[k]).wf(),
            forall|k: int| 0 <= k < players@.len() && done(#[trigger] players@[k]) ==> players@[k].spec_inputs().len() > 0,
            i <= players@.len(),
            forall|k: int| 0 <= k < ranked@.len() ==> (#[trigger] ranked@[k]).1.wf(),
            views_of(ranked@) == rank_by_time(finishers(all.take(i as int))),
        decreases players@.len() - i,
    {
        add_if_done(&mut ranked, &players[i], Ghost(all), Ghost(i as int));
        i = i + 1;
    }
    add_if_done(&mut ranked, main, Ghost(all), Ghost(i as int));
    proof {
        assert(all.take(all.len() as int) =~= all);
    }
    let ghost fs = finishers(all);
    let ghost names = ranked_names(fs);
    proof {
        broadcast use vstd::multiset::group_multiset_axioms;
        broadcast use vstd::seq_lib::group_to_multiset_ensures;
        lemma_finisher_listed(all);
        lemma_rank_by_time(fs);
        assert(fs.to_multiset().count(finisher(*main)) > 0);
        assert(rank_by_time(fs).to_multiset().count(finisher(*main)) > 0);
        assert(rank_by_time(fs).contains(finisher(*main)));
    }
    let mut names_out: Vec<String> = Vec::new();
    let mut spot: usize = 0;
    let mut found = false;
    let mut k: usize = 0;
    while k < ranked.len()
        invariant
            views_of(ranked@) == rank_by_time(fs),
            names == ranked_names(fs),
            rank_by_time(fs).contains(finisher(*main)),
            k <= ranked@.len(),
            names_out@.len() == k,
            forall|j: int| 0 <= j < k ==> #[trigger] names_out@[j]@ == names[j],
            found ==> spot < k && names[spot as int] == main.spec_name()@,
            found ==> forall|j: int| 0 <= j < spot ==> names[j] != main.spec_name()@,
            !found ==> forall|j: int| 0 <= j < k ==> names[j] != main.spec_name()@,
        decreases ranked@.len() - k,
    {
        let n = ranked[k].0.clone();
        if !found && n == *main.name() {
            spot = k;
            found = true;
        }
        names_out.push(n);
        k = k + 1;
    }
    proof {
        if !found {
            let m = choose|m: int| 0 <= m < rank_by_time(fs).len() && rank_by_time(fs)[m] == finisher(*main);
            assert(names[m] == main.spec_name()@);
        }
    }
    Ranking { spot, names: names_out }
}

/// The last player of `ps`, when done, is among the finishers.
proof fn lemma_finisher_listed(ps: Seq<PlayerState>)
    requires
        ps.len() > 0,
        done(ps.last()),
    ensures
        finishers(ps).to_multiset().count(finisher(ps.last())) > 0,
{
    broadcast use vstd::multiset::group_multiset_axioms;
    broadcast use vstd::seq_lib::group_to_multiset_ensures;
    assert(finishers(ps) == finishers(ps.drop_last()).push(finisher(ps.last())));
}

} // verus!
