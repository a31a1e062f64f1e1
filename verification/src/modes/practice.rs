//! A practice game: the local player types alone, or races the replay of an earlier
//! record of theirs on the same text (the ghost).
use super::{key_char, typed_char, KeyInput, SessionEnd, SessionState};
use crate::app::state::{input_step, InputResult, PlayerPool, PlayerState};
use crate::cli::Save;
use crate::record::input::InputResultRecord;
use crate::report::Ranking;
use vstd::prelude::*;

verus! {

/// The name the replayed record plays under.
pub open spec fn ghost_name() -> Seq<char> {
    seq!['g', 'h', 'o', 's', 't']
}

/// Handles a key of the local player: Esc quits; a key that types a char types it, and the
/// game is finished once the player reached the end of the text; other keys do nothing.
pub fn handle_term(key: KeyInput, main: &mut PlayerState) -> (s: SessionState)
    requires
        old(main).wf(),
    ensures
        final(main).wf(),
        key is Esc ==> s == SessionState::End(SessionEnd::Quit) && *final(main) == *old(main),
        !(key is Esc) && typed_char(key) is None ==> s == SessionState::Ongoing && *final(main) == *old(main),
        typed_char(key) matches Some(c) ==> {
            &&& input_step(*old(main), c, *final(main))
            &&& s == if final(main).spec_pos() == final(main).spec_text().len() {
                SessionState::End(SessionEnd::Finished)
            } else {
                SessionState::Ongoing
            }
        },
{
    if let KeyInput::Esc = key {
        return SessionState::End(SessionEnd::Quit);
    }
    match key_char(key) {
        Some(c) => {
            main.process_input(c);
            if main.is_done() {
                SessionState::End(SessionEnd::Finished)
            } else {
                SessionState::Ongoing
            }
        },
        None => SessionState::Ongoing,
    }
}

/// Replays an input of the ghost: a correct one moves its cursor one char forward, a wrong
/// one leaves it where it is. The ghost is in the pool and, on a correct input, not at the
/// end of the text yet.
pub fn handle_ghost_input(input: InputResult, opponents: &mut PlayerPool)
    requires
        old(opponents).wf(),
        old(opponents).index_of(ghost_name()) is Some,
        input is Correct ==> ({
            let g = old(opponents).spec_players()[old(opponents).index_of(ghost_name())->0];
            g.spec_pos() < g.spec_text().len()
        }),
    ensures
        final(opponents).wf(),
        final(opponents).spec_names() == old(opponents).spec_names(),
        input is Wrong ==> *final(opponents) == *old(opponents),
        input is Correct ==> ({
            let i = old(opponents).index_of(ghost_name())->0;
            let before = old(opponents).spec_players()[i];
            let after = final(opponents).spec_players()[i];
            &&& final(opponents).spec_players() == old(opponents).spec_players().update(i, after)
            &&& after.spec_pos() == before.spec_pos() + 1
            &&& after.spec_text() == before.spec_text()
        }),
{
    if let InputResult::Correct(_) = input {
        proof {
            reveal_strlit("ghost");
            assert("ghost"@ =~= ghost_name());
        }
        let r = opponents.advance_player("ghost");
        assert(r is Ok);
    }
}

/// The ranking of a practice game: none without a ghost; with one, the ghost first if it
/// reached the end of the text, and the local player first otherwise.
pub fn practice_ranking(main: &PlayerState, opponents: &PlayerPool, ghost_race: bool) -> (r: Option<Ranking>)
    requires
        opponents.wf(),
        ghost_race ==> opponents.index_of(ghost_name()) is Some,
    ensures
        !ghost_race ==> r is None,
        ghost_race ==> ({
            let g = opponents.spec_players()[opponents.index_of(ghost_name())->0];
            let ghost_done = g.spec_pos() == g.spec_text().len();
            r matches Some(ranking) && ranking.names@.len() == 2 && if ghost_done {
                &&& ranking.spot == 1
                &&& ranking.names@[0]@ == ghost_name()
                &&& ranking.names@[1]@ == main.spec_name()@
            } else {
                &&& ranking.spot == 0
                &&& ranking.names@[0]@ == main.spec_name()@
                &&& ranking.names@[1]@ == ghost_name()
            }
        }),
{
    if !ghost_race {
        return None;
    }
    proof {
        reveal_strlit("ghost");
        assert("ghost"@ =~= ghost_name());
        opponents.lemma_wf();
    }
    let ghost_done = match opponents.player("ghost") {
        Some(g) => g.is_done(),
        None => false,
    };
    let ghost_label = "ghost".to_owned();
    let main_label = main.name().clone();
    let mut names: Vec<String> = Vec::new();
    let spot: usize = if ghost_done {
        names.push(ghost_label);
        names.push(main_label);
        1
    } else {
        names.push(main_label);
        names.push(ghost_label);
        0
    };
    Some(Ranking { spot, names })
}

/// Whether the record of the game just finished is saved, given how records are kept and
/// the record already kept for the text, if one could be read: always when overriding or
/// when none could be read; when keeping the best, only if the new one finished sooner.
pub fn should_save(save: Option<Save>, previous: Option<&InputResultRecord>, current: &InputResultRecord) -> (r: bool)
    requires
        current.wf(),
        save == Some(Save::Best) && previous is Some ==> {
            &&& current.inputs@.len() > 0
            &&& previous->0.inputs@.len() > 0
            &&& previous->0.wf()
        },
    ensures
        r == match save {
            None => false,
            Some(Save::Override) => true,
            Some(Save::Best) => match previous {
                None => true,
                Some(old) => current.inputs@.last().0@ < old.inputs@.last().0@,
            },
        },
{
    match save {
        None => false,
        Some(Save::Override) => true,
        Some(Save::Best) => match previous {
            None => true,
            Some(old) => {
                let old_elapsed = old.inputs[old.inputs.len() - 1].0;
                let current_elapsed = current.inputs[current.inputs.len() - 1].0;
                proof {
                    assert(old.inputs@[old.inputs@.len() - 1].0.wf());
                    assert(current.inputs@[current.inputs@.len() - 1].0.wf());
                }
                current_elapsed.is_shorter_than(&old_elapsed)
            },
        },
    }
}

} // verus!
