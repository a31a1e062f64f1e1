use crate::chars::{is_white_space, is_whitespace, str_chars};
use crate::record::recorder::InputResultRecorder;
use crate::sorted::{is_enumerated, lemma_enumerated_empty, lemma_enumerated_insert, sorted_elems, sorted_of};
use std::collections::BTreeSet;
use crate::text_coord::{coord_of_index, index_to_coord, text_to_line_index, TextCoord};
use vstd::prelude::*;
use vstd::string::{StringExecFns, StringSliceAdditionalSpecFns};

verus! {

/// Whether a player still has text to type.
#[derive(Debug, Clone, Copy, PartialEq, Eq, Structural)]
pub enum Progress {
    Ongoing,
    Finished,
}

/// What a keystroke did: it matched the char under the cursor, or it did not (the
/// char that was expected comes with it).
#[derive(Debug, Clone, Copy, PartialEq, Eq, Structural)]
pub enum InputResult {
    Correct(Progress),
    Wrong(char),
}

/// A player typing through a text: the cursor, the last input, and the positions
/// at which a wrong key was pressed (an ordered set).
pub struct PlayerState<'txt> {
    pub name: String,
    pub recorder: InputResultRecorder,
    text: &'txt str,
    chars: Vec<char>,
    pos: usize,
    last_input: Option<InputResult>,
    errors: BTreeSet<usize>,
}

/// The position reached after typing a line feed at `pos - 1`: the blanks that follow,
/// up to the next line feed, are skipped.
pub open spec fn skip_blanks(t: Seq<char>, pos: int) -> int
    decreases t.len() - pos,
{
    if 0 <= pos < t.len() && is_white_space(t[pos]) && t[pos] != '\n' {
        skip_blanks(t, pos + 1)
    } else {
        pos
    }
}

pub proof fn lemma_skip_blanks_bounds(t: Seq<char>, pos: int)
    requires
        0 <= pos <= t.len(),
    ensures
        pos <= skip_blanks(t, pos) <= t.len(),
    decreases t.len() - pos,
{
    if pos < t.len() && is_white_space(t[pos]) && t[pos] != '\n' {
        lemma_skip_blanks_bounds(t, pos + 1);
    }
}

/// Skipping the blanks from `pos` stops at the first char that is a line feed or has no
/// `White_Space` property, or at the end of the text: every char passed over is a
/// `White_Space` char other than a line feed.
pub proof fn lemma_skip_blanks_stops_at_non_blank(t: Seq<char>, pos: int)
    requires
        0 <= pos <= t.len(),
    ensures
        pos <= skip_blanks(t, pos) <= t.len(),
        forall|k: int| pos <= k < skip_blanks(t, pos) ==> is_white_space(#[trigger] t[k]) && t[k] != '\n',
        skip_blanks(t, pos) < t.len() ==> !is_white_space(t[skip_blanks(t, pos)]) || t[skip_blanks(t, pos)] == '\n',
    decreases t.len() - pos,
{
    if pos < t.len() && is_white_space(t[pos]) && t[pos] != '\n' {
        lemma_skip_blanks_stops_at_non_blank(t, pos + 1);
    }
}

/// Typing the char at `p` right moves the cursor one char on, except after a line feed,
/// where it also passes every `White_Space` char other than a line feed that follows, and
/// lands on the next char that is not one (or at the end of the text).
pub proof fn lemma_pos_after_typing(t: Seq<char>, p: int)
    requires
        0 <= p < t.len(),
    ensures
        t[p] != '\n' ==> pos_after(t, p) == p + 1,
        p + 1 <= pos_after(t, p) <= t.len(),
        forall|k: int| p + 1 <= k < pos_after(t, p) ==> is_white_space(#[trigger] t[k]) && t[k] != '\n',
        pos_after(t, p) < t.len() && t[p] == '\n' ==> !is_white_space(t[pos_after(t, p)]) || t[pos_after(t, p)] == '\n',
{
    lemma_skip_blanks_stops_at_non_blank(t, p + 1);
}

/// The progress of a player at `pos` in `t`.
pub open spec fn progress_at(t: Seq<char>, pos: int) -> Progress {
    if pos == t.len() {
        Progress::Finished
    } else {
        Progress::Ongoing
    }
}

/// Where the cursor goes when the char at `p` of `t` is typed right: past it, and past the
/// blanks that open the next line when it is a line feed.
pub open spec fn pos_after(t: Seq<char>, p: int) -> int {
    if t[p] == '\n' {
        skip_blanks(t, p + 1)
    } else {
        p + 1
    }
}

/// What typing `c` gives for a player in state `before`: nothing at the end of the text,
/// otherwise whether it matched the char under the cursor.
pub open spec fn input_result(before: PlayerState, c: char) -> Option<InputResult> {
    let t = before.spec_text();
    let p = before.spec_pos();
    if p >= t.len() {
        None
    } else if c == t[p] {
        Some(InputResult::Correct(progress_at(t, pos_after(t, p))))
    } else {
        Some(InputResult::Wrong(t[p]))
    }
}

/// How typing `c` takes a player from `before` to `after`: at the end of the text nothing
/// changes; otherwise the cursor moves on a match and the position is marked as a mistake
/// on a mismatch, and the result is recorded and remembered as the last input.
pub open spec fn input_step(before: PlayerState, c: char, after: PlayerState) -> bool {
    let t = before.spec_text();
    let p = before.spec_pos();
    let r = input_result(before, c);
    &&& after.spec_name() == before.spec_name()
    &&& after.spec_str() == before.spec_str()
    &&& p == t.len() ==> after == before
    &&& p < t.len() ==> {
        &&& c == t[p] ==> {
            &&& after.spec_pos() == pos_after(t, p)
            &&& after.spec_errors() == before.spec_errors()
        }
        &&& c != t[p] ==> {
            &&& after.spec_pos() == p
            &&& after.spec_errors() == before.spec_errors().insert(p as usize)
        }
        &&& after.spec_last_input() == r
        &&& after.spec_inputs().drop_last() == before.spec_inputs()
        &&& after.spec_inputs().len() == before.spec_inputs().len() + 1
        &&& Some(after.spec_inputs().last().1) == r
    }
}

impl<'txt> PlayerState<'txt> {
    /// The text, as chars.
    pub closed spec fn spec_text(&self) -> Seq<char> {
        self.chars@
    }

    /// The cursor: the char index of the next char to type.
    pub closed spec fn spec_pos(&self) -> int {
        self.pos as int
    }

    /// The positions at which a wrong key was pressed.
    pub closed spec fn spec_errors(&self) -> Set<usize> {
        self.errors@
    }

    /// The mistyped positions in increasing order.
    pub closed spec fn spec_error_list(&self) -> Seq<usize> {
        sorted_elems(self.errors@)
    }

    pub closed spec fn spec_last_input(&self) -> Option<InputResult> {
        self.last_input
    }

    pub closed spec fn spec_str(&self) -> &'txt str {
        self.text
    }

    /// The player's name.
    pub closed spec fn spec_name(&self) -> String {
        self.name
    }

    /// The inputs recorded so far.
    pub closed spec fn spec_inputs(&self) -> Seq<(crate::record::elapsed::Elapsed, InputResult)> {
        self.recorder.spec_record().inputs@
    }

    /// The recorder, with its clock.
    pub closed spec fn spec_recorder(&self) -> InputResultRecorder {
        self.recorder
    }

    /// The state is consistent: the chars are those of the text, the cursor lies within
    /// it (at its end once finished), every mistake lies before the end, and the record
    /// holds canonical times.
    pub closed spec fn wf(&self) -> bool {
        &&& self.chars@ == self.text@
        &&& self.pos <= self.chars@.len()
        &&& forall|e: usize| self.errors@.contains(e) ==> e < self.chars@.len()
        &&& is_enumerated(self.errors@)
        &&& self.recorder.spec_record().wf()
    }

    pub proof fn lemma_wf(&self)
        requires
            self.wf(),
        ensures
            self.spec_text() == self.spec_str()@,
            0 <= self.spec_pos() <= self.spec_text().len(),
            forall|e: usize| self.spec_errors().contains(e) ==> e < self.spec_text().len(),
            self.spec_errors() == self.spec_error_list().to_set(),
            forall|a: int, b: int|
                0 <= a < b < self.spec_error_list().len() ==> self.spec_error_list()[a]
                    < self.spec_error_list()[b],
            self.spec_recorder().spec_record().wf(),
            self.spec_inputs() == self.spec_recorder().spec_record().inputs@,
    {
    }

    /// A player at the start of `text`, with no input yet.
    pub fn new(name: String, text: &'txt str) -> (s: PlayerState<'txt>)
        ensures
            s.wf(),
            s.spec_name() == name,
            s.spec_str() == text,
            s.spec_text() == text@,
            s.spec_pos() == 0,
            s.spec_last_input() is None,
            s.spec_errors() == Set::<usize>::empty(),
            s.spec_inputs().len() == 0,
    {
        let chars = str_chars(text);
        proof {
            lemma_enumerated_empty();
        }
        PlayerState {
            name,
            pos: 0,
            text,
            chars,
            last_input: None,
            errors: BTreeSet::new(),
            recorder: InputResultRecorder::new(),
        }
    }

    /// Types `input_ch`. When it matches the char under the cursor, the cursor moves past
    /// it (and past the blanks that open the next line, when it was a line feed) and the
    /// result is `Correct` with the new progress. Otherwise the cursor stays, the position
    /// is marked as a mistake and the result is `Wrong` with the expected char. The result
    /// is recorded and remembered as the last input. At the end of the text nothing
    /// happens and `None` comes back.
    pub fn process_input(&mut self, input_ch: char) -> (r: Option<InputResult>)
        requires
            old(self).wf(),
        ensures
            final(self).wf(),
            r == input_result(*old(self), input_ch),
            input_step(*old(self), input_ch, *final(self)),
    {
        if self.pos >= self.chars.len() {
            return None;
        }
        let cursor_ch = self.chars[self.pos];
        let input_result = if input_ch == cursor_ch {
            self.pos = self.pos + 1;
            if cursor_ch == '\n' {
                self.skip_trailing_wp();
            }
            InputResult::Correct(self.get_progress())
        } else {
            self.insert_error();
            InputResult::Wrong(cursor_ch)
        };
        self.recorder.push(input_result);
        self.last_input = Some(input_result);
        self.last_input
    }

    /// Moves the cursor past the blanks (but not a line feed) that follow it.
    fn skip_trailing_wp(&mut self)
        requires
            old(self).wf(),
        ensures
            final(self).wf(),
            final(self).spec_pos() == skip_blanks(old(self).spec_text(), old(self).spec_pos()),
            final(self).chars == old(self).chars,
            final(self).text == old(self).text,
            final(self).name == old(self).name,
            final(self).errors == old(self).errors,
            final(self).last_input == old(self).last_input,
            final(self).recorder == old(self).recorder,
    {
        let ghost start = self.pos as int;
        while self.pos < self.chars.len() && is_whitespace(self.chars[self.pos]) && self.chars[self.pos]
            != '\n'
            invariant
                self.wf(),
                self.chars == old(self).chars,
                self.text == old(self).text,
                self.name == old(self).name,
                self.errors == old(self).errors,
                self.last_input == old(self).last_input,
                self.recorder == old(self).recorder,
                skip_blanks(self.chars@, self.pos as int) == skip_blanks(self.chars@, start),
            decreases self.chars@.len() - self.pos,
        {
            self.pos = self.pos + 1;
        }
    }

    /// Marks the cursor position as mistyped, keeping the list increasing.
    fn insert_error(&mut self)
        requires
            old(self).wf(),
            old(self).spec_pos() < old(self).spec_text().len(),
        ensures
            final(self).wf(),
            final(self).spec_errors() == old(self).spec_errors().insert(old(self).pos),
            final(self).chars == old(self).chars,
            final(self).text == old(self).text,
            final(self).name == old(self).name,
            final(self).pos == old(self).pos,
            final(self).last_input == old(self).last_input,
            final(self).recorder == old(self).recorder,
    {
        let p = self.pos;
        proof {
            lemma_enumerated_insert(self.errors@, p);
        }
        self.errors.insert(p);
    }

    /// The coordinates of the positions mistyped so far, in increasing order of position.
    pub fn get_error_coords(&self) -> (coords: Vec<TextCoord>)
        requires
            self.wf(),
        ensures
            coords@.len() == self.spec_error_list().len(),
            forall|k: int|
                0 <= k < coords@.len() ==> ((#[trigger] coords@[k]).ln as int, coords@[k].x as int)
                    == coord_of_index(self.spec_text(), self.spec_error_list()[k] as int),
    {
        let list = sorted_of(&self.errors);
        proof {
            if self.chars@.len() == 0 && list@.len() > 0 {
                assert(list@.to_set().contains(list@[0]));
            }
        }
        let coords = text_to_line_index(&list, &self.chars);
        match coords {
            Some(c) => c,
            None => Vec::new(),
        }
    }

    /// The coordinate of the cursor; `None` when the text is empty.
    pub fn get_cursor_coord(&self) -> (c: Option<TextCoord>)
        requires
            self.wf(),
        ensures
            self.spec_text().len() == 0 ==> c is None,
            self.spec_text().len() > 0 ==> (c matches Some(coord) && (coord.ln as int, coord.x as int)
                == coord_of_index(self.spec_text(), self.spec_pos())),
    {
        let mut indexes: Vec<usize> = Vec::new();
        indexes.push(self.pos);
        match text_to_line_index(&indexes, &self.chars) {
            Some(coords) => Some(coords[0]),
            None => None,
        }
    }

    /// `Finished` once the cursor is at the end of the text, `Ongoing` before.
    pub fn get_progress(&self) -> (p: Progress)
        requires
            self.wf(),
        ensures
            p == progress_at(self.spec_text(), self.spec_pos()),
    {
        if self.pos == self.chars.len() {
            Progress::Finished
        } else {
            Progress::Ongoing
        }
    }

    /// Puts the cursor at `pos`; refused, with nothing changed, past the end of the text.
    pub fn set_cursor(&mut self, pos: usize) -> (r: Result<(), &'static str>)
        requires
            old(self).wf(),
        ensures
            final(self).wf(),
            pos > old(self).spec_text().len() ==> (r matches Err(m) && m@ == "cursor out of bounds"@ && *final(self) == *old(self)),
            pos <= old(self).spec_text().len() ==> {
                &&& r is Ok
                &&& final(self).spec_pos() == pos
                &&& final(self).spec_text() == old(self).spec_text()
                &&& final(self).spec_str() == old(self).spec_str()
                &&& final(self).spec_errors() == old(self).spec_errors()
                &&& final(self).spec_error_list() == old(self).spec_error_list()
                &&& final(self).spec_last_input() == old(self).spec_last_input()
                &&& final(self).spec_name() == old(self).spec_name()
                &&& final(self).spec_recorder() == old(self).spec_recorder()
            },
    {
        if pos > self.chars.len() {
            Err("cursor out of bounds")
        } else {
            self.pos = pos;
            Ok(())
        }
    }

    /// Moves the cursor one char forward; refused, with nothing changed, at the end.
    pub fn advance_cursor(&mut self) -> (r: Result<(), &'static str>)
        requires
            old(self).wf(),
        ensures
            final(self).wf(),
            old(self).spec_pos() == old(self).spec_text().len() ==> (r matches Err(m) && m@ == "cursor out of bounds"@
                && *final(self) == *old(self)),
            old(self).spec_pos() < old(self).spec_text().len() ==> {
                &&& r is Ok
                &&& final(self).spec_pos() == old(self).spec_pos() + 1
                &&& final(self).spec_text() == old(self).spec_text()
                &&& final(self).spec_str() == old(self).spec_str()
                &&& final(self).spec_errors() == old(self).spec_errors()
                &&& final(self).spec_error_list() == old(self).spec_error_list()
                &&& final(self).spec_last_input() == old(self).spec_last_input()
                &&& final(self).spec_name() == old(self).spec_name()
                &&& final(self).spec_recorder() == old(self).spec_recorder()
            },
    {
        if self.pos >= self.chars.len() {
            return Err("cursor out of bounds");
        }
        self.set_cursor(self.pos + 1)
    }

    /// The player's name.
    pub fn name(&self) -> (n: &String)
        ensures
            *n == self.spec_name(),
    {
        &self.name
    }

    /// The record of the player's inputs.
    pub fn record(&self) -> (r: &crate::record::input::InputResultRecord)
        ensures
            *r == self.spec_recorder().spec_record(),
    {
        self.recorder.record()
    }

    /// Whether the cursor reached the end of the text.
    pub fn is_done(&self) -> (r: bool)
        requires
            self.wf(),
        ensures
            r == (self.spec_pos() == self.spec_text().len()),
    {
        self.get_progress() == Progress::Finished
    }

    /// The cursor position, in chars.
    pub fn cursor(&self) -> (c: usize)
        ensures
            c == self.spec_pos(),
    {
        self.pos
    }

    /// The result of the last input, if any.
    pub fn last_input(&self) -> (r: Option<InputResult>)
        ensures
            r == self.spec_last_input(),
    {
        self.last_input
    }

    /// The text being typed.
    pub fn text(&self) -> (t: &'txt str)
        ensures
            t == self.spec_str(),
    {
        self.text
    }
}


/// Why a pool refused an operation on a player.
#[derive(Debug, Clone, Copy, PartialEq, Eq, Structural)]
pub enum PoolError {
    /// No player of the pool has that name.
    PlayerNotFound,
    /// The player already reached the end of the text.
    EndReached,
    /// The player's cursor cannot move past the end of the text.
    CursorOutOfBounds,
}

impl PoolError {
    /// The message that reports the error.
    pub fn message(&self) -> (m: String)
        ensures
            *self == PoolError::PlayerNotFound ==> m@ == "Player does not exist"@,
            *self == PoolError::EndReached ==> m@ == "Played already reached the end"@,
            *self == PoolError::CursorOutOfBounds ==> m@ == "cursor out of bounds"@,
    {
        match self {
            PoolError::PlayerNotFound => String::from_str("Player does not exist"),
            PoolError::EndReached => String::from_str("Played already reached the end"),
            PoolError::CursorOutOfBounds => String::from_str("cursor out of bounds"),
        }
    }
}

/// The players of a session, all typing the same text, each under a distinct name.
pub struct PlayerPool<'txt> {
    text: &'txt str,
    players: Vec<PlayerState<'txt>>,
}

/// The names that `users` adds to `names`, in order: those not already there.
pub open spec fn names_after(names: Seq<Seq<char>>, users: Seq<Seq<char>>) -> Seq<Seq<char>>
    decreases users.len(),
{
    if users.len() == 0 {
        names
    } else {
        let before = names_after(names, users.drop_last());
        if before.contains(users.last()) {
            before
        } else {
            before.push(users.last())
        }
    }
}

impl<'txt> PlayerPool<'txt> {
    pub closed spec fn spec_str(&self) -> &'txt str {
        self.text
    }

    /// The players, in the order in which they joined.
    pub closed spec fn spec_players(&self) -> Seq<PlayerState<'txt>> {
        self.players@
    }

    /// The names of the players, in order.
    pub open spec fn spec_names(&self) -> Seq<Seq<char>> {
        self.spec_players().map_values(|p: PlayerState<'txt>| p.spec_name()@)
    }

    /// Every player is consistent and types the pool's text, and no two share a name.
    pub closed spec fn wf(&self) -> bool {
        &&& forall|i: int| 0 <= i < self.players@.len() ==> {
            &&& (#[trigger] self.players@[i]).wf()
            &&& self.players@[i].spec_str() == self.text
        }
        &&& forall|i: int, j: int|
            0 <= i < j < self.players@.len() ==> self.players@[i].spec_name()@
                != self.players@[j].spec_name()@
    }

    /// The entry gives the coordinate of a player's cursor that lies before the text's
    /// byte length, with that player's last input.
    pub open spec fn is_cursor_entry(&self, e: (TextCoord, Option<InputResult>)) -> bool {
        exists|j: int|
            0 <= j < self.spec_players().len() && came_from(
                e,
                #[trigger] self.spec_players()[j],
                self.spec_str().len(),
            )
    }

    /// The index of the player named `name`, if there is one.
    pub open spec fn index_of(&self, name: Seq<char>) -> Option<int> {
        if exists|i: int| 0 <= i < self.spec_players().len() && self.spec_players()[i].spec_name()@ == name {
            Some(choose|i: int| 0 <= i < self.spec_players().len() && self.spec_players()[i].spec_name()@ == name)
        } else {
            None
        }
    }

    pub proof fn lemma_wf(&self)
        requires
            self.wf(),
        ensures
            forall|i: int| 0 <= i < self.spec_players().len() ==> {
                &&& (#[trigger] self.spec_players()[i]).wf()
                &&& self.spec_players()[i].spec_str() == self.spec_str()
            },
            forall|i: int, j: int|
                0 <= i < self.spec_players().len() && 0 <= j < self.spec_players().len()
                    && self.spec_players()[i].spec_name()@ == self.spec_players()[j].spec_name()@
                    ==> i == j,
    {
        assert forall|i: int, j: int|
            0 <= i < self.spec_players().len() && 0 <= j < self.spec_players().len()
                && self.spec_players()[i].spec_name()@ == self.spec_players()[j].spec_name()@
                implies i == j by {
            if i < j {
            } else if j < i {
            }
        }
    }

    /// An empty pool for `text`.
    pub fn new(text: &'txt str) -> (p: PlayerPool<'txt>)
        ensures
            p.wf(),
            p.spec_str() == text,
            p.spec_players().len() == 0,
    {
        PlayerPool { text, players: Vec::new() }
    }

    /// The position of the player named `username`.
    fn find(&self, username: &str) -> (r: Option<usize>)
        requires
            self.wf(),
        ensures
            r matches Some(i) ==> i < self.players@.len() && self.players@[i as int].spec_name()@
                == username@,
            r is None ==> forall|i: int|
                0 <= i < self.players@.len() ==> self.players@[i].spec_name()@ != username@,
            r == (match self.index_of(username@) {
                Some(i) => Some(i as usize),
                None => None::<usize>,
            }),
    {
        proof {
            self.lemma_wf();
        }
        let name = username.to_owned();
        let mut i: usize = 0;
        while i < self.players.len()
            invariant
                self.wf(),
                name@ == username@,
                i <= self.players@.len(),
                forall|k: int| 0 <= k < i ==> self.players@[k].spec_name()@ != username@,
            decreases self.players@.len() - i,
        {
            if self.players[i].name == name {
                proof {
                    self.lemma_wf();
                    let j = choose|j: int| 0 <= j < self.spec_players().len() && self.spec_players()[j].spec_name()@ == username@;
                    assert(j == i);
                }
                return Some(i);
            }
            i = i + 1;
        }
        None
    }

    /// Adds a player at the start of the text for each name of `usernames` that the pool
    /// does not hold yet; the players already there are kept as they are.
    pub fn with_players(self, usernames: &[&str]) -> (p: PlayerPool<'txt>)
        requires
            self.wf(),
        ensures
            p.wf(),
            p.spec_str() == self.spec_str(),
            p.spec_names() == names_after(self.spec_names(), usernames@.map_values(|u: &str| u@)),
            p.spec_players().take(self.spec_players().len() as int) == self.spec_players(),
            forall|i: int|
                self.spec_players().len() <= i < p.spec_players().len() ==> {
                    &&& (#[trigger] p.spec_players()[i]).spec_pos() == 0
                    &&& p.spec_players()[i].spec_last_input() is None
                    &&& p.spec_players()[i].spec_errors() == Set::<usize>::empty()
                    &&& p.spec_players()[i].spec_inputs().len() == 0
                },
    {
        let mut pool = self;
        let ghost users = usernames@.map_values(|u: &str| u@);
        let mut k: usize = 0;
        while k < usernames.len()
            invariant
                pool.wf(),
                pool.text == self.text,
                users == usernames@.map_values(|u: &str| u@),
                k <= usernames@.len(),
                pool.spec_names() == names_after(self.spec_names(), users.take(k as int)),
                pool.spec_players().take(self.spec_players().len() as int) == self.spec_players(),
                pool.spec_players().len() >= self.spec_players().len(),
                forall|i: int|
                    self.spec_players().len() <= i < pool.spec_players().len() ==> {
                        &&& (#[trigger] pool.spec_players()[i]).spec_pos() == 0
                        &&& pool.spec_players()[i].spec_last_input() is None
                        &&& pool.spec_players()[i].spec_errors() == Set::<usize>::empty()
                        &&& pool.spec_players()[i].spec_inputs().len() == 0
                    },
            decreases usernames@.len() - k,
        {
            let user = usernames[k];
            let ghost before = pool.spec_names();
            proof {
                assert(users.take(k + 1).drop_last() =~= users.take(k as int));
            }
            match pool.find(user) {
                Some(_) => {
                    proof {
                        let i = choose|i: int| 0 <= i < pool.spec_players().len() && pool.spec_players()[i].spec_name()@ == user@;
                        assert(before[i] == user@);
                    }
                },
                None => {
                    proof {
                        assert forall|i: int| 0 <= i < before.len() implies before[i] != user@ by {
                            assert(before[i] == pool.players@[i].spec_name()@);
                        }
                    }
                    let player = PlayerState::new(user.to_owned(), pool.text);
                    pool.players.push(player);
                    proof {
                        assert(pool.spec_names() =~= before.push(user@));
                        assert(pool.spec_players().take(self.spec_players().len() as int)
                            =~= self.spec_players()) by {
                            assert forall|i: int| 0 <= i < self.spec_players().len() implies
                                pool.spec_players()[i] == self.spec_players()[i] by {
                                assert(pool.spec_players().take(self.spec_players().len() as int)[i] == self.spec_players()[i]);
                            }
                        }
                    }
                },
            }
            k = k + 1;
        }
        assert(users.take(usernames@.len() as int) =~= users);
        pool
    }

    /// Types `input_ch` for the player named `username`, as `PlayerState::process_input`
    /// does; refused when there is no such player or the player already reached the end.
    pub fn process_input(&mut self, username: &str, input_ch: char) -> (r: Result<InputResult, PoolError>)
        requires
            old(self).wf(),
        ensures
            final(self).wf(),
            final(self).spec_str() == old(self).spec_str(),
            final(self).spec_names() == old(self).spec_names(),
            old(self).index_of(username@) is None ==> (r == Err::<InputResult, PoolError>(PoolError::PlayerNotFound)
                && final(self).spec_players() == old(self).spec_players()),
            old(self).index_of(username@) matches Some(i) ==> {
                let before = old(self).spec_players()[i];
                let after = final(self).spec_players()[i];
                &&& final(self).spec_players() == old(self).spec_players().update(i, after)
                &&& input_step(before, input_ch, after)
                &&& before.spec_pos() == before.spec_text().len() ==> r == Err::<InputResult, PoolError>(PoolError::EndReached)
                &&& before.spec_pos() < before.spec_text().len() ==> (r matches Ok(res) && Some(res) == input_result(before, input_ch))
            },
    {
        proof {
            self.lemma_wf();
        }
        let i = match self.find(username) {
            Some(i) => i,
            None => return Err(PoolError::PlayerNotFound),
        };
        let ghost before = self.players@[i as int];
        let result = self.players[i].process_input(input_ch);
        proof {
            let n = self.players@;
            assert forall|a: int| 0 <= a < n.len() implies {
                &&& (#[trigger] n[a]).wf()
                &&& n[a].spec_str() == self.text
            } by {
                if a != i {
                    assert(n[a] == old(self).players@[a]);
                }
            }
            assert forall|a: int, b: int| 0 <= a < b < n.len() implies n[a].spec_name()@ != n[b].spec_name()@ by {
                assert(old(self).players@[a].spec_name()@ != old(self).players@[b].spec_name()@);
            }
            assert(self.spec_names() =~= old(self).spec_names());
        }
        match result {
            Some(r) => Ok(r),
            None => Err(PoolError::EndReached),
        }
    }

    /// Moves the cursor of the player named `username` one char forward; refused when there
    /// is no such player or the player is at the end of the text.
    pub fn advance_player(&mut self, username: &str) -> (r: Result<(), PoolError>)
        requires
            old(self).wf(),
        ensures
            final(self).wf(),
            final(self).spec_str() == old(self).spec_str(),
            final(self).spec_names() == old(self).spec_names(),
            old(self).index_of(username@) is None ==> (r == Err::<(), PoolError>(PoolError::PlayerNotFound)
                && final(self).spec_players() == old(self).spec_players()),
            old(self).index_of(username@) matches Some(i) ==> {
                let before = old(self).spec_players()[i];
                let after = final(self).spec_players()[i];
                &&& final(self).spec_players() == old(self).spec_players().update(i, after)
                &&& before.spec_pos() == before.spec_text().len() ==> (r
                    == Err::<(), PoolError>(PoolError::CursorOutOfBounds) && after == before)
                &&& before.spec_pos() < before.spec_text().len() ==> {
                    &&& r is Ok
                    &&& after.spec_pos() == before.spec_pos() + 1
                    &&& after.spec_text() == before.spec_text()
                    &&& after.spec_errors() == before.spec_errors()
                    &&& after.spec_last_input() == before.spec_last_input()
                    &&& after.spec_recorder() == before.spec_recorder()
                }
            },
    {
        proof {
            self.lemma_wf();
        }
        let i = match self.find(username) {
            Some(i) => i,
            None => return Err(PoolError::PlayerNotFound),
        };
        let result = self.players[i].advance_cursor();
        proof {
            let n = self.players@;
            assert forall|a: int| 0 <= a < n.len() implies {
                &&& (#[trigger] n[a]).wf()
                &&& n[a].spec_str() == self.text
            } by {
                if a != i {
                    assert(n[a] == old(self).players@[a]);
                }
            }
            assert forall|a: int, b: int| 0 <= a < b < n.len() implies n[a].spec_name()@ != n[b].spec_name()@ by {
                assert(old(self).players@[a].spec_name()@ != old(self).players@[b].spec_name()@);
            }
            assert(self.spec_names() =~= old(self).spec_names());
        }
        match result {
            Ok(()) => Ok(()),
            Err(_) => Err(PoolError::CursorOutOfBounds),
        }
    }

    /// The player named `username`, if there is one.
    pub fn player(&self, username: &str) -> (r: Option<&PlayerState<'txt>>)
        requires
            self.wf(),
        ensures
            self.index_of(username@) is None ==> r is None,
            self.index_of(username@) matches Some(i) ==> r == Some(&self.spec_players()[i]),
    {
        match self.find(username) {
            Some(i) => Some(&self.players[i]),
            None => None,
        }
    }

    /// The players, in the order in which they joined.
    pub fn players(&self) -> (r: &Vec<PlayerState<'txt>>)
        ensures
            r@ == self.spec_players(),
    {
        &self.players
    }

    /// The text the players type.
    pub fn text(&self) -> (t: &'txt str)
        ensures
            t == self.spec_str(),
    {
        self.text
    }

    /// Takes the player named `username` out of the pool and hands it back; the others keep
    /// their order. Nothing changes when there is no such player.
    pub fn remove(&mut self, username: &str) -> (r: Option<PlayerState<'txt>>)
        requires
            old(self).wf(),
        ensures
            final(self).wf(),
            final(self).spec_str() == old(self).spec_str(),
            old(self).index_of(username@) is None ==> r is None && final(self).spec_players()
                == old(self).spec_players(),
            old(self).index_of(username@) matches Some(i) ==> r == Some(old(self).spec_players()[i])
                && final(self).spec_players() == old(self).spec_players().remove(i),
    {
        proof {
            self.lemma_wf();
        }
        match self.find(username) {
            Some(i) => {
                let p = self.players.remove(i);
                proof {
                    let n = self.players@;
                    let o = old(self).players@;
                    assert forall|a: int| 0 <= a < n.len() implies n[a] == o[if a < i { a } else { a + 1 }] by {}
                    assert forall|a: int| 0 <= a < n.len() implies {
                        &&& (#[trigger] n[a]).wf()
                        &&& n[a].spec_str() == self.text
                    } by {
                        assert(n[a] == o[if a < i { a } else { a + 1 }]);
                    }
                    assert forall|a: int, b: int| 0 <= a < b < n.len() implies n[a].spec_name()@ != n[b].spec_name()@ by {
                        assert(n[a] == o[if a < i { a } else { a + 1 }]);
                        assert(n[b] == o[if b < i { b } else { b + 1 }]);
                    }
                }
                Some(p)
            },
            None => None,
        }
    }

    /// Whether every player reached the end of the text.
    pub fn are_done(&self) -> (r: bool)
        requires
            self.wf(),
        ensures
            r == forall|i: int| 0 <= i < self.spec_players().len() ==> (#[trigger] self.spec_players()[i]).spec_pos()
                == self.spec_players()[i].spec_text().len(),
    {
        proof {
            self.lemma_wf();
        }
        let mut i: usize = 0;
        while i < self.players.len()
            invariant
                self.wf(),
                i <= self.players@.len(),
                forall|k: int| 0 <= k < i ==> (#[trigger] self.spec_players()[k]).spec_pos()
                    == self.spec_players()[k].spec_text().len(),
            decreases self.players@.len() - i,
        {
            proof {
                self.lemma_wf();
            }
            if !self.players[i].is_done() {
                return false;
            }
            i = i + 1;
        }
        true
    }

    /// The coordinate of each player's cursor that lies before the text's byte length,
    /// each coordinate once, with the last input of a player whose cursor is there.
    #[verifier::rlimit(40)]
    pub fn get_cursor_coords(&self) -> (r: Vec<(TextCoord, Option<InputResult>)>)
        requires
            self.wf(),
        ensures
            forall|a: int, b: int| 0 <= a < b < r@.len() ==> r@[a].0 != r@[b].0,
            forall|k: int| 0 <= k < r@.len() ==> self.is_cursor_entry(#[trigger] r@[k]),
            forall|i: int|
                0 <= i < self.spec_players().len() && (#[trigger] self.spec_players()[i]).spec_pos()
                    < self.spec_str().len() ==> exists|k: int|
                    0 <= k < r@.len() && holds_cursor_of(r@[k], self.spec_players()[i]),
    {
        let byte_len = self.text.len();
        let mut r: Vec<(TextCoord, Option<InputResult>)> = Vec::new();
        let ghost mut from: Seq<int> = Seq::empty();
        let ghost mut cover: Seq<int> = Seq::empty();
        let mut i: usize = 0;
        while i < self.players.len()
            invariant
                self.wf(),
                byte_len == self.text.len(),
                i <= self.players@.len(),
                forall|a: int, b: int| 0 <= a < b < r@.len() ==> r@[a].0 != r@[b].0,
                from.len() == r@.len(),
                forall|k: int|
                    #![trigger from[k]]
                    0 <= k < r@.len() ==> 0 <= from[k] < i && came_from(
                        r@[k],
                        self.players@[from[k]],
                        byte_len,
                    ),
                cover.len() == i,
                forall|j: int|
                    #![trigger cover[j]]
                    0 <= j < i && self.players@[j].spec_pos() < byte_len ==> 0 <= cover[j] < r@.len()
                        && holds_cursor_of(r@[cover[j]], self.players@[j]),
            decreases self.players@.len() - i,
        {
            let p = &self.players[i];
            assert(p.wf());
            let pos = p.cursor();
            if pos < byte_len {
                if let Some(c) = index_to_coord(&p.chars, pos) {
                    let input = p.last_input();
                    let ghost old_r = r@;
                    let k = upsert_coord(&mut r, c, input);
                    proof {
                        from = if k < old_r.len() {
                            from.update(k as int, i as int)
                        } else {
                            from.push(i as int)
                        };
                        cover = cover.push(k as int);
                        assert forall|kk: int|
                            #![trigger from[kk]]
                            0 <= kk < r@.len() implies 0 <= from[kk] < i + 1 && came_from(
                            r@[kk],
                            self.players@[from[kk]],
                            byte_len,
                        ) by {
                            if kk != k {
                                assert(r@[kk] == old_r[kk]);
                            }
                        }
                        assert forall|j: int|
                            #![trigger cover[j]]
                            0 <= j < i + 1 && self.players@[j].spec_pos() < byte_len implies 0
                            <= cover[j] < r@.len() && holds_cursor_of(r@[cover[j]], self.players@[j]) by {
                            if j < i && cover[j] != k {
                                assert(r@[cover[j]] == old_r[cover[j]]);
                            }
                        }
                    }
                } else {
                    assert(false);
                }
            } else {
                proof {
                    cover = cover.push(-1);
                }
            }
            i = i + 1;
        }
        proof {
            assert forall|k: int| 0 <= k < r@.len() implies self.is_cursor_entry(#[trigger] r@[k]) by {
                assert(came_from(r@[k], self.spec_players()[from[k]], self.spec_str().len()));
            }
            assert forall|j: int|
                0 <= j < self.spec_players().len() && (#[trigger] self.spec_players()[j]).spec_pos()
                    < self.spec_str().len() implies exists|k: int|
                0 <= k < r@.len() && holds_cursor_of(r@[k], self.spec_players()[j]) by {
                assert(holds_cursor_of(r@[cover[j]], self.spec_players()[j]));
            }
        }
        r
    }
}

/// The entry places the cursor of player `p`, which lies before `byte_len`, and carries its
/// last input.
pub open spec fn came_from(entry: (TextCoord, Option<InputResult>), p: PlayerState, byte_len: usize) -> bool {
    &&& p.spec_pos() < byte_len
    &&& holds_cursor_of(entry, p)
    &&& entry.1 == p.spec_last_input()
}

/// The entry's coordinate is that of the cursor of `p`.
pub open spec fn holds_cursor_of(entry: (TextCoord, Option<InputResult>), p: PlayerState) -> bool {
    (entry.0.ln as int, entry.0.x as int) == coord_of_index(p.spec_text(), p.spec_pos())
}

/// Sets the entry of coordinate `c` to `(c, input)`, adding it at the end when there is
/// none, and returns its index; the other entries stay where they are.
fn upsert_coord(r: &mut Vec<(TextCoord, Option<InputResult>)>, c: TextCoord, input: Option<InputResult>) -> (k: usize)
    requires
        forall|a: int, b: int| 0 <= a < b < old(r)@.len() ==> old(r)@[a].0 != old(r)@[b].0,
    ensures
        forall|a: int, b: int| 0 <= a < b < final(r)@.len() ==> final(r)@[a].0 != final(r)@[b].0,
        k < final(r)@.len(),
        final(r)@[k as int] == (c, input),
        k < old(r)@.len() ==> final(r)@.len() == old(r)@.len() && old(r)@[k as int].0 == c,
        k >= old(r)@.len() ==> k == old(r)@.len() && final(r)@.len() == old(r)@.len() + 1,
        forall|a: int| 0 <= a < old(r)@.len() && a != k ==> final(r)@[a] == old(r)@[a],
{
    let mut k: usize = 0;
    while k < r.len() && r[k].0 != c
        invariant
            k <= r@.len(),
            forall|a: int| 0 <= a < k ==> r@[a].0 != c,
        decreases r@.len() - k,
    {
        k = k + 1;
    }
    if k < r.len() {
        r.set(k, (c, input));
    } else {
        r.push((c, input));
    }
    k
}

} // verus!
