//! The `ropey::Rope` text buffer, its lines as ropey defines them, and the calls the
//! editor makes on it.
use ropey::{Rope, RopeSlice};
use vstd::prelude::*;

verus! {

#[verifier::external_type_specification]
#[verifier::external_body]
pub struct ExRope(Rope);

/// The chars held by a rope, in order.
pub uninterp spec fn rope_text(r: Rope) -> Seq<char>;

#[verifier::external_type_specification]
#[verifier::external_body]
pub struct ExRopeSlice<'a>(RopeSlice<'a>);

/// The chars a rope slice shows, in order.
pub uninterp spec fn rope_slice_text(s: RopeSlice) -> Seq<char>;

/// The chars ropey takes for line breaks (with its default `unicode_lines` feature): LF,
/// VT, FF, CR, NEL, LINE SEPARATOR and PARAGRAPH SEPARATOR.
pub open spec fn is_line_break_char(c: char) -> bool {
    ||| c == '\n'
    ||| c == '\u{0B}'
    ||| c == '\u{0C}'
    ||| c == '\r'
    ||| c == '\u{85}'
    ||| c == '\u{2028}'
    ||| c == '\u{2029}'
}

/// A line break ends right before position `j` of `s`: the char before it is a break and
/// is not the CR of a CRLF pair, which counts as one break.
pub open spec fn break_ends_at(s: Seq<char>, j: int) -> bool {
    &&& 1 <= j <= s.len()
    &&& is_line_break_char(s[j - 1])
    &&& !(s[j - 1] == '\r' && j < s.len() && s[j] == '\n')
}

/// The line of position `i`: the number of line breaks that end at or before it.
pub open spec fn line_of(s: Seq<char>, i: int) -> nat
    decreases i,
{
    if i <= 0 {
        0
    } else {
        line_of(s, i - 1) + if break_ends_at(s, i) {
            1nat
        } else {
            0nat
        }
    }
}

/// The index of the last line of `s`; a text always has at least one line.
pub open spec fn last_line(s: Seq<char>) -> nat {
    line_of(s, s.len() as int)
}

/// The first position from `j` on whose line is at least `l`, or the end of `s`.
pub open spec fn first_at_least(s: Seq<char>, l: nat, j: int) -> int
    decreases s.len() - j,
{
    if j >= s.len() {
        s.len() as int
    } else if line_of(s, j) >= l {
        j
    } else {
        first_at_least(s, l, j + 1)
    }
}

/// The position where line `l` starts; the end of `s` for the line after the last.
pub open spec fn line_start(s: Seq<char>, l: nat) -> int {
    first_at_least(s, l, 0)
}

/// `line_of` never decreases, and grows by at most one per position.
pub proof fn lemma_line_of_mono(s: Seq<char>, i: int, j: int)
    requires
        i <= j,
    ensures
        line_of(s, i) <= line_of(s, j),
        line_of(s, j) <= line_of(s, i) + (j - i),
    decreases j - i,
{
    if i < j {
        lemma_line_of_mono(s, i, j - 1);
        if j <= 0 {
        }
    }
}

proof fn lemma_first_at_least(s: Seq<char>, l: nat, j0: int, j: int)
    requires
        0 <= j0 <= s.len(),
        line_of(s, j0) <= l,
        l <= last_line(s),
    ensures
        j0 <= first_at_least(s, l, j0) <= s.len(),
        line_of(s, first_at_least(s, l, j0)) == l,
        j0 <= j <= s.len() && line_of(s, j) >= l ==> first_at_least(s, l, j0) <= j,
    decreases s.len() - j0,
{
    if j0 >= s.len() {
    } else if line_of(s, j0) >= l {
    } else {
        lemma_line_of_mono(s, j0, j0 + 1);
        lemma_first_at_least(s, l, j0 + 1, j);
    }
}

/// Line `l` of a text starts inside it, at a position of line `l`, before every position
/// of a later line.
pub proof fn lemma_line_start(s: Seq<char>, l: nat, j: int)
    requires
        l <= last_line(s),
    ensures
        0 <= line_start(s, l) <= s.len(),
        line_of(s, line_start(s, l)) == l,
        0 <= j <= s.len() && line_of(s, j) >= l ==> line_start(s, l) <= j,
{
    lemma_first_at_least(s, l, 0, j);
}

/// The line after the last starts at the end of the text.
pub proof fn lemma_line_start_past_last(s: Seq<char>)
    ensures
        line_start(s, last_line(s) + 1) == s.len(),
{
    lemma_past_last_from(s, 0);
}

proof fn lemma_past_last_from(s: Seq<char>, j: int)
    requires
        0 <= j,
    ensures
        first_at_least(s, last_line(s) + 1, j) == s.len(),
    decreases s.len() - j,
{
    if j < s.len() {
        lemma_line_of_mono(s, j, s.len() as int);
        lemma_past_last_from(s, j + 1);
    }
}

/// Each position lies between the start of its line and the start of the next one.
pub proof fn lemma_in_line(s: Seq<char>, i: int)
    requires
        0 <= i <= s.len(),
    ensures
        line_of(s, i) <= last_line(s),
        line_start(s, line_of(s, i)) <= i,
        i <= line_start(s, line_of(s, i) + 1),
        line_of(s, i) < last_line(s) ==> i < line_start(s, line_of(s, i) + 1),
{
    let l = line_of(s, i);
    lemma_line_of_mono(s, i, s.len() as int);
    lemma_line_start(s, l, i);
    if l < last_line(s) {
        lemma_line_start(s, l + 1, i);
        let n = line_start(s, l + 1);
        if n <= i {
            lemma_line_of_mono(s, n, i);
        }
    } else {
        lemma_line_start_past_last(s);
    }
}

/// Lines start in order: a line before the last starts before the next one, and the last
/// starts no later than the end.
pub proof fn lemma_line_starts_ordered(s: Seq<char>, l: nat)
    requires
        l <= last_line(s),
    ensures
        line_start(s, l) <= line_start(s, l + 1),
        l < last_line(s) ==> line_start(s, l) < line_start(s, l + 1),
        line_start(s, l + 1) <= s.len(),
{
    lemma_line_start(s, l, 0);
    if l < last_line(s) {
        lemma_line_start(s, l + 1, 0);
        lemma_line_start(s, l, line_start(s, l + 1));
    } else {
        lemma_line_start_past_last(s);
    }
}

/// Calls `Rope::from_str`: a rope holding the chars of `text`.
#[verifier::external_body]
pub(crate) fn rope_from_str(text: &str) -> (r: Rope)
    ensures
        rope_text(r) == text@,
{
    Rope::from_str(text)
}

/// Calls `Rope::len_chars`: the number of chars of the rope.
#[verifier::external_body]
pub(crate) fn rope_len_chars(r: &Rope) -> (n: usize)
    ensures
        n == rope_text(*r).len(),
{
    r.len_chars()
}

/// Calls `Rope::len_lines`: one more than the number of line breaks.
#[verifier::external_body]
pub(crate) fn rope_len_lines(r: &Rope) -> (n: usize)
    ensures
        n == last_line(rope_text(*r)) + 1,
{
    r.len_lines()
}

/// Calls `Rope::char`, which panics past the last char: the char at `char_idx`.
#[verifier::external_body]
pub(crate) fn rope_char(r: &Rope, char_idx: usize) -> (c: char)
    requires
        char_idx < rope_text(*r).len(),
    ensures
        c == rope_text(*r)[char_idx as int],
{
    r.char(char_idx)
}

/// Calls `Rope::char_to_line`, which panics past the end: the number of line breaks that
/// end at or before `char_idx`.
#[verifier::external_body]
pub(crate) fn rope_char_to_line(r: &Rope, char_idx: usize) -> (l: usize)
    requires
        char_idx <= rope_text(*r).len(),
    ensures
        l == line_of(rope_text(*r), char_idx as int),
{
    r.char_to_line(char_idx)
}

/// Calls `Rope::line_to_char`, which panics past the line after the last: where line
/// `line_idx` starts, or the end of the text for the line after the last.
#[verifier::external_body]
pub(crate) fn rope_line_to_char(r: &Rope, line_idx: usize) -> (c: usize)
    requires
        line_idx <= last_line(rope_text(*r)) + 1,
    ensures
        c == line_start(rope_text(*r), line_idx as nat),
{
    r.line_to_char(line_idx)
}

/// Calls `Rope::insert_char`, which panics past the end: `ch` is inserted before the char
/// at `char_idx`.
#[verifier::external_body]
pub(crate) fn rope_insert_char(r: &mut Rope, char_idx: usize, ch: char)
    requires
        char_idx <= rope_text(*old(r)).len(),
    ensures
        rope_text(*final(r)) == rope_text(*old(r)).take(char_idx as int).push(ch) + rope_text(
            *old(r),
        ).skip(char_idx as int),
{
    r.insert_char(char_idx, ch)
}

/// Calls `Rope::insert`, which panics past the end: the chars of `text` are inserted
/// before the char at `char_idx`.
#[verifier::external_body]
pub(crate) fn rope_insert(r: &mut Rope, char_idx: usize, text: &str)
    requires
        char_idx <= rope_text(*old(r)).len(),
    ensures
        rope_text(*final(r)) == rope_text(*old(r)).take(char_idx as int) + text@ + rope_text(
            *old(r),
        ).skip(char_idx as int),
{
    r.insert(char_idx, text)
}

/// Calls `Rope::slice` on `start..end`, which panics on a range that is reversed or runs
/// past the end: a view of the chars from `start` up to `end`.
#[verifier::external_body]
pub(crate) fn rope_slice<'a>(r: &'a Rope, start: usize, end: usize) -> (s: RopeSlice<'a>)
    requires
        start <= end <= rope_text(*r).len(),
    ensures
        rope_slice_text(s) == rope_text(*r).subrange(start as int, end as int),
{
    r.slice(start..end)
}

/// Calls `RopeSlice::to_string` (through its `Display`, which writes the slice's chunks in
/// order): the chars of the slice.
#[verifier::external_body]
pub(crate) fn rope_slice_to_string(s: &RopeSlice) -> (r: String)
    ensures
        r@ == rope_slice_text(*s),
{
    s.to_string()
}

} // verus!
