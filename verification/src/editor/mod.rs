//! A text editor buffer over a rope, with a cursor that moves by grapheme cluster and
//! remembers the column it was asked to keep when moving between lines.
pub mod rope;
pub mod rope_iter;

use self::rope::{
    break_ends_at, last_line, lemma_in_line, lemma_line_start, lemma_line_starts_ordered,
    line_of, line_start, rope_char, rope_char_to_line, rope_from_str, rope_insert,
    rope_insert_char, rope_len_chars, rope_len_lines, rope_line_to_char, rope_slice,
    rope_slice_text, rope_slice_to_string, rope_text,
};
use self::rope_iter::{next_grapheme_boundary, prev_grapheme_boundary, RopeGraphemes};
use crate::graphemes::{boundary_after, boundary_before, grapheme_clusters, grapheme_count, lemma_count_le_len};
use ropey::Rope;
use vstd::prelude::*;
use vstd::string::StrSliceExecFns;

verus! {

/// A cursor position: the line, then the number of grapheme clusters before it on that
/// line.
#[derive(Default, Debug, Clone, PartialEq, Eq, Structural)]
pub struct Coord(pub usize, pub usize);

/// A direction to move the cursor in.
#[derive(Debug, Clone, PartialEq, Eq, Structural)]
pub enum Direction {
    Left,
    Right,
    Up,
    Down,
}

/// The column of position `i` of `s`: the number of grapheme clusters between the start of
/// its line and `i`.
pub open spec fn column(s: Seq<char>, i: int) -> nat {
    grapheme_count(s.subrange(line_start(s, line_of(s, i)), i))
}

/// `s` with the chars `t` inserted at position `i`.
pub open spec fn inserted(s: Seq<char>, i: int, t: Seq<char>) -> Seq<char> {
    s.take(i) + t + s.skip(i)
}

/// Where moving to line `target` puts the cursor when the line's visible part runs from
/// `start` to `end` and the column to keep is `keep`: as far along as `keep`, but no
/// further than the number of clusters of that part.
pub open spec fn line_target(s: Seq<char>, start: int, end: int, keep: nat) -> int {
    let n = grapheme_count(s.subrange(start, end));
    start + if n < keep {
        n
    } else {
        keep
    }
}

/// A char inserted at the cursor is the char at the cursor afterwards, and the char after
/// the cursor once the cursor moved past it.
pub proof fn lemma_insert_then_read(s: Seq<char>, i: int, c: char)
    requires
        0 <= i <= s.len(),
    ensures
        inserted(s, i, seq![c])[i] == c,
        inserted(s, i, seq![c]).len() == s.len() + 1,
        inserted(s, i, seq![c]).take(i + 1) == s.take(i).push(c),
{
    assert(inserted(s, i, seq![c]).take(i + 1) =~= s.take(i).push(c));
}

/// The editor buffer: the text, the cursor as a char index into it, and the column that
/// vertical moves try to keep.
pub struct EditorState {
    index: usize,
    text: Rope,
    buffered_column_offset: usize,
    reset_col: bool,
}

impl EditorState {
    /// The text.
    pub closed spec fn spec_text(&self) -> Seq<char> {
        rope_text(self.text)
    }

    /// The char index of the cursor.
    pub closed spec fn spec_index(&self) -> nat {
        self.index as nat
    }

    /// The column that vertical moves try to keep.
    pub closed spec fn spec_keep(&self) -> nat {
        self.buffered_column_offset as nat
    }

    /// Whether the next horizontal move first takes the cursor's own column as the column
    /// to keep (after a vertical move).
    pub closed spec fn spec_reset(&self) -> bool {
        self.reset_col
    }

    /// The cursor stands inside the text.
    pub open spec fn wf(&self) -> bool {
        self.spec_index() <= self.spec_text().len()
    }

    /// An empty buffer with the cursor at its start.
    pub fn new() -> (e: Self)
        ensures
            e.wf(),
            e.spec_text() == Seq::<char>::empty(),
            e.spec_index() == 0,
            e.spec_keep() == 0,
            !e.spec_reset(),
    {
        proof {
            reveal_strlit("");
        }
        EditorState { index: 0, buffered_column_offset: 0, text: rope_from_str(""), reset_col: false }
    }

    /// The number of grapheme clusters of the text from `start` up to `end`.
    fn count_graphemes(&self, start: usize, end: usize) -> (n: usize)
        requires
            start <= end <= self.spec_text().len(),
        ensures
            n == grapheme_count(self.spec_text().subrange(start as int, end as int)),
            n <= end - start,
    {
        let slice = rope_slice(&self.text, start, end);
        let mut it = RopeGraphemes::new(&slice);
        let ghost total = grapheme_count(rope_slice_text(slice));
        proof {
            lemma_count_le_len(rope_slice_text(slice), grapheme_clusters(rope_slice_text(slice)));
        }
        let mut n: usize = 0;
        loop
            invariant
                it.wf(),
                n + it.rest().len() == total,
                total == grapheme_count(self.spec_text().subrange(start as int, end as int)),
                total <= end - start,
            decreases it.rest().len(),
        {
            match it.next() {
                Some(_) => n = n + 1,
                None => return n,
            }
        }
    }

    /// The column of the cursor.
    fn column_offset(&self) -> (x: usize)
        requires
            self.wf(),
        ensures
            x == column(self.spec_text(), self.spec_index() as int),
            x <= self.spec_index(),
    {
        proof {
            lemma_in_line(self.spec_text(), self.index as int);
        }
        let ln = rope_char_to_line(&self.text, self.index);
        let ln_start = rope_line_to_char(&self.text, ln);
        self.count_graphemes(ln_start, self.index)
    }

    /// Inserts `c` at the cursor, which stays before it; the column to keep becomes the
    /// cursor's column.
    pub fn insert_char(&mut self, c: char)
        requires
            old(self).wf(),
        ensures
            final(self).wf(),
            final(self).spec_text() == inserted(old(self).spec_text(), old(self).spec_index() as int, seq![c]),
            final(self).spec_index() == old(self).spec_index(),
            final(self).spec_keep() == column(final(self).spec_text(), final(self).spec_index() as int),
            final(self).spec_reset() == old(self).spec_reset(),
    {
        rope_insert_char(&mut self.text, self.index, c);
        proof {
            assert(rope_text(self.text) =~= inserted(rope_text(old(self).text), old(self).index as int, seq![c]));
        }
        self.buffered_column_offset = self.column_offset();
    }

    /// Inserts the chars of `slice` at the cursor, which stays before them; the column to
    /// keep becomes the cursor's column.
    pub fn insert(&mut self, slice: &str)
        requires
            old(self).wf(),
        ensures
            final(self).wf(),
            final(self).spec_text() == inserted(old(self).spec_text(), old(self).spec_index() as int, slice@),
            final(self).spec_index() == old(self).spec_index(),
            final(self).spec_keep() == column(final(self).spec_text(), final(self).spec_index() as int),
            final(self).spec_reset() == old(self).spec_reset(),
    {
        rope_insert(&mut self.text, self.index, slice);
        self.buffered_column_offset = self.column_offset();
    }

    /// Inserts `c` at the cursor and moves the cursor past it.
    pub fn append_char(&mut self, c: char)
        requires
            old(self).wf(),
        ensures
            final(self).wf(),
            final(self).spec_text() == inserted(old(self).spec_text(), old(self).spec_index() as int, seq![c]),
            final(self).spec_index() == old(self).spec_index() + 1,
            final(self).spec_keep() == column(final(self).spec_text(), final(self).spec_index() as int),
            final(self).spec_reset() == old(self).spec_reset(),
    {
        self.insert_char(c);
        let len = rope_len_chars(&self.text);
        self.index = self.index + 1;
        self.buffered_column_offset = self.column_offset();
    }

    /// Inserts the chars of `slice` at the cursor and moves the cursor past them.
    pub fn append(&mut self, slice: &str)
        requires
            old(self).wf(),
        ensures
            final(self).wf(),
            final(self).spec_text() == inserted(old(self).spec_text(), old(self).spec_index() as int, slice@),
            final(self).spec_index() == old(self).spec_index() + slice@.len(),
            final(self).spec_keep() == column(final(self).spec_text(), final(self).spec_index() as int),
            final(self).spec_reset() == old(self).spec_reset(),
    {
        self.insert(slice);
        let len = rope_len_chars(&self.text);
        let n = slice.unicode_len();
        self.index = self.index + n;
        self.buffered_column_offset = self.column_offset();
    }

    /// The char at the cursor.
    pub fn at_cursor(&self) -> (c: char)
        requires
            self.spec_index() < self.spec_text().len(),
        ensures
            c == self.spec_text()[self.spec_index() as int],
    {
        rope_char(&self.text, self.index)
    }

    /// The cursor as a line and a column.
    pub fn cursor(&self) -> (c: Coord)
        requires
            self.wf(),
        ensures
            c.0 == line_of(self.spec_text(), self.spec_index() as int),
            c.1 == column(self.spec_text(), self.spec_index() as int),
    {
        let ln = rope_char_to_line(&self.text, self.index);
        let x = self.column_offset();
        Coord(ln, x)
    }

    /// After a horizontal move: the column to keep is the cursor's own column if a vertical
    /// move came before, and otherwise steps one cluster right (or left, stopping at 0).
    fn update_buffered_offset(&mut self, forward: bool)
        requires
            old(self).wf(),
            forward && !old(self).spec_reset() ==> old(self).spec_keep() < usize::MAX,
        ensures
            final(self).wf(),
            final(self).spec_text() == old(self).spec_text(),
            final(self).spec_index() == old(self).spec_index(),
            !final(self).spec_reset(),
            final(self).spec_keep() == if old(self).spec_reset() {
                column(old(self).spec_text(), old(self).spec_index() as int) as int
            } else if forward {
                old(self).spec_keep() + 1int
            } else if old(self).spec_keep() == 0 {
                0int
            } else {
                old(self).spec_keep() - 1
            },
    {
        if self.reset_col {
            self.buffered_column_offset = self.column_offset();
            self.reset_col = false;
        } else if forward {
            self.buffered_column_offset = self.buffered_column_offset + 1;
        } else {
            self.buffered_column_offset = self.buffered_column_offset.saturating_sub(1);
        }
    }

    /// Moves the cursor one grapheme cluster left or right within its line, or one line up
    /// or down, keeping as close as the new line allows to the remembered column.
    pub fn move_cursor(&mut self, dir: Direction)
        requires
            old(self).wf(),
            dir == Direction::Right && !old(self).spec_reset() ==> old(self).spec_keep() < usize::MAX,
        ensures
            final(self).wf(),
            final(self).spec_text() == old(self).spec_text(),
            ({
                let s = old(self).spec_text();
                let i = old(self).spec_index() as int;
                let ln = line_of(s, i);
                let i2 = final(self).spec_index() as int;
                let unchanged = i2 == i && final(self).spec_keep() == old(self).spec_keep()
                    && final(self).spec_reset() == old(self).spec_reset();
                let keep_after_step = |forward: bool|
                    if old(self).spec_reset() {
                        column(s, i2) as int
                    } else if forward {
                        old(self).spec_keep() + 1int
                    } else if old(self).spec_keep() == 0 {
                        0int
                    } else {
                        old(self).spec_keep() - 1
                    };
                match dir {
                    Direction::Right => {
                        let nb = boundary_after(grapheme_clusters(s), 0, i);
                        if i == s.len() || line_of(s, nb) != ln {
                            unchanged
                        } else {
                            i2 == nb && final(self).spec_keep() == keep_after_step(true)
                                && !final(self).spec_reset()
                        }
                    },
                    Direction::Left => {
                        if i == line_start(s, ln) {
                            unchanged
                        } else {
                            i2 == boundary_before(grapheme_clusters(s.take(i)), 0, i)
                                && final(self).spec_keep() == keep_after_step(false)
                                && !final(self).spec_reset()
                        }
                    },
                    Direction::Up => {
                        if ln == 0 {
                            unchanged
                        } else {
                            i2 == line_target(s, line_start(s, (ln - 1) as nat), line_start(s, ln) - 1, old(self).spec_keep())
                                && final(self).spec_keep() == old(self).spec_keep()
                                && final(self).spec_reset()
                        }
                    },
                    Direction::Down => {
                        if ln == last_line(s) {
                            unchanged
                        } else {
                            let end = if ln + 1 == last_line(s) {
                                line_start(s, ln + 2)
                            } else {
                                line_start(s, ln + 2) - 1
                            };
                            i2 == line_target(s, line_start(s, ln + 1), end, old(self).spec_keep())
                                && final(self).spec_keep() == old(self).spec_keep()
                                && final(self).spec_reset()
                        }
                    },
                }
            }),
    {
        let ghost s = self.spec_text();
        proof {
            lemma_in_line(s, self.index as int);
        }
        match dir {
            Direction::Right => {
                let len = rope_len_chars(&self.text);
                if self.index == len {
                    return ;
                }
                let current_ln = rope_char_to_line(&self.text, self.index);
                let whole = rope_slice_to_string(&rope_slice(&self.text, 0, len));
                assert(whole@ =~= s);
                let next_boundary = next_grapheme_boundary(whole.as_str(), self.index);
                let next_ln = rope_char_to_line(&self.text, next_boundary);
                if current_ln != next_ln {
                    return ;
                }
                self.index = next_boundary;
                self.update_buffered_offset(true);
            },
            Direction::Left => {
                let ln = rope_char_to_line(&self.text, self.index);
                let ln_start = rope_line_to_char(&self.text, ln);
                if self.index == ln_start {
                    return ;
                }
                let before = rope_slice_to_string(&rope_slice(&self.text, 0, self.index));
                assert(before@ =~= s.take(self.index as int));
                self.index = prev_grapheme_boundary(before.as_str(), self.index);
                self.update_buffered_offset(false);
            },
            Direction::Up => {
                let ln = rope_char_to_line(&self.text, self.index);
                if ln == 0 {
                    return ;
                }
                proof {
                    lemma_line_starts_ordered(s, (ln - 1) as nat);
                }
                let prev_ln_start = rope_line_to_char(&self.text, ln - 1);
                let prev_ln_end = rope_line_to_char(&self.text, ln);
                let n = self.count_graphemes(prev_ln_start, prev_ln_end - 1);
                let keep = self.buffered_column_offset;
                self.index = prev_ln_start + if n < keep {
                    n
                } else {
                    keep
                };
                self.reset_col = true;
            },
            Direction::Down => {
                let ln = rope_char_to_line(&self.text, self.index);
                let lines = rope_len_lines(&self.text);
                if ln == lines - 1 {
                    return ;
                }
                proof {
                    lemma_line_starts_ordered(s, (ln + 1) as nat);
                }
                let next_ln_start = rope_line_to_char(&self.text, ln + 1);
                let mut next_ln_end = rope_line_to_char(&self.text, ln + 2);
                if ln != lines - 2 {
                    next_ln_end = next_ln_end - 1;
                }
                let n = self.count_graphemes(next_ln_start, next_ln_end);
                let keep = self.buffered_column_offset;
                self.index = next_ln_start + if n < keep {
                    n
                } else {
                    keep
                };
                self.reset_col = true;
            },
        }
    }
}

} // verus!
