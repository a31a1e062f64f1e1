//! A text editor buffer kept as lines (each with its line feed), with a cursor given as a
//! line and a column counted in grapheme clusters.
use crate::chars::{str_chars, string_from_chars};
use crate::graphemes::{
    count_graphemes, grapheme_count, grapheme_offset, grapheme_start, graphemes, single_char_clusters,
    };
use crate::text_coord::TextCoord;
use vstd::prelude::*;
use vstd::string::StrSliceExecFns;

verus! {

broadcast use vstd::seq_lib::group_seq_properties;

/// A direction to move the cursor in.
#[derive(Debug, Clone, Copy, PartialEq, Eq, Structural)]
pub enum Cursor {
    Up,
    Down,
    Left,
    Right,
}

/// The chars of each string.
pub open spec fn line_views(v: Seq<String>) -> Seq<Seq<char>> {
    v.map_values(|s: String| s@)
}

/// The number of clusters of a line that the cursor can stand before, its line feed left
/// out.
pub open spec fn nl_stripped(s: Seq<char>) -> int {
    if s.len() > 0 && s.last() == '\n' {
        grapheme_count(s) - 1
    } else {
        grapheme_count(s) as int
    }
}

/// `s` split after each line feed: the pieces are not empty, they put together give `s`,
/// and each holds a single line feed, at its end, except the last, which may hold none.
pub open spec fn is_line_split(ls: Seq<Seq<char>>, s: Seq<char>) -> bool {
    &&& ls.flatten() == s
    &&& forall|i: int| 0 <= i < ls.len() ==> #[trigger] ls[i].len() > 0
    &&& forall|i: int, j: int|
        0 <= i < ls.len() && 0 <= j < ls[i].len() && ls[i][j] == '\n' ==> j == ls[i].len() - 1
    &&& forall|i: int| 0 <= i < ls.len() - 1 ==> (#[trigger] ls[i]).last() == '\n'
}

/// The lines of `text`, each with its line feed (the last one without, if `text` does not
/// end with one); no line for an empty text.
pub fn lines_with_endings(text: &str) -> (lines: Vec<String>)
    ensures
        is_line_split(line_views(lines@), text@),
{
    let chars = str_chars(text);
    let mut lines: Vec<String> = Vec::new();
    let mut current: Vec<char> = Vec::new();
    let ghost mut pieces: Seq<Seq<char>> = seq![];
    let mut i: usize = 0;
    while i < chars.len()
        invariant
            chars@ == text@,
            i <= chars@.len(),
            line_views(lines@) == pieces,
            pieces.flatten() + current@ == text@.take(i as int),
            forall|k: int| 0 <= k < pieces.len() ==> #[trigger] pieces[k].len() > 0,
            forall|k: int| 0 <= k < pieces.len() ==> (#[trigger] pieces[k]).last() == '\n',
            forall|k: int, j: int|
                0 <= k < pieces.len() && 0 <= j < pieces[k].len() && pieces[k][j] == '\n' ==> j
                    == pieces[k].len() - 1,
            forall|j: int| 0 <= j < current@.len() ==> current@[j] != '\n',
        decreases chars@.len() - i,
    {
        let c = chars[i];
        current.push(c);
        proof {
            assert(text@.take(i + 1) =~= text@.take(i as int).push(c));
        }
        if c == '\n' {
            let piece = string_from_chars(&current);
            lines.push(piece);
            proof {
                pieces.lemma_flatten_push(current@);
                pieces = pieces.push(current@);
                assert(line_views(lines@) =~= pieces);
            }
            current = Vec::new();
            proof {
                assert(pieces.flatten() + current@ =~= text@.take(i + 1));
            }
        } else {
            proof {
                assert(pieces.flatten() + current@ =~= text@.take(i as int).push(c));
            }
        }
        i = i + 1;
    }
    if current.len() > 0 {
        let piece = string_from_chars(&current);
        lines.push(piece);
        proof {
            pieces.lemma_flatten_push(current@);
            pieces = pieces.push(current@);
            assert(line_views(lines@) =~= pieces);
        }
    }
    proof {
        assert(text@.take(i as int) =~= text@);
        if current@.len() == 0 {
            assert(pieces.flatten() + current@ =~= pieces.flatten());
        }
    }
    lines
}

/// Moving forward through the lines from line `ln`, `rel` clusters past its start: the
/// position lands on the first line it does not run past, where the end of a line counts
/// as the start of the next one except on the last line; nothing past the end.
pub open spec fn walk_forward(lines: Seq<Seq<char>>, ln: int, rel: int) -> Option<(int, int)>
    decreases lines.len() - ln,
{
    if ln < 0 || ln >= lines.len() {
        None
    } else if rel < grapheme_count(lines[ln]) {
        Some((ln, rel))
    } else if ln == lines.len() - 1 {
        if rel == grapheme_count(lines[ln]) {
            Some((ln, rel))
        } else {
            None
        }
    } else {
        walk_forward(lines, ln + 1, rel - grapheme_count(lines[ln]))
    }
}

/// Moving back `off` clusters from column `x` of line `ln`: stepping back past the start
/// of a line lands before the line feed of the line above; nothing before the first line.
pub open spec fn walk_back(lines: Seq<Seq<char>>, ln: int, x: int, off: int) -> Option<(int, int)>
    decreases ln,
{
    if off <= x {
        Some((ln, x - off))
    } else if ln <= 0 || ln - 1 >= lines.len() {
        None
    } else {
        walk_back(lines, ln - 1, grapheme_count(lines[ln - 1]) - 1, off - (x + 1))
    }
}


/// Where a cursor move takes the cursor `c`: up or down a line (staying on the first or
/// last), keeping the column unless the new line is shorter; left a column (stopping at
/// the start); right a column (stopping before the line feed).
pub open spec fn cursor_after_move(ls: Seq<Seq<char>>, c: TextCoord, cmd: Cursor) -> (int, int) {
    match cmd {
        Cursor::Up => {
            let ln = if c.ln == 0 { 0 } else { c.ln - 1 };
            (ln, if c.x < nl_stripped(ls[ln]) { c.x as int } else { nl_stripped(ls[ln]) })
        },
        Cursor::Down => {
            let ln = if c.ln + 1 < ls.len() { c.ln + 1 } else { ls.len() - 1 };
            (ln, if c.x < nl_stripped(ls[ln]) { c.x as int } else { nl_stripped(ls[ln]) })
        },
        Cursor::Left => (c.ln as int, if c.x == 0 { 0 } else { c.x - 1 }),
        Cursor::Right => {
            let right = if c.x == usize::MAX { c.x as int } else { c.x + 1 };
            (c.ln as int, if right < nl_stripped(ls[c.ln as int]) { right } else { nl_stripped(ls[c.ln as int]) })
        },
    }
}

/// What each cursor move does: up and down go to the line above or below (staying on the
/// first or last line), left and right stay on the line. Up, down and right never leave the
/// cursor past the end of its new line (its line feed left out): up and down keep the
/// column where the new line is long enough and otherwise put the cursor at its end; right
/// goes one column on, or to the end of the line when that is nearer; left goes one column
/// back, stopping at the start. A cursor within its line stays within its line.
pub proof fn lemma_cursor_move(ls: Seq<Seq<char>>, c: TextCoord, cmd: Cursor)
    requires
        ls.len() > 0,
        c.ln < ls.len(),
    ensures
        ({
            let (l, x) = cursor_after_move(ls, c, cmd);
            let end = nl_stripped(ls[l]);
            &&& 0 <= l < ls.len()
            &&& cmd is Up ==> l == (if c.ln == 0 { 0 } else { c.ln - 1 })
            &&& cmd is Down ==> l == (if c.ln + 1 < ls.len() { c.ln + 1 } else { ls.len() - 1 })
            &&& (cmd is Left || cmd is Right) ==> l == c.ln
            &&& !(cmd is Left) ==> x <= end
            &&& (cmd is Up || cmd is Down) ==> x <= c.x && (x == c.x || x == end)
            &&& (cmd is Up || cmd is Down) && c.x <= end ==> x == c.x
            &&& cmd is Right && c.x < usize::MAX ==> x <= c.x + 1 && (x == c.x + 1 || x == end)
            &&& cmd is Left ==> x == (if c.x == 0 { 0 } else { c.x - 1 })
            &&& 0 <= c.x <= nl_stripped(ls[c.ln as int]) ==> x <= end
        }),
{
}

/// The lines after typing `c` at `cur`: a line feed splits the line at the cursor's cluster,
/// the rest going to a new line below; any other char goes into the line there.
pub open spec fn lines_after_insert(ls: Seq<Seq<char>>, cur: TextCoord, c: char) -> Seq<Seq<char>> {
    let ln = cur.ln as int;
    let line = ls[ln];
    let k = grapheme_start(line, cur.x as int);
    if c == '\n' {
        ls.update(ln, line.take(k).push('\n')).insert(ln + 1, line.skip(k))
    } else {
        ls.update(ln, line.take(k).push(c) + line.skip(k))
    }
}

/// Where moving the cursor `offset` clusters through the text takes it, if it stays in the
/// text.
pub open spec fn offset_target(ls: Seq<Seq<char>>, cur: TextCoord, offset: int) -> Option<(int, int)> {
    if offset < 0 {
        walk_back(ls, cur.ln as int, cur.x as int, -offset)
    } else {
        walk_forward(ls, cur.ln as int, cur.x + offset)
    }
}

/// Moving forward from the cursor is defined: its column lies within its line.
pub open spec fn forward_ok(ls: Seq<Seq<char>>, cur: TextCoord) -> bool {
    cur.ln < ls.len() ==> cur.x <= grapheme_count(ls[cur.ln as int])
}

/// Moving backward from the cursor is defined: the lines above it are not empty.
pub open spec fn backward_ok(ls: Seq<Seq<char>>, cur: TextCoord) -> bool {
    forall|l: int| 0 <= l < cur.ln && l < ls.len() ==> #[trigger] ls[l].len() > 0
}

/// Deleting at the cursor is defined: a line feed there is not on the last line, and
/// another char there is not past the line's last cluster.
pub open spec fn delete_ok(ls: Seq<Seq<char>>, c: TextCoord) -> bool {
    c.ln < ls.len() && c.x < ls[c.ln as int].len() ==> if ls[c.ln as int][c.x as int] == '\n' {
        c.ln + 1 < ls.len()
    } else {
        grapheme_start(ls[c.ln as int], c.x as int) < ls[c.ln as int].len()
    }
}

/// The lines after deleting at the cursor.
pub open spec fn lines_after_delete(ls: Seq<Seq<char>>, c: TextCoord) -> Seq<Seq<char>> {
    if c.ln < ls.len() && c.x < ls[c.ln as int].len() {
        let ln = c.ln as int;
        let line = ls[ln];
        let k = grapheme_start(line, c.x as int);
        if line[c.x as int] == '\n' {
            ls.remove(ln + 1).update(ln, line.take(k) + ls[ln + 1])
        } else {
            ls.update(ln, line.remove(k))
        }
    } else {
        ls
    }
}

proof fn lemma_single_clusters_start(s: Seq<char>, x: int)
    requires
        single_char_clusters(s),
        0 <= x <= s.len(),
    ensures
        grapheme_start(s, x) == x,
{
    lemma_singles_take_len(s, x);
}

proof fn lemma_singles_take_len(s: Seq<char>, x: int)
    requires
        0 <= x <= s.len(),
    ensures
        s.map_values(|ch: char| seq![ch]).take(x).flatten().len() == x,
    decreases x,
{
    broadcast use Seq::lemma_flatten_push;

    let ss = s.map_values(|ch: char| seq![ch]);
    if x == 0 {
        assert(ss.take(0) =~= Seq::<Seq<char>>::empty());
    } else {
        lemma_singles_take_len(s, x - 1);
        assert(ss.take(x) =~= ss.take(x - 1).push(seq![s[x - 1]]));
    }
}

/// Deleting at the cursor right after inserting a char there gives back the lines. This
/// holds when the cursor is not past the end of its line and each char of that line is a
/// grapheme cluster of its own, before and after the insert (as in text of printable ASCII,
/// tabs and line feeds: see `graphemes::clusters_of`).
pub proof fn lemma_insert_then_delete(ls: Seq<Seq<char>>, cur: TextCoord, c: char)
    requires
        cur.ln < ls.len(),
        cur.x <= ls[cur.ln as int].len(),
        single_char_clusters(ls[cur.ln as int]),
        single_char_clusters(lines_after_insert(ls, cur, c)[cur.ln as int]),
    ensures
        delete_ok(lines_after_insert(ls, cur, c), cur),
        lines_after_delete(lines_after_insert(ls, cur, c), cur) == ls,
{
    let ln = cur.ln as int;
    let x = cur.x as int;
    let line = ls[ln];
    lemma_single_clusters_start(line, x);
    let ls2 = lines_after_insert(ls, cur, c);
    let line2 = ls2[ln];
    if c == '\n' {
        assert(line2 =~= line.take(x).push('\n'));
        lemma_single_clusters_start(line2, x);
        assert(ls2[ln + 1] == line.skip(x));
        assert(line2.take(x) + ls2[ln + 1] =~= line);
        assert(lines_after_delete(ls2, cur) =~= ls);
    } else {
        assert(line2 =~= line.take(x).push(c) + line.skip(x));
        lemma_single_clusters_start(line2, x);
        assert(line2.remove(x) =~= line);
        assert(lines_after_delete(ls2, cur) =~= ls);
    }
}

/// A key pressed in the editor.
#[derive(Debug, Clone, Copy, PartialEq, Eq, Structural)]
pub enum EditorKey {
    Esc,
    Enter,
    Tab,
    Char(char),
    Backspace,
    Up,
    Down,
    Left,
    Right,
    /// Any other key.
    Other,
}

/// The char a key types into the editor, if it types one.
pub open spec fn editor_char(key: EditorKey) -> Option<char> {
    match key {
        EditorKey::Enter => Some('\n'),
        EditorKey::Tab => Some('\t'),
        EditorKey::Char(c) => Some(c),
        _ => None,
    }
}

/// The cursor move an arrow key makes.
pub open spec fn arrow(key: EditorKey) -> Option<Cursor> {
    match key {
        EditorKey::Up => Some(Cursor::Up),
        EditorKey::Down => Some(Cursor::Down),
        EditorKey::Left => Some(Cursor::Left),
        EditorKey::Right => Some(Cursor::Right),
        _ => None,
    }
}

/// A forward walk lands on a line of the text.
pub proof fn lemma_walk_forward_on_line(ls: Seq<Seq<char>>, ln: int, rel: int)
    ensures
        walk_forward(ls, ln, rel) matches Some((l, x)) ==> 0 <= l < ls.len() && 0 <= ln <= l,
    decreases ls.len() - ln,
{
    if 0 <= ln < ls.len() && rel >= grapheme_count(ls[ln]) && ln != ls.len() - 1 {
        lemma_walk_forward_on_line(ls, ln + 1, rel - grapheme_count(ls[ln]));
    }
}

/// A backward walk from a line of the text lands on a line no further down.
pub proof fn lemma_walk_back_on_line(ls: Seq<Seq<char>>, ln: int, x: int, off: int)
    requires
        0 <= ln,
    ensures
        walk_back(ls, ln, x, off) matches Some((l, y)) ==> 0 <= l <= ln,
    decreases ln,
{
    if off > x && ln > 0 && ln - 1 < ls.len() {
        lemma_walk_back_on_line(ls, ln - 1, grapheme_count(ls[ln - 1]) - 1, off - (x + 1));
    }
}

/// The editor buffer: the lines of the text and the cursor.
pub struct EditorState {
    text_lines: Vec<String>,
    cursor: TextCoord,
}

impl EditorState {
    /// The lines, as chars.
    pub closed spec fn spec_lines(&self) -> Seq<Seq<char>> {
        line_views(self.text_lines@)
    }

    /// The cursor.
    pub closed spec fn spec_cursor(&self) -> TextCoord {
        self.cursor
    }

    /// There is at least one line.
    pub open spec fn wf(&self) -> bool {
        self.spec_lines().len() > 0
    }

    /// The cursor stands on a line of the text.
    pub open spec fn cursor_on_line(&self) -> bool {
        self.spec_cursor().ln < self.spec_lines().len()
    }

    /// An empty buffer: a single empty line, with the cursor at its start.
    pub fn new() -> (e: Self)
        ensures
            e.wf(),
            e.spec_lines() == seq![Seq::<char>::empty()],
            e.spec_cursor() == (TextCoord { ln: 0, x: 0 }),
    {
        let mut text_lines: Vec<String> = Vec::new();
        text_lines.push(String::new());
        let e = EditorState { text_lines, cursor: TextCoord::new(0, 0) };
        assert(e.spec_lines() =~= seq![Seq::<char>::empty()]);
        e
    }

    /// The buffer holding `text`, split after each line feed (a single empty line for an
    /// empty text); the cursor stays where it was.
    pub fn content(self, text: &str) -> (e: Self)
        ensures
            e.wf(),
            e.spec_cursor() == self.spec_cursor(),
            text@.len() == 0 ==> e.spec_lines() == seq![Seq::<char>::empty()],
            text@.len() > 0 ==> is_line_split(e.spec_lines(), text@),
    {
        let mut lines = lines_with_endings(text);
        if lines.len() == 0 {
            lines.push(String::new());
            proof {
                if text@.len() > 0 {
                    assert(Seq::<Seq<char>>::empty().flatten() =~= Seq::<char>::empty());
                }
            }
        }
        let e = EditorState { text_lines: lines, cursor: self.cursor };
        proof {
            if text@.len() == 0 {
                assert(e.spec_lines() =~= seq![Seq::<char>::empty()]);
            } else {
                assert(e.spec_lines() =~= line_views(lines@));
            }
        }
        e
    }

    /// The number of clusters of `s` the cursor can stand before, its line feed left out.
    fn nl_stripped_len(s: &str) -> (n: usize)
        ensures
            n == nl_stripped(s@),
    {
        let len = s.unicode_len();
        let n = count_graphemes(s);
        if len > 0 && s.get_char(len - 1) == '\n' {
            n - 1
        } else {
            n
        }
    }

    /// Moves the cursor one line up or down, keeping its column unless the new line is
    /// shorter, or one column left (stopping at the start) or right (stopping before the
    /// line feed).
    pub fn move_cursor(&mut self, cmd: Cursor)
        requires
            old(self).wf(),
            old(self).cursor_on_line(),
        ensures
            final(self).wf(),
            final(self).cursor_on_line(),
            final(self).spec_lines() == old(self).spec_lines(),
            final(self).spec_cursor().ln == cursor_after_move(old(self).spec_lines(), old(self).spec_cursor(), cmd).0,
            final(self).spec_cursor().x == cursor_after_move(old(self).spec_lines(), old(self).spec_cursor(), cmd).1,
            !(cmd is Left) ==> final(self).spec_cursor().x <= nl_stripped(final(self).spec_lines()[final(self).spec_cursor().ln as int]),
    {
        match cmd {
            Cursor::Up => {
                self.cursor.ln = self.cursor.ln.saturating_sub(1);
                let n = Self::nl_stripped_len(self.text_lines[self.cursor.ln].as_str());
                self.cursor.x = if self.cursor.x < n { self.cursor.x } else { n };
            },
            Cursor::Down => {
                let down = self.cursor.ln.saturating_add(1);
                let last = self.text_lines.len() - 1;
                self.cursor.ln = if down < last { down } else { last };
                let n = Self::nl_stripped_len(self.text_lines[self.cursor.ln].as_str());
                self.cursor.x = if self.cursor.x < n { self.cursor.x } else { n };
            },
            Cursor::Left => self.cursor.x = self.cursor.x.saturating_sub(1),
            Cursor::Right => {
                let right = self.cursor.x.saturating_add(1);
                let n = Self::nl_stripped_len(self.text_lines[self.cursor.ln].as_str());
                self.cursor.x = if right < n { right } else { n };
            },
        }
    }

    /// Moves the cursor `offset` clusters forward (backward when negative) through the
    /// text, across line ends; nothing changes and `None` comes back when that runs out of
    /// the text. Forward, the cursor's column lies within its line; backward, the lines above
    /// the cursor are not empty.
    pub fn offset(&mut self, offset: isize) -> (r: Option<TextCoord>)
        requires
            old(self).wf(),
            offset >= 0 ==> forward_ok(old(self).spec_lines(), old(self).spec_cursor()),
            offset < 0 ==> backward_ok(old(self).spec_lines(), old(self).spec_cursor()),
        ensures
            final(self).wf(),
            final(self).spec_lines() == old(self).spec_lines(),
            match offset_target(old(self).spec_lines(), old(self).spec_cursor(), offset as int) {
                None => r is None && final(self).spec_cursor() == old(self).spec_cursor(),
                Some((ln, x)) => r == Some(final(self).spec_cursor()) && ln == final(self).spec_cursor().ln
                    && x == final(self).spec_cursor().x,
            },
    {
        let new_coord = if offset < 0 {
            let left_offset: usize = (-(offset + 1)) as usize + 1;
            self.offset_neg(left_offset, self.cursor)
        } else {
            self.offset_pos(offset as usize, self.cursor)
        };
        match new_coord {
            Some(c) => {
                self.cursor = c;
                Some(self.cursor)
            },
            None => None,
        }
    }

    fn offset_pos(&self, offset: usize, coord: TextCoord) -> (r: Option<TextCoord>)
        requires
            self.wf(),
            coord.ln < self.spec_lines().len() ==> coord.x <= grapheme_count(self.spec_lines()[coord.ln as int]),
        ensures
            match walk_forward(self.spec_lines(), coord.ln as int, coord.x + offset) {
                None => r is None,
                Some((ln, x)) => r matches Some(c) && c.ln == ln && c.x == x,
            },
    {
        let ghost ls = self.spec_lines();
        let ghost target = walk_forward(ls, coord.ln as int, coord.x + offset);
        if coord.ln >= self.text_lines.len() {
            return None;
        }
        let mut off = offset;
        let mut at = coord;
        let mut ln_len = count_graphemes(self.text_lines[at.ln].as_str());
        loop
            invariant
                ls == self.spec_lines(),
                ls.len() == self.text_lines@.len(),
                at.ln < ls.len(),
                ln_len == grapheme_count(ls[at.ln as int]),
                at.x <= ln_len,
                walk_forward(ls, at.ln as int, at.x + off) == target,
                target == walk_forward(ls, coord.ln as int, coord.x + offset),
            ensures
                off < ln_len - at.x || (at.ln + 1 == ls.len() && off == ln_len - at.x),
            decreases ls.len() - at.ln,
        {
            if off < ln_len - at.x {
                break ;
            }
            let n_lines = self.text_lines.len();
            let has_next = at.ln + 1 < n_lines;
            if !has_next && off == ln_len - at.x {
                break ;
            }
            if !has_next {
                return None;
            }
            off = off - (ln_len - at.x);
            at.ln = at.ln + 1;
            at.x = 0;
            ln_len = count_graphemes(self.text_lines[at.ln].as_str());
        }
        at.x = at.x + off;
        Some(at)
    }

    fn offset_neg(&self, offset: usize, coord: TextCoord) -> (r: Option<TextCoord>)
        requires
            self.wf(),
            forall|l: int| 0 <= l < coord.ln && l < self.spec_lines().len() ==> #[trigger] self.spec_lines()[l].len() > 0,
        ensures
            match walk_back(self.spec_lines(), coord.ln as int, coord.x as int, offset as int) {
                None => r is None,
                Some((ln, x)) => r matches Some(c) && c.ln == ln && c.x == x,
            },
    {
        let ghost ls = self.spec_lines();
        let ghost target = walk_back(ls, coord.ln as int, coord.x as int, offset as int);
        let mut off = offset;
        let mut at = coord;
        while off > at.x
            invariant
                ls == self.spec_lines(),
                ls.len() == self.text_lines@.len(),
                forall|l: int| 0 <= l < at.ln && l < ls.len() ==> #[trigger] ls[l].len() > 0,
                walk_back(ls, at.ln as int, at.x as int, off as int) == target,
                target == walk_back(ls, coord.ln as int, coord.x as int, offset as int),
            decreases at.ln,
        {
            if at.ln == 0 || at.ln - 1 >= self.text_lines.len() {
                return None;
            }
            off = off - (at.x + 1);
            let ln = self.text_lines[at.ln - 1].as_str();
            assert(ln@ == ls[at.ln - 1]);
            at.ln = at.ln - 1;
            at.x = count_graphemes(ln) - 1;
        }
        at.x = at.x - off;
        Some(at)
    }

    /// Inserts `c` at the cursor, which stays where it is: a line feed splits the line
    /// there, the rest going to a new line below; any other char goes into the line.
    pub fn insert_ch(&mut self, c: char)
        requires
            old(self).wf(),
            old(self).cursor_on_line(),
        ensures
            final(self).wf(),
            final(self).cursor_on_line(),
            final(self).spec_cursor() == old(self).spec_cursor(),
            final(self).spec_lines() == lines_after_insert(old(self).spec_lines(), old(self).spec_cursor(), c),
    {
        let ln = self.cursor.ln;
        let n_lines = self.text_lines.len();
        assert(n_lines == self.spec_lines().len());
        let line = self.text_lines[ln].as_str();
        let k = grapheme_offset(line, self.cursor.x);
        let chars = str_chars(line);
        let mut head: Vec<char> = Vec::new();
        let mut tail: Vec<char> = Vec::new();
        let mut i: usize = 0;
        while i < chars.len()
            invariant
                i <= chars@.len(),
                k <= chars@.len(),
                i <= k ==> head@ == chars@.take(i as int) && tail@.len() == 0,
                i > k ==> head@ == chars@.take(k as int) && tail@ == chars@.subrange(k as int, i as int),
            decreases chars@.len() - i,
        {
            if i < k {
                head.push(chars[i]);
            } else {
                tail.push(chars[i]);
            }
            proof {
                assert(chars@.take(i + 1) =~= chars@.take(i as int).push(chars@[i as int]));
                if i >= k {
                    assert(chars@.subrange(k as int, i + 1) =~= chars@.subrange(k as int, i as int).push(chars@[i as int]));
                }
                if i == k {
                    assert(chars@.take(k as int) =~= chars@.take(i as int));
                }
            }
            i = i + 1;
        }
        proof {
            if k == chars@.len() {
                assert(tail@ =~= chars@.skip(k as int));
            } else {
                assert(chars@.subrange(k as int, chars@.len() as int) =~= chars@.skip(k as int));
            }
        }
        let ghost ls = self.spec_lines();
        if c == '\n' {
            head.push('\n');
            let first = string_from_chars(&head);
            let rest = string_from_chars(&tail);
            self.text_lines.set(ln, first);
            self.text_lines.insert(ln + 1, rest);
            proof {
                assert(self.spec_lines() =~= ls.update(ln as int, chars@.take(k as int).push('\n')).insert(ln + 1, chars@.skip(k as int)));
            }
        } else {
            head.push(c);
            let mut j: usize = 0;
            let ghost h = head@;
            while j < tail.len()
                invariant
                    j <= tail@.len(),
                    head@ == h + tail@.take(j as int),
                decreases tail@.len() - j,
            {
                proof {
                    assert(tail@.take(j + 1) =~= tail@.take(j as int).push(tail@[j as int]));
                }
                head.push(tail[j]);
                j = j + 1;
            }
            proof {
                assert(tail@.take(tail@.len() as int) =~= tail@);
            }
            let joined = string_from_chars(&head);
            self.text_lines.set(ln, joined);
            proof {
                assert(self.spec_lines() =~= ls.update(ln as int, chars@.take(k as int).push(c) + chars@.skip(k as int)));
            }
        }
    }

    /// The char at the cursor's column taken as a char index into its line, if the line
    /// has one there.
    pub fn cursor_ch(&self) -> (r: Option<char>)
        ensures
            ({
                let ls = self.spec_lines();
                let c = self.spec_cursor();
                if c.ln < ls.len() && c.x < ls[c.ln as int].len() {
                    r == Some(ls[c.ln as int][c.x as int])
                } else {
                    r is None
                }
            }),
    {
        if self.cursor.ln >= self.text_lines.len() {
            return None;
        }
        let line = self.text_lines[self.cursor.ln].as_str();
        if self.cursor.x < line.unicode_len() {
            Some(line.get_char(self.cursor.x))
        } else {
            None
        }
    }

    /// Deletes at the cursor, whose column is read as a char index to find what is there: a
    /// line feed joins the next line to the line at the cursor's cluster; another char is
    /// removed at the cursor's cluster; past the end of the line nothing happens. A line
    /// feed is not on the last line, and another char is not past the line's last cluster.
    pub fn delete_ch(&mut self)
        requires
            old(self).wf(),
            delete_ok(old(self).spec_lines(), old(self).spec_cursor()),
        ensures
            final(self).wf(),
            final(self).spec_cursor() == old(self).spec_cursor(),
            final(self).spec_lines() == lines_after_delete(old(self).spec_lines(), old(self).spec_cursor()),
    {
        let ghost ls = self.spec_lines();
        match self.cursor_ch() {
            Some(ch) => {
                let ln = self.cursor.ln;
                let n_lines = self.text_lines.len();
                assert(n_lines == ls.len());
                let line = self.text_lines[ln].as_str();
                assert(line@ == ls[ln as int]);
                let k = grapheme_offset(line, self.cursor.x);
                let chars = str_chars(line);
                let mut kept: Vec<char> = Vec::new();
                let mut i: usize = 0;
                while i < k
                    invariant
                        i <= k,
                        k <= chars@.len(),
                        kept@ == chars@.take(i as int),
                    decreases k - i,
                {
                    proof {
                        assert(chars@.take(i + 1) =~= chars@.take(i as int).push(chars@[i as int]));
                    }
                    kept.push(chars[i]);
                    i = i + 1;
                }
                if ch == '\n' {
                    let below = self.text_lines.remove(ln + 1);
                    let below_chars = str_chars(below.as_str());
                    let mut j: usize = 0;
                    let ghost h = kept@;
                    while j < below_chars.len()
                        invariant
                            j <= below_chars@.len(),
                            kept@ == h + below_chars@.take(j as int),
                        decreases below_chars@.len() - j,
                    {
                        proof {
                            assert(below_chars@.take(j + 1) =~= below_chars@.take(j as int).push(below_chars@[j as int]));
                        }
                        kept.push(below_chars[j]);
                        j = j + 1;
                    }
                    proof {
                        assert(below_chars@.take(below_chars@.len() as int) =~= below_chars@);
                    }
                    let joined = string_from_chars(&kept);
                    self.text_lines.set(ln, joined);
                    proof {
                        assert(self.spec_lines() =~= ls.remove(ln + 1).update(ln as int, chars@.take(k as int) + ls[ln + 1]));
                    }
                } else {
                    assert(ls[ln as int][self.spec_cursor().x as int] != '\n');
                    let n_chars = chars.len();
                    assert(k < n_chars);
                    let mut j: usize = k + 1;
                    let ghost h = kept@;
                    while j < chars.len()
                        invariant
                            k < chars@.len(),
                            k + 1 <= j <= chars@.len(),
                            kept@ == h + chars@.subrange(k + 1, j as int),
                        decreases chars@.len() - j,
                    {
                        proof {
                            assert(chars@.subrange(k + 1, j + 1) =~= chars@.subrange(k + 1, j as int).push(chars@[j as int]));
                        }
                        kept.push(chars[j]);
                        j = j + 1;
                    }
                    let joined = string_from_chars(&kept);
                    self.text_lines.set(ln, joined);
                    proof {
                        assert(chars@.remove(k as int) =~= chars@.take(k as int) + chars@.subrange(k + 1, chars@.len() as int));
                        assert(self.spec_lines() =~= ls.update(ln as int, chars@.remove(k as int)));
                    }
                }
            },
            None => {},
        }
    }

    /// Whether the cursor stands on a line of the text.
    pub fn cursor_in_text(&self) -> (b: bool)
        ensures
            b == self.cursor_on_line(),
    {
        self.cursor.ln < self.text_lines.len()
    }

    /// Whether moving the cursor forward is defined.
    fn can_move_forward(&self) -> (b: bool)
        ensures
            b == forward_ok(self.spec_lines(), self.spec_cursor()),
    {
        if self.cursor.ln < self.text_lines.len() {
            self.cursor.x <= count_graphemes(self.text_lines[self.cursor.ln].as_str())
        } else {
            true
        }
    }

    /// Whether moving the cursor backward is defined.
    fn can_move_backward(&self) -> (b: bool)
        ensures
            b == backward_ok(self.spec_lines(), self.spec_cursor()),
    {
        let mut l: usize = 0;
        while l < self.cursor.ln && l < self.text_lines.len()
            invariant
                l <= self.spec_cursor().ln,
                forall|k: int| 0 <= k < l ==> #[trigger] self.spec_lines()[k].len() > 0,
            decreases self.spec_cursor().ln - l,
        {
            if self.text_lines[l].as_str().unicode_len() == 0 {
                assert(self.spec_lines()[l as int] == self.text_lines@[l as int]@);
                return false;
            }
            l = l + 1;
        }
        true
    }

    /// Whether deleting at the cursor is defined.
    fn can_delete(&self) -> (b: bool)
        ensures
            b == delete_ok(self.spec_lines(), self.spec_cursor()),
    {
        if self.cursor.ln >= self.text_lines.len() {
            return true;
        }
        let line = self.text_lines[self.cursor.ln].as_str();
        if self.cursor.x >= line.unicode_len() {
            return true;
        }
        if line.get_char(self.cursor.x) == '\n' {
            self.cursor.ln + 1 < self.text_lines.len()
        } else {
            grapheme_offset(line, self.cursor.x) < line.unicode_len()
        }
    }

    /// Handles a key: Esc asks to quit; a key that types a char inserts it and moves the
    /// cursor past it; Backspace moves the cursor back one cluster and deletes there; an
    /// arrow moves the cursor. A move or a deletion that is not defined from where the
    /// cursor stands is left out. Tells whether to quit.
    pub fn handle_key(&mut self, key: EditorKey) -> (quit: bool)
        requires
            old(self).wf(),
            old(self).cursor_on_line(),
        ensures
            final(self).wf(),
            final(self).cursor_on_line(),
            quit == (key == EditorKey::Esc),
            ({
                let ls = old(self).spec_lines();
                let cur = old(self).spec_cursor();
                let ls2 = final(self).spec_lines();
                let cur2 = final(self).spec_cursor();
                if let Some(c) = editor_char(key) {
                    let typed = lines_after_insert(ls, cur, c);
                    &&& ls2 == typed
                    &&& forward_ok(typed, cur) ==> match offset_target(typed, cur, 1) {
                        None => cur2 == cur,
                        Some((ln, x)) => cur2.ln == ln && cur2.x == x,
                    }
                    &&& !forward_ok(typed, cur) ==> cur2 == cur
                } else if let Some(dir) = arrow(key) {
                    &&& ls2 == ls
                    &&& cur2.ln == cursor_after_move(ls, cur, dir).0
                    &&& cur2.x == cursor_after_move(ls, cur, dir).1
                } else if key == EditorKey::Backspace {
                    &&& !backward_ok(ls, cur) ==> ls2 == ls && cur2 == cur
                    &&& backward_ok(ls, cur) ==> (match offset_target(ls, cur, -1) {
                        Some((ln, x)) => {
                            let back = TextCoord { ln: ln as usize, x: x as usize };
                            &&& cur2 == back
                            &&& delete_ok(ls, back) ==> ls2 == lines_after_delete(ls, back)
                            &&& !delete_ok(ls, back) ==> ls2 == ls
                        },
                        None => ls2 == ls && cur2 == cur,
                    })
                } else {
                    ls2 == ls && cur2 == cur
                }
            }),
    {
        match key {
            EditorKey::Esc => return true,
            EditorKey::Enter | EditorKey::Tab | EditorKey::Char(_) => {
                let c = match key {
                    EditorKey::Enter => '\n',
                    EditorKey::Tab => '\t',
                    EditorKey::Char(c) => c,
                    _ => ' ',
                };
                self.insert_ch(c);
                proof {
                    lemma_walk_forward_on_line(self.spec_lines(), self.spec_cursor().ln as int, self.spec_cursor().x + 1);
                }
                if self.can_move_forward() {
                    let _ = self.offset(1);
                }
            },
            EditorKey::Backspace => {
                proof {
                    lemma_walk_back_on_line(self.spec_lines(), self.spec_cursor().ln as int, self.spec_cursor().x as int, 1);
                }
                if self.can_move_backward() {
                    if self.offset(-1).is_some() {
                        if self.can_delete() {
                            self.delete_ch();
                        }
                    }
                }
            },
            EditorKey::Up => self.move_cursor(Cursor::Up),
            EditorKey::Down => self.move_cursor(Cursor::Down),
            EditorKey::Left => self.move_cursor(Cursor::Left),
            EditorKey::Right => self.move_cursor(Cursor::Right),
            EditorKey::Other => {},
        }
        false
    }

    /// The cursor.
    pub fn get_cursor(&self) -> (c: TextCoord)
        ensures
            c == self.spec_cursor(),
    {
        TextCoord::new(self.cursor.ln, self.cursor.x)
    }

    /// The lines.
    pub fn get_lines(&self) -> (v: Vec<&str>)
        ensures
            v@.len() == self.spec_lines().len(),
            forall|i: int| 0 <= i < v@.len() ==> #[trigger] v@[i]@ == self.spec_lines()[i],
    {
        let mut v: Vec<&str> = Vec::new();
        let mut i: usize = 0;
        while i < self.text_lines.len()
            invariant
                i <= self.text_lines@.len(),
                v@.len() == i,
                forall|k: int| 0 <= k < i ==> #[trigger] v@[k]@ == self.spec_lines()[k],
            decreases self.text_lines@.len() - i,
        {
            v.push(self.text_lines[i].as_str());
            i = i + 1;
        }
        v
    }
}

} // verus!
