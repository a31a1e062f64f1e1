use vstd::prelude::*;

verus! {

/// A position in a line-split text: the line index and the column within that line.
#[derive(Debug, Clone, Copy, PartialEq, Eq, Hash, Structural)]
pub struct TextCoord {
    pub ln: usize,
    pub x: usize,
}

impl TextCoord {
    pub fn new(ln: usize, x: usize) -> (c: TextCoord)
        ensures
            c.ln == ln,
            c.x == x,
    {
        TextCoord { ln, x }
    }
}

/// Number of line feeds in `t`.
pub open spec fn newline_count(t: Seq<char>) -> nat
    decreases t.len(),
{
    if t.len() == 0 {
        0
    } else {
        newline_count(t.drop_last()) + if t.last() == '\n' {
            1nat
        } else {
            0nat
        }
    }
}

/// The index at which the line holding position `m` starts: just after the last line
/// feed before `m`, or 0.
pub open spec fn line_start_before(t: Seq<char>, m: int) -> int
    decreases m,
{
    if m <= 0 {
        0
    } else if t[m - 1] == '\n' {
        m
    } else {
        line_start_before(t, m - 1)
    }
}

/// The coordinate of char index `i` in `t` split into lines after each line feed.
/// An index past the end lies on the last line, further right.
pub open spec fn coord_of_index(t: Seq<char>, i: int) -> (int, int)
    recommends
        t.len() > 0,
{
    let m = if i < t.len() {
        i
    } else {
        t.len() - 1
    };
    (newline_count(t.take(m)) as int, i - line_start_before(t, m))
}

proof fn lemma_line_start_bounds(t: Seq<char>, m: int)
    requires
        0 <= m,
    ensures
        0 <= line_start_before(t, m) <= m,
    decreases m,
{
    if m > 0 && t[m - 1] != '\n' {
        lemma_line_start_bounds(t, m - 1);
    }
}

proof fn lemma_newline_count_le(t: Seq<char>)
    ensures
        newline_count(t) <= t.len(),
    decreases t.len(),
{
    if t.len() > 0 {
        lemma_newline_count_le(t.drop_last());
    }
}

/// The coordinate of char index `index` in `text`; `None` when the text has no line.
pub fn index_to_coord(text: &Vec<char>, index: usize) -> (r: Option<TextCoord>)
    ensures
        text@.len() == 0 ==> r is None,
        text@.len() > 0 ==> (r matches Some(c) && (c.ln as int, c.x as int) == coord_of_index(
            text@,
            index as int,
        )),
{
    if text.len() == 0 {
        return None;
    }
    let m: usize = if index < text.len() {
        index
    } else {
        text.len() - 1
    };
    let mut ln: usize = 0;
    let mut start: usize = 0;
    let mut j: usize = 0;
    while j < m
        invariant
            m < text@.len(),
            j <= m,
            ln == newline_count(text@.take(j as int)),
            start == line_start_before(text@, j as int),
        decreases m - j,
    {
        proof {
            assert(text@.take(j + 1).drop_last() =~= text@.take(j as int));
            lemma_newline_count_le(text@.take(j as int));
        }
        if text[j] == '\n' {
            ln = ln + 1;
            start = j + 1;
        }
        j = j + 1;
    }
    proof {
        lemma_line_start_bounds(text@, m as int);
    }
    Some(TextCoord { ln, x: index - start })
}

/// The coordinates of each char index of `indexes` in `text`, in the same order;
/// `None` when the text has no line and there is an index to place.
pub fn text_to_line_index(indexes: &Vec<usize>, text: &Vec<char>) -> (r: Option<Vec<TextCoord>>)
    ensures
        (text@.len() == 0 && indexes@.len() > 0) ==> r is None,
        !(text@.len() == 0 && indexes@.len() > 0) ==> (r matches Some(coords) && coords@.len()
            == indexes@.len() && forall|k: int|
            0 <= k < indexes@.len() ==> ((#[trigger] coords@[k]).ln as int, coords@[k].x as int)
                == coord_of_index(text@, indexes@[k] as int)),
{
    let mut coords: Vec<TextCoord> = Vec::new();
    let mut k: usize = 0;
    while k < indexes.len()
        invariant
            k <= indexes@.len(),
            text@.len() > 0 || k == 0,
            coords@.len() == k,
            forall|a: int|
                0 <= a < k ==> ((#[trigger] coords@[a]).ln as int, coords@[a].x as int)
                    == coord_of_index(text@, indexes@[a] as int),
        decreases indexes@.len() - k,
    {
        match index_to_coord(text, indexes[k]) {
            Some(c) => coords.push(c),
            None => return None,
        }
        k = k + 1;
    }
    Some(coords)
}

} // verus!
