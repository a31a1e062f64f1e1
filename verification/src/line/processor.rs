//! Turning a line of styled cells into rows of a given width: tabs and line feeds are
//! shown as symbols, and rows break between words.
use super::{
    cell_view, cells_view, copy_cell, display_width, is_single, split_word_bounds, str_width,
    word_bounds, yellowed, Color, Style, StyledGrapheme,
};
use crate::chars::{str_chars, string_from_chars};
use crate::graphemes::{count_graphemes, grapheme_count};
use vstd::prelude::*;

verus! {

broadcast use vstd::seq_lib::group_seq_properties;

/// Turns a line of styled cells into rows that fit `width` columns.
pub trait LineProcessor {
    /// The rows of `line`, each no wider than `width` unless a single word is.
    fn process_line(&self, line: Vec<StyledGrapheme>, width: u16, default_bg: Color) -> Vec<Vec<StyledGrapheme>>;
}

/// The cells standing for a tab and for a line feed.
pub struct SymbolMap {
    pub tab: StyledGrapheme,
    pub nl: StyledGrapheme,
}

/// A line processor that shows tabs and line feeds with the symbols it holds.
pub struct BaseLineProcessor {
    pub symbols: SymbolMap,
}

/// The number of columns the cells take.
pub open spec fn cells_width(cs: Seq<(Seq<char>, Style)>) -> int
    decreases cs.len(),
{
    if cs.len() == 0 {
        0
    } else {
        cells_width(cs.drop_last()) + str_width(cs.last().0)
    }
}

/// The cells a tab at column `col` stands for: the tab symbol, then spaces up to the next
/// multiple of four columns, all drawn in yellow over the tab's style.
pub open spec fn tab_cells(tab: Seq<char>, style: Style, col: int) -> Seq<(Seq<char>, Style)> {
    let w = 4 - col % 4;
    seq![(tab, yellowed(style))] + Seq::new((w - 1) as nat, |i: int| (seq![' '], yellowed(style)))
}

/// The cells a cell stands for at column `col`: a line feed becomes the line-feed symbol,
/// a tab the tab cells, anything else itself.
pub open spec fn remapped(tab: Seq<char>, nl: Seq<char>, g: (Seq<char>, Style), col: int) -> Seq<(Seq<char>, Style)> {
    if g.0 == seq!['\n'] {
        seq![(nl, yellowed(g.1))]
    } else if g.0 == seq!['\t'] {
        tab_cells(tab, g.1, col)
    } else {
        seq![g]
    }
}

/// The cells of `gs` remapped one after the other, starting at column `col`, each at the
/// column where the previous ones end.
pub open spec fn transformed(tab: Seq<char>, nl: Seq<char>, gs: Seq<(Seq<char>, Style)>, col: int) -> Seq<(Seq<char>, Style)>
    decreases gs.len(),
{
    if gs.len() == 0 {
        seq![]
    } else {
        let r = remapped(tab, nl, gs[0], col);
        r + transformed(tab, nl, gs.drop_first(), col + cells_width(r))
    }
}

/// Cells take no negative width.
pub proof fn lemma_cells_width_nonneg(cs: Seq<(Seq<char>, Style)>)
    ensures
        cells_width(cs) >= 0,
    decreases cs.len(),
{
    if cs.len() > 0 {
        lemma_cells_width_nonneg(cs.drop_last());
    }
}

/// The width of cells put one after the other is the sum of their widths.
pub proof fn lemma_cells_width_concat(a: Seq<(Seq<char>, Style)>, b: Seq<(Seq<char>, Style)>)
    ensures
        cells_width(a + b) == cells_width(a) + cells_width(b),
    decreases b.len(),
{
    if b.len() > 0 {
        assert((a + b).drop_last() =~= a + b.drop_last());
        assert((a + b).last() == b.last());
        lemma_cells_width_concat(a, b.drop_last());
    } else {
        assert(a + b =~= a);
    }
}

/// Cells with the same symbols take the same width, whatever their styles.
pub proof fn lemma_cells_width_symbols(a: Seq<(Seq<char>, Style)>, b: Seq<(Seq<char>, Style)>)
    requires
        a.len() == b.len(),
        forall|k: int| 0 <= k < a.len() ==> (#[trigger] a[k]).0 == b[k].0,
    ensures
        cells_width(a) == cells_width(b),
    decreases a.len(),
{
    if a.len() > 0 {
        lemma_cells_width_symbols(a.drop_last(), b.drop_last());
        assert(a.last().0 == b[b.len() - 1].0);
    }
}

/// Remapping the first `i` cells, then the rest from the column where those end, gives the
/// remapped line.
pub proof fn lemma_transformed_split(tab: Seq<char>, nl: Seq<char>, gs: Seq<(Seq<char>, Style)>, col: int, i: int)
    requires
        0 <= i <= gs.len(),
    ensures
        transformed(tab, nl, gs, col) == transformed(tab, nl, gs.take(i), col) + transformed(
            tab,
            nl,
            gs.skip(i),
            col + cells_width(transformed(tab, nl, gs.take(i), col)),
        ),
    decreases i,
{
    if i == 0 {
        assert(gs.take(0) =~= Seq::<(Seq<char>, Style)>::empty());
        assert(gs.skip(0) =~= gs);
        assert(cells_width(Seq::<(Seq<char>, Style)>::empty()) == 0);
        assert(transformed(tab, nl, gs, col) =~= Seq::<(Seq<char>, Style)>::empty() + transformed(tab, nl, gs, col));
    } else {
        let d = gs.drop_first();
        let r = remapped(tab, nl, gs[0], col);
        let c2 = col + cells_width(r);
        lemma_transformed_split(tab, nl, d, c2, i - 1);
        let pre = gs.take(i);
        assert(pre[0] == gs[0]);
        assert(pre.drop_first() =~= d.take(i - 1));
        assert(d.skip(i - 1) =~= gs.skip(i));
        let mid = transformed(tab, nl, d.take(i - 1), c2);
        assert(transformed(tab, nl, pre, col) == r + mid);
        lemma_cells_width_concat(r, mid);
        assert(transformed(tab, nl, gs, col) =~= (r + mid) + transformed(tab, nl, gs.skip(i), c2 + cells_width(mid)));
    }
}

/// A tab is shown as the cells that reach the next multiple of four columns: when the
/// cells shown before it (from column `col`) end at column `w`, the tab becomes the tab
/// symbol then spaces, `4 - w % 4` cells in all, drawn yellow over its style, and what
/// follows it starts at the column where those end.
pub proof fn lemma_tab_fills_to_next_stop(tab: Seq<char>, nl: Seq<char>, gs: Seq<(Seq<char>, Style)>, col: int, i: int)
    requires
        0 <= i < gs.len(),
        gs[i].0 == seq!['\t'],
        col >= 0,
    ensures
        ({
            let before = transformed(tab, nl, gs.take(i), col);
            let w = col + cells_width(before);
            let t = tab_cells(tab, gs[i].1, w);
            &&& w >= col
            &&& t.len() == 4 - w % 4
            &&& t[0] == (tab, yellowed(gs[i].1))
            &&& forall|k: int| 1 <= k < t.len() ==> #[trigger] t[k] == (seq![' '], yellowed(gs[i].1))
            &&& transformed(tab, nl, gs, col) == before + t + transformed(tab, nl, gs.skip(i + 1), w + cells_width(t))
        }),
{
    let before = transformed(tab, nl, gs.take(i), col);
    lemma_cells_width_nonneg(before);
    let w = col + cells_width(before);
    lemma_transformed_split(tab, nl, gs, col, i);
    let rest = gs.skip(i);
    assert(rest[0] == gs[i]);
    assert(rest.drop_first() =~= gs.skip(i + 1));
    assert(seq!['\t'] != seq!['\n']) by {
        assert(seq!['\t'][0] != seq!['\n'][0]);
    }
    let t = tab_cells(tab, gs[i].1, w);
    assert(remapped(tab, nl, gs[i], w) == t);
    assert(transformed(tab, nl, gs, col) =~= before + t + transformed(tab, nl, gs.skip(i + 1), w + cells_width(t)));
}

/// Every other cell is shown as one cell, in place: a line feed as the line-feed symbol
/// drawn yellow over its style, anything but a tab as itself; what follows starts at the
/// column where the shown cell ends.
pub proof fn lemma_other_cells_shown_in_place(tab: Seq<char>, nl: Seq<char>, gs: Seq<(Seq<char>, Style)>, col: int, i: int)
    requires
        0 <= i < gs.len(),
        gs[i].0 != seq!['\t'],
    ensures
        ({
            let before = transformed(tab, nl, gs.take(i), col);
            let w = col + cells_width(before);
            let shown = if gs[i].0 == seq!['\n'] { (nl, yellowed(gs[i].1)) } else { gs[i] };
            transformed(tab, nl, gs, col) == before.push(shown) + transformed(tab, nl, gs.skip(i + 1), w + str_width(shown.0))
        }),
{
    let before = transformed(tab, nl, gs.take(i), col);
    let w = col + cells_width(before);
    lemma_transformed_split(tab, nl, gs, col, i);
    let rest = gs.skip(i);
    assert(rest[0] == gs[i]);
    assert(rest.drop_first() =~= gs.skip(i + 1));
    let r = remapped(tab, nl, gs[i], w);
    assert(r.len() == 1);
    assert(r.drop_last() =~= Seq::<(Seq<char>, Style)>::empty());
    assert(cells_width(r.drop_last()) == 0);
    assert(r.last() == r[0]);
    assert(cells_width(r) == str_width(r[0].0));
    assert(transformed(tab, nl, gs, col) =~= before.push(r[0]) + transformed(tab, nl, gs.skip(i + 1), w + str_width(r[0].0)));
}

/// Laying out words (given as their width and number of clusters) over `cells`: a word of
/// no width is passed over; a word that would overflow the row starts a new one; each
/// other word takes its clusters from the cells not taken yet. `rows`, `cur`, `curw` and
/// `pos` are the rows done, the row being filled, its width and the cells taken so far.
pub open spec fn wrap_words(
    cells: Seq<(Seq<char>, Style)>,
    words: Seq<(int, int)>,
    width: int,
    rows: Seq<Seq<(Seq<char>, Style)>>,
    cur: Seq<(Seq<char>, Style)>,
    curw: int,
    pos: int,
) -> Seq<Seq<(Seq<char>, Style)>>
    decreases words.len(),
{
    if words.len() == 0 {
        if cur.len() > 0 {
            rows.push(cur)
        } else {
            rows
        }
    } else {
        let w = words[0].0;
        let g = words[0].1;
        if w == 0 {
            wrap_words(cells, words.drop_first(), width, rows, cur, curw, pos)
        } else {
            let brk = w + curw > width;
            let rows2 = if brk { rows.push(cur) } else { rows };
            let cur2 = if brk { seq![] } else { cur };
            let curw2 = if brk { 0 } else { curw };
            let end = if pos + g < cells.len() { pos + g } else { cells.len() as int };
            wrap_words(cells, words.drop_first(), width, rows2, cur2 + cells.subrange(pos, end), curw2 + w, end)
        }
    }
}

/// The width and number of clusters of each word.
pub open spec fn word_sizes(words: Seq<Seq<char>>) -> Seq<(int, int)> {
    words.map_values(|w: Seq<char>| (str_width(w) as int, grapheme_count(w) as int))
}

/// The chars of the cells' symbols, one after the other.
pub open spec fn symbols_text(cells: Seq<(Seq<char>, Style)>) -> Seq<char> {
    cells.map_values(|c: (Seq<char>, Style)| c.0).flatten()
}

/// The rows of cells: the cells' text is split between words, and each word goes on the
/// row being filled unless it would overflow it.
pub open spec fn wrapped(cells: Seq<(Seq<char>, Style)>, width: int) -> Seq<Seq<(Seq<char>, Style)>> {
    wrap_words(cells, word_sizes(word_bounds(symbols_text(cells))), width, seq![], seq![], 0, 0)
}

/// How many cells laying out `words` takes, from `pos` on: a word of no width takes none,
/// each other word its clusters, as far as the cells go.
pub open spec fn words_end(words: Seq<(int, int)>, len: int, pos: int) -> int
    decreases words.len(),
{
    if words.len() == 0 {
        pos
    } else if words[0].0 == 0 {
        words_end(words.drop_first(), len, pos)
    } else {
        let end = if pos + words[0].1 < len { pos + words[0].1 } else { len };
        words_end(words.drop_first(), len, end)
    }
}

/// The number of clusters of the words, all together.
pub open spec fn words_clusters(words: Seq<(int, int)>) -> int
    decreases words.len(),
{
    if words.len() == 0 {
        0
    } else {
        words[0].1 + words_clusters(words.drop_first())
    }
}

proof fn lemma_wrap_words_flat(
    cells: Seq<(Seq<char>, Style)>,
    words: Seq<(int, int)>,
    width: int,
    rows: Seq<Seq<(Seq<char>, Style)>>,
    cur: Seq<(Seq<char>, Style)>,
    curw: int,
    pos: int,
)
    requires
        0 <= pos <= cells.len(),
        forall|k: int| 0 <= k < words.len() ==> (#[trigger] words[k]).1 >= 0,
        rows.flatten() + cur == cells.take(pos),
    ensures
        wrap_words(cells, words, width, rows, cur, curw, pos).flatten() == cells.take(words_end(words, cells.len() as int, pos)),
        pos <= words_end(words, cells.len() as int, pos) <= cells.len(),
    decreases words.len(),
{
    broadcast use Seq::lemma_flatten_push;

    if words.len() == 0 {
        if cur.len() > 0 {
            assert(rows.push(cur).flatten() =~= rows.flatten() + cur);
        } else {
            assert(rows.flatten() + cur =~= rows.flatten());
        }
    } else {
        let rest = words.drop_first();
        assert forall|k: int| 0 <= k < rest.len() implies (#[trigger] rest[k]).1 >= 0 by {
            assert(rest[k] == words[k + 1]);
        }
        assert(words[0].1 >= 0);
        let w = words[0].0;
        let g = words[0].1;
        if w == 0 {
            lemma_wrap_words_flat(cells, rest, width, rows, cur, curw, pos);
        } else {
            let brk = w + curw > width;
            let rows2 = if brk { rows.push(cur) } else { rows };
            let cur2: Seq<(Seq<char>, Style)> = if brk { seq![] } else { cur };
            let end = if pos + g < cells.len() { pos + g } else { cells.len() as int };
            if brk {
                assert(rows2.flatten() =~= rows.flatten() + cur);
                assert(rows2.flatten() + cur2 =~= rows.flatten() + cur);
            }
            assert(rows2.flatten() + cur2 == cells.take(pos));
            assert(cells.take(pos) + cells.subrange(pos, end) =~= cells.take(end));
            assert(rows2.flatten() + (cur2 + cells.subrange(pos, end)) =~= (rows2.flatten() + cur2) + cells.subrange(pos, end));
            let curw2 = if brk { 0 } else { curw };
            lemma_wrap_words_flat(cells, rest, width, rows2, cur2 + cells.subrange(pos, end), curw2 + w, end);
        }
    }
}

proof fn lemma_words_end_all(words: Seq<(int, int)>, len: int, pos: int)
    requires
        0 <= pos <= len,
        forall|k: int| 0 <= k < words.len() ==> (#[trigger] words[k]).0 != 0 && words[k].1 >= 0,
    ensures
        words_end(words, len, pos) == if pos + words_clusters(words) < len { pos + words_clusters(words) } else { len },
    decreases words.len(),
{
    if words.len() > 0 {
        let rest = words.drop_first();
        assert forall|k: int| 0 <= k < rest.len() implies (#[trigger] rest[k]).0 != 0 && rest[k].1 >= 0 by {
            assert(rest[k] == words[k + 1]);
        }
        assert(words[0].0 != 0 && words[0].1 >= 0);
        let end = if pos + words[0].1 < len { pos + words[0].1 } else { len };
        lemma_words_end_all(rest, len, end);
        lemma_words_clusters_nonneg(rest);
    }
}

proof fn lemma_words_clusters_nonneg(words: Seq<(int, int)>)
    requires
        forall|k: int| 0 <= k < words.len() ==> (#[trigger] words[k]).1 >= 0,
    ensures
        words_clusters(words) >= 0,
    decreases words.len(),
{
    if words.len() > 0 {
        let rest = words.drop_first();
        assert forall|k: int| 0 <= k < rest.len() implies (#[trigger] rest[k]).1 >= 0 by {
            assert(rest[k] == words[k + 1]);
        }
        assert(words[0].1 >= 0);
        lemma_words_clusters_nonneg(rest);
    }
}

/// Wrapping keeps the cells in order and drops none before the last one it lays out: the
/// rows, put back together, are the first cells of the line, as many as the words take.
/// When no word has zero width and the words have at least as many clusters as there are
/// cells, that is every cell.
pub proof fn lemma_wrapped_keeps_cells(cells: Seq<(Seq<char>, Style)>, width: int)
    ensures
        ({
            let words = word_sizes(word_bounds(symbols_text(cells)));
            &&& wrapped(cells, width).flatten() == cells.take(words_end(words, cells.len() as int, 0))
            &&& (forall|k: int| 0 <= k < words.len() ==> (#[trigger] words[k]).0 != 0)
                && words_clusters(words) >= cells.len() ==> wrapped(cells, width).flatten() == cells
        }),
{
    let words = word_sizes(word_bounds(symbols_text(cells)));
    assert forall|k: int| 0 <= k < words.len() implies (#[trigger] words[k]).1 >= 0 by {}
    assert(Seq::<Seq<(Seq<char>, Style)>>::empty().flatten() + Seq::<(Seq<char>, Style)>::empty() =~= cells.take(0));
    lemma_wrap_words_flat(cells, words, width, seq![], seq![], 0, 0);
    if (forall|k: int| 0 <= k < words.len() ==> (#[trigger] words[k]).0 != 0) && words_clusters(words) >= cells.len() {
        lemma_words_end_all(words, cells.len() as int, 0);
        assert(cells.take(cells.len() as int) =~= cells);
    }
}

/// The columns the first `k` words take, all together.
pub open spec fn prefix_widths(ws: Seq<(int, int)>, k: int) -> int
    decreases k,
{
    if k <= 0 {
        0
    } else {
        prefix_widths(ws, k - 1) + ws[k - 1].0
    }
}

/// The clusters of the first `k` words, all together.
pub open spec fn prefix_clusters(ws: Seq<(int, int)>, k: int) -> int
    decreases k,
{
    if k <= 0 {
        0
    } else {
        prefix_clusters(ws, k - 1) + ws[k - 1].1
    }
}

/// The words of a line as wrapping expects them: each takes at least one column and no
/// more than the row has, each has at least one cluster, and their clusters are the cells.
pub open spec fn words_fit(cells: Seq<(Seq<char>, Style)>, ws: Seq<(int, int)>, width: int) -> bool {
    &&& forall|k: int| 0 <= k < ws.len() ==> 1 <= (#[trigger] ws[k]).0 <= width && ws[k].1 >= 1
    &&& prefix_clusters(ws, ws.len() as int) == cells.len()
    &&& width >= 0
}

/// Row `j` holds the cells of the words from `cuts[j]` up to `cuts[j + 1]`, at least one
/// word, and they fit in `width` columns.
pub open spec fn row_of_words(
    cells: Seq<(Seq<char>, Style)>,
    ws: Seq<(int, int)>,
    width: int,
    rows: Seq<Seq<(Seq<char>, Style)>>,
    cuts: Seq<int>,
    j: int,
) -> bool {
    &&& 0 <= cuts[j] < cuts[j + 1] <= ws.len()
    &&& rows[j] == cells.subrange(prefix_clusters(ws, cuts[j]), prefix_clusters(ws, cuts[j + 1]))
    &&& prefix_widths(ws, cuts[j + 1]) - prefix_widths(ws, cuts[j]) <= width
}

/// The row after row `j` starts with a word that did not fit on row `j`.
pub open spec fn closed_when_full(ws: Seq<(int, int)>, width: int, cuts: Seq<int>, j: int) -> bool {
    cuts[j + 1] < ws.len() && prefix_widths(ws, cuts[j + 1]) - prefix_widths(ws, cuts[j]) + ws[cuts[j + 1]].0 > width
}

/// `rows` lay the words out greedily, cut at `cuts`: each row holds whole words, one or
/// more, that fit in `width` columns, and a row ends only where the next word would not
/// fit on it; the rows together hold every word.
pub open spec fn greedy_rows(
    cells: Seq<(Seq<char>, Style)>,
    ws: Seq<(int, int)>,
    width: int,
    rows: Seq<Seq<(Seq<char>, Style)>>,
    cuts: Seq<int>,
) -> bool {
    &&& cuts.len() == rows.len() + 1
    &&& cuts[0] == 0
    &&& cuts[rows.len() as int] == ws.len()
    &&& forall|j: int| 0 <= j < rows.len() ==> #[trigger] row_of_words(cells, ws, width, rows, cuts, j)
    &&& forall|j: int| 0 <= j < rows.len() - 1 ==> #[trigger] closed_when_full(ws, width, cuts, j)
}

proof fn lemma_prefix_nonneg(ws: Seq<(int, int)>, width: int, a: int)
    requires
        forall|k: int| 0 <= k < ws.len() ==> 1 <= (#[trigger] ws[k]).0 <= width && ws[k].1 >= 1,
        0 <= a <= ws.len(),
    ensures
        prefix_clusters(ws, a) >= 0,
        prefix_widths(ws, a) >= 0,
    decreases a,
{
    if a > 0 {
        lemma_prefix_nonneg(ws, width, a - 1);
        assert(ws[a - 1].0 >= 1 && ws[a - 1].1 >= 1);
    }
}

proof fn lemma_prefix_grow(ws: Seq<(int, int)>, width: int, a: int, b: int)
    requires
        forall|k: int| 0 <= k < ws.len() ==> 1 <= (#[trigger] ws[k]).0 <= width && ws[k].1 >= 1,
        0 <= a <= b <= ws.len(),
    ensures
        prefix_clusters(ws, a) <= prefix_clusters(ws, b),
        prefix_widths(ws, a) <= prefix_widths(ws, b),
        a < b ==> prefix_clusters(ws, a) < prefix_clusters(ws, b),
        a < b ==> prefix_widths(ws, a) < prefix_widths(ws, b),
        prefix_clusters(ws, a) >= 0,
    decreases b - a,
{
    lemma_prefix_nonneg(ws, width, a);
    if a < b {
        lemma_prefix_grow(ws, width, a, b - 1);
        assert(ws[b - 1].0 >= 1 && ws[b - 1].1 >= 1);
    }
}

proof fn lemma_prefix_shift(ws: Seq<(int, int)>, k: int)
    requires
        0 <= k < ws.len(),
    ensures
        prefix_clusters(ws, k + 1) == ws[0].1 + prefix_clusters(ws.drop_first(), k),
    decreases k,
{
    assert(prefix_clusters(ws, 0) == 0);
    assert(prefix_clusters(ws.drop_first(), 0) == 0);
    if k > 0 {
        lemma_prefix_shift(ws, k - 1);
        assert(ws.drop_first()[k - 1] == ws[k]);
    }
}

proof fn lemma_words_clusters_prefix(ws: Seq<(int, int)>)
    ensures
        words_clusters(ws) == prefix_clusters(ws, ws.len() as int),
    decreases ws.len(),
{
    if ws.len() > 0 {
        lemma_words_clusters_prefix(ws.drop_first());
        lemma_prefix_shift(ws, ws.len() - 1);
    }
}

/// Closing the row being filled, which holds the words from the last cut up to `p`, keeps
/// every row one of whole words that fit, and each closed row full.
proof fn lemma_close_row(
    cells: Seq<(Seq<char>, Style)>,
    ws: Seq<(int, int)>,
    width: int,
    p: int,
    rows: Seq<Seq<(Seq<char>, Style)>>,
    cur: Seq<(Seq<char>, Style)>,
    cuts: Seq<int>,
)
    requires
        cuts.len() == rows.len() + 1,
        0 <= cuts[rows.len() as int] < p <= ws.len(),
        forall|j: int| 0 <= j < rows.len() ==> #[trigger] row_of_words(cells, ws, width, rows, cuts, j),
        forall|j: int| 0 <= j < rows.len() ==> #[trigger] closed_when_full(ws, width, cuts, j),
        cur == cells.subrange(prefix_clusters(ws, cuts[rows.len() as int]), prefix_clusters(ws, p)),
        prefix_widths(ws, p) - prefix_widths(ws, cuts[rows.len() as int]) <= width,
    ensures
        forall|j: int| 0 <= j < rows.len() + 1 ==> #[trigger] row_of_words(cells, ws, width, rows.push(cur), cuts.push(p), j),
        forall|j: int| 0 <= j < rows.len() ==> #[trigger] closed_when_full(ws, width, cuts.push(p), j),
        cuts.push(p)[0] == cuts[0],
{
    let n = rows.len() as int;
    let rows2 = rows.push(cur);
    let cuts2 = cuts.push(p);
    assert forall|j: int| 0 <= j < n + 1 implies #[trigger] row_of_words(cells, ws, width, rows2, cuts2, j) by {
        if j < n {
            assert(row_of_words(cells, ws, width, rows, cuts, j));
            assert(rows2[j] == rows[j] && cuts2[j] == cuts[j] && cuts2[j + 1] == cuts[j + 1]);
        } else {
            assert(rows2[j] == cur && cuts2[j] == cuts[n] && cuts2[j + 1] == p);
        }
    }
    assert forall|j: int| 0 <= j < n implies #[trigger] closed_when_full(ws, width, cuts2, j) by {
        assert(closed_when_full(ws, width, cuts, j));
        assert(cuts2[j] == cuts[j] && cuts2[j + 1] == cuts[j + 1]);
    }
}

proof fn lemma_greedy_from(
    cells: Seq<(Seq<char>, Style)>,
    ws: Seq<(int, int)>,
    width: int,
    p: int,
    rows: Seq<Seq<(Seq<char>, Style)>>,
    cur: Seq<(Seq<char>, Style)>,
    curw: int,
    pos: int,
    cuts: Seq<int>,
) -> (out: Seq<int>)
    requires
        words_fit(cells, ws, width),
        0 <= p <= ws.len(),
        cuts.len() == rows.len() + 1,
        cuts[0] == 0,
        0 <= cuts[rows.len() as int] <= p,
        forall|j: int| 0 <= j < rows.len() ==> #[trigger] row_of_words(cells, ws, width, rows, cuts, j),
        forall|j: int| 0 <= j < rows.len() ==> #[trigger] closed_when_full(ws, width, cuts, j),
        cur == cells.subrange(prefix_clusters(ws, cuts[rows.len() as int]), prefix_clusters(ws, p)),
        curw == prefix_widths(ws, p) - prefix_widths(ws, cuts[rows.len() as int]),
        curw <= width,
        pos == prefix_clusters(ws, p),
    ensures
        greedy_rows(cells, ws, width, wrap_words(cells, ws.skip(p), width, rows, cur, curw, pos), out),
    decreases ws.len() - p,
{
    let n = rows.len() as int;
    let c = cuts[n];
    let len = ws.len() as int;
    lemma_prefix_grow(ws, width, c, p);
    lemma_prefix_grow(ws, width, p, len);
    if p == len {
        assert(ws.skip(p).len() == 0);
        if c < p {
            lemma_close_row(cells, ws, width, p, rows, cur, cuts);
            cuts.push(p)
        } else {
            assert(cur.len() == 0);
            assert forall|j: int| 0 <= j < rows.len() - 1 implies #[trigger] closed_when_full(ws, width, cuts, j) by {
                assert(closed_when_full(ws, width, cuts, j));
            }
            cuts
        }
    } else {
        let words = ws.skip(p);
        assert(words[0] == ws[p]);
        assert(words.drop_first() =~= ws.skip(p + 1));
        let w = ws[p].0;
        let g = ws[p].1;
        assert(1 <= w <= width && g >= 1);
        lemma_prefix_grow(ws, width, p + 1, len);
        let end = prefix_clusters(ws, p + 1);
        assert(pos + g == end);
        if w + curw > width {
            assert(c < p);
            let out1 = cuts.push(p);
            let rows2 = rows.push(cur);
            lemma_close_row(cells, ws, width, p, rows, cur, cuts);
            assert(closed_when_full(ws, width, out1, n)) by {
                assert(out1[n] == c && out1[n + 1] == p);
            }
            assert forall|j: int| 0 <= j < rows2.len() implies #[trigger] closed_when_full(ws, width, out1, j) by {
                if j < n {
                    assert(closed_when_full(ws, width, out1, j));
                }
            }
            let cur2 = Seq::<(Seq<char>, Style)>::empty() + cells.subrange(pos, end);
            assert(cur2 =~= cells.subrange(prefix_clusters(ws, p), prefix_clusters(ws, p + 1)));
            lemma_greedy_from(cells, ws, width, p + 1, rows2, cur2, w, end, out1)
        } else {
            let cur2 = cur + cells.subrange(pos, end);
            assert(cur2 =~= cells.subrange(prefix_clusters(ws, c), prefix_clusters(ws, p + 1)));
            lemma_greedy_from(cells, ws, width, p + 1, rows, cur2, curw + w, end, cuts)
        }
    }
}

/// Wrapping lays whole words out greedily: when every word of the line takes at least one
/// column and no more than `width`, has at least one cluster, and the words' clusters are
/// the line's cells, the rows hold the words in order, each row one or more whole words
/// that fit in `width` columns, no row empty, and a row ends only where the next word would
/// not fit on it; put back together, the rows are the cells.
pub proof fn lemma_wrapped_is_greedy(cells: Seq<(Seq<char>, Style)>, width: int)
    requires
        words_fit(cells, word_sizes(word_bounds(symbols_text(cells))), width),
    ensures
        exists|cuts: Seq<int>|
            greedy_rows(cells, word_sizes(word_bounds(symbols_text(cells))), width, wrapped(cells, width), cuts),
        forall|j: int| 0 <= j < wrapped(cells, width).len() ==> (#[trigger] wrapped(cells, width)[j]).len() > 0,
        wrapped(cells, width).flatten() == cells,
{
    let ws = word_sizes(word_bounds(symbols_text(cells)));
    assert(ws.skip(0) =~= ws);
    assert(cells.subrange(0, 0) =~= Seq::<(Seq<char>, Style)>::empty());
    let cuts = lemma_greedy_from(cells, ws, width, 0, seq![], seq![], 0, 0, seq![0]);
    lemma_greedy_rows_nonempty(cells, ws, width, wrapped(cells, width), cuts);
    lemma_wrapped_fit_keeps_cells(cells, width);
}

proof fn lemma_greedy_rows_nonempty(
    cells: Seq<(Seq<char>, Style)>,
    ws: Seq<(int, int)>,
    width: int,
    rows: Seq<Seq<(Seq<char>, Style)>>,
    cuts: Seq<int>,
)
    requires
        words_fit(cells, ws, width),
        greedy_rows(cells, ws, width, rows, cuts),
    ensures
        forall|j: int| 0 <= j < rows.len() ==> (#[trigger] rows[j]).len() > 0,
{
    assert forall|j: int| 0 <= j < rows.len() implies (#[trigger] rows[j]).len() > 0 by {
        assert(row_of_words(cells, ws, width, rows, cuts, j));
        lemma_prefix_grow(ws, width, cuts[j], cuts[j + 1]);
        lemma_prefix_grow(ws, width, cuts[j + 1], ws.len() as int);
    }
}

proof fn lemma_wrapped_fit_keeps_cells(cells: Seq<(Seq<char>, Style)>, width: int)
    requires
        words_fit(cells, word_sizes(word_bounds(symbols_text(cells))), width),
    ensures
        wrapped(cells, width).flatten() == cells,
{
    let ws = word_sizes(word_bounds(symbols_text(cells)));
    lemma_words_clusters_prefix(ws);
    assert forall|k: int| 0 <= k < ws.len() implies (#[trigger] ws[k]).0 != 0 by {}
    lemma_wrapped_keeps_cells(cells, width);
}

/// Rows as plain values.
pub open spec fn rows_view(rows: Seq<Vec<StyledGrapheme>>) -> Seq<Seq<(Seq<char>, Style)>> {
    rows.map_values(|r: Vec<StyledGrapheme>| cells_view(r@))
}

/// Adding, then taking the remainder by four, can be done on the remainders.
pub proof fn lemma_mod4_step(a: int, b: int)
    requires
        a >= 0,
        b >= 0,
    ensures
        (a % 4 + b % 4) % 4 == (a + b) % 4,
{
    assert((a % 4 + b % 4) % 4 == (a + b) % 4) by (nonlinear_arith)
        requires
            a >= 0,
            b >= 0,
    ;
}

impl BaseLineProcessor {
    /// A processor that shows tabs and line feeds as blank cells.
    pub fn default() -> (p: Self)
        ensures
            p.symbols.tab.symbol@ == seq![' '],
            p.symbols.nl.symbol@ == seq![' '],
            p.symbols.tab.style == (Style { fg: None, bg: None, add_modifier: 0, sub_modifier: 0 }),
            p.symbols.nl.style == (Style { fg: None, bg: None, add_modifier: 0, sub_modifier: 0 }),
    {
        let tab = StyledGrapheme { symbol: " ".to_owned(), style: Style::new() };
        let nl = StyledGrapheme { symbol: " ".to_owned(), style: Style::new() };
        proof {
            reveal_strlit(" ");
            assert(" "@ =~= seq![' ']);
        }
        BaseLineProcessor { symbols: SymbolMap { tab, nl } }
    }

    /// The cells a tab at column `inline_index` stands for.
    pub fn remap_tab(&self, grapheme: StyledGrapheme, inline_index: usize) -> (cells: Vec<StyledGrapheme>)
        ensures
            cells_view(cells@) == tab_cells(self.symbols.tab.symbol@, grapheme.style, inline_index as int),
    {
        let tab_width: usize = 4 - inline_index % 4;
        let style = grapheme.style.patch(Style::new().fg(Color::Yellow));
        let mut tab: Vec<StyledGrapheme> = Vec::new();
        tab.push(StyledGrapheme { symbol: self.symbols.tab.symbol.clone(), style });
        let mut k: usize = 1;
        while k < tab_width
            invariant
                1 <= k <= tab_width,
                tab_width == 4 - inline_index % 4,
                style == yellowed(grapheme.style),
                tab@.len() == k,
                cells_view(tab@) == tab_cells(self.symbols.tab.symbol@, grapheme.style, inline_index as int).take(k as int),
            decreases tab_width - k,
        {
            let space = " ".to_owned();
            proof {
                reveal_strlit(" ");
                assert(" "@ =~= seq![' ']);
            }
            let ghost prev = cells_view(tab@);
            tab.push(StyledGrapheme { symbol: space, style });
            proof {
                let t = tab_cells(self.symbols.tab.symbol@, grapheme.style, inline_index as int);
                assert(t.take(k + 1) =~= t.take(k as int).push(t[k as int]));
                assert(cells_view(tab@) =~= prev.push(t[k as int]));
            }
            k = k + 1;
        }
        proof {
            let t = tab_cells(self.symbols.tab.symbol@, grapheme.style, inline_index as int);
            assert(t.take(tab_width as int) =~= t);
        }
        tab
    }

    /// The cell a line feed stands for.
    pub fn remap_newline(&self, grapheme: StyledGrapheme) -> (cells: Vec<StyledGrapheme>)
        ensures
            cells_view(cells@) == seq![(self.symbols.nl.symbol@, yellowed(grapheme.style))],
    {
        let style = grapheme.style.patch(Style::new().fg(Color::Yellow));
        let mut v: Vec<StyledGrapheme> = Vec::new();
        v.push(StyledGrapheme { symbol: self.symbols.nl.symbol.clone(), style });
        assert(cells_view(v@) =~= seq![(self.symbols.nl.symbol@, yellowed(grapheme.style))]);
        v
    }

    /// The cells of `line` remapped one after the other from column 0.
    pub fn transform_line(&self, line: Vec<StyledGrapheme>, default_bg: Color) -> (out: Vec<StyledGrapheme>)
        ensures
            cells_view(out@) == transformed(self.symbols.tab.symbol@, self.symbols.nl.symbol@, cells_view(line@), 0),
    {
        let ghost tab = self.symbols.tab.symbol@;
        let ghost nl = self.symbols.nl.symbol@;
        let ghost gs = cells_view(line@);
        let mut out: Vec<StyledGrapheme> = Vec::new();
        assert(gs.skip(0) =~= gs);
        let mut col4: usize = 0;
        let ghost mut col: int = 0;
        let mut i: usize = 0;
        while i < line.len()
            invariant
                tab == self.symbols.tab.symbol@,
                nl == self.symbols.nl.symbol@,
                gs == cells_view(line@),
                i <= line@.len(),
                col >= 0,
                col4 == col % 4,
                cells_view(out@) + transformed(tab, nl, gs.skip(i as int), col) == transformed(tab, nl, gs, 0),
            decreases line@.len() - i,
        {
            let g = copy_cell(&line[i]);
            proof {
                assert(gs.skip(i as int)[0] == gs[i as int]);
                assert(gs.skip(i as int).drop_first() =~= gs.skip(i + 1));
            }
            let remapped_key = if is_single(g.symbol.as_str(), '\n') {
                self.remap_newline(g)
            } else if is_single(g.symbol.as_str(), '\t') {
                self.remap_tab(g, col4)
            } else {
                let mut v: Vec<StyledGrapheme> = Vec::new();
                v.push(g);
                v
            };
            let ghost r = remapped(tab, nl, gs[i as int], col);
            assert(cells_view(remapped_key@) == r);
            let mut size4: usize = 0;
            let mut j: usize = 0;
            while j < remapped_key.len()
                invariant
                    j <= remapped_key@.len(),
                    cells_view(remapped_key@) == r,
                    size4 == cells_width(r.take(j as int)) % 4,
                    cells_width(r.take(j as int)) >= 0,
                decreases remapped_key@.len() - j,
            {
                let w = display_width(remapped_key[j].symbol.as_str());
                proof {
                    assert(r.take(j + 1).drop_last() =~= r.take(j as int));
                    assert(r.take(j + 1).last() == r[j as int]);
                    lemma_mod4_step(cells_width(r.take(j as int)), w as int);
                }
                size4 = (size4 + w % 4) % 4;
                j = j + 1;
            }
            proof {
                assert(r.take(remapped_key@.len() as int) =~= r);
                lemma_mod4_step(col, cells_width(r));
            }
            col4 = (col4 + size4) % 4;
            let mut k: usize = 0;
            let ghost before = cells_view(out@);
            while k < remapped_key.len()
                invariant
                    k <= remapped_key@.len(),
                    cells_view(remapped_key@) == r,
                    cells_view(out@) == before + r.take(k as int),
                decreases remapped_key@.len() - k,
            {
                let c = copy_cell(&remapped_key[k]);
                let ghost prev = cells_view(out@);
                out.push(c);
                proof {
                    assert(cells_view(remapped_key@)[k as int] == cell_view(remapped_key@[k as int]));
                    assert(cells_view(out@) =~= prev.push(cell_view(c)));
                    assert(r.take(k + 1) =~= r.take(k as int).push(r[k as int]));
                    assert(cells_view(out@) =~= before + r.take(k + 1));
                }
                k = k + 1;
            }
            proof {
                assert(r.take(remapped_key@.len() as int) =~= r);
                col = col + cells_width(r);
                assert(before + r + transformed(tab, nl, gs.skip(i + 1), col) =~= before + (r + transformed(tab, nl, gs.skip(i + 1), col)));
            }
            i = i + 1;
        }
        proof {
            assert(gs.skip(i as int) =~= Seq::<(Seq<char>, Style)>::empty());
            assert(cells_view(out@) + Seq::<(Seq<char>, Style)>::empty() =~= cells_view(out@));
        }
        out
    }

    /// Breaks `graphemes` into rows of at most `width` columns between words: the words
    /// are those of the cells' text, a word of no width is passed over, and a word that
    /// would overflow the row starts a new one (so rows are filled greedily with whole
    /// words: see `lemma_wrapped_is_greedy`).
    pub fn wrap_line(graphemes: Vec<StyledGrapheme>, width: u16) -> (rows: Vec<Vec<StyledGrapheme>>)
        ensures
            rows_view(rows@) == wrapped(cells_view(graphemes@), width as int),
    {
        let ghost cells = cells_view(graphemes@);
        let mut text: Vec<char> = Vec::new();
        let mut i: usize = 0;
        while i < graphemes.len()
            invariant
                cells == cells_view(graphemes@),
                i <= graphemes@.len(),
                text@ == cells.take(i as int).map_values(|c: (Seq<char>, Style)| c.0).flatten(),
            decreases graphemes@.len() - i,
        {
            let sym = str_chars(graphemes[i].symbol.as_str());
            let ghost before = text@;
            let mut j: usize = 0;
            while j < sym.len()
                invariant
                    j <= sym@.len(),
                    text@ == before + sym@.take(j as int),
                decreases sym@.len() - j,
            {
                text.push(sym[j]);
                proof {
                    assert(sym@.take(j + 1) =~= sym@.take(j as int).push(sym@[j as int]));
                }
                j = j + 1;
            }
            proof {
                let m = cells.take(i + 1).map_values(|c: (Seq<char>, Style)| c.0);
                assert(m =~= cells.take(i as int).map_values(|c: (Seq<char>, Style)| c.0).push(sym@));
                cells.take(i as int).map_values(|c: (Seq<char>, Style)| c.0).lemma_flatten_push(sym@);
                assert(sym@.take(sym@.len() as int) =~= sym@);
            }
            i = i + 1;
        }
        proof {
            assert(cells.take(i as int) =~= cells);
        }
        let joined = string_from_chars(&text);
        let words = split_word_bounds(joined.as_str());
        let ghost sizes = word_sizes(word_bounds(symbols_text(cells)));
        let mut rows: Vec<Vec<StyledGrapheme>> = Vec::new();
        let mut cur_row: Vec<StyledGrapheme> = Vec::new();
        proof {
            assert(joined@ == symbols_text(cells));
            assert(sizes.skip(0) =~= sizes);
            assert(rows_view(rows@) =~= Seq::<Seq<(Seq<char>, Style)>>::empty());
            assert(cells_view(cur_row@) =~= Seq::<(Seq<char>, Style)>::empty());
        }
        let mut cur_row_width: usize = 0;
        let mut pos: usize = 0;
        let mut k: usize = 0;
        while k < words.len()
            invariant
                cells == cells_view(graphemes@),
                sizes == word_sizes(words@.map_values(|w: String| w@)),
                k <= words@.len(),
                pos <= graphemes@.len(),
                wrap_words(cells, sizes, width as int, seq![], seq![], 0, 0) == wrap_words(
                    cells,
                    sizes.skip(k as int),
                    width as int,
                    rows_view(rows@),
                    cells_view(cur_row@),
                    cur_row_width as int,
                    pos as int,
                ),
            decreases words@.len() - k,
        {
            proof {
                assert(sizes.skip(k as int)[0] == sizes[k as int]);
                assert(sizes.skip(k as int).drop_first() =~= sizes.skip(k + 1));
                assert(sizes[k as int] == (str_width(words@[k as int]@) as int, grapheme_count(words@[k as int]@) as int));
            }
            let word_width = display_width(words[k].as_str());
            if word_width != 0 {
                if word_width.saturating_add(cur_row_width) > width as usize {
                    let done = cur_row;
                    let ghost prev = rows_view(rows@);
                    rows.push(done);
                    cur_row = Vec::new();
                    cur_row_width = 0;
                    proof {
                        assert(rows_view(rows@) =~= prev.push(cells_view(done@)));
                    }
                }
                let n = count_graphemes(words[k].as_str());
                let end = if n < graphemes.len() - pos { pos + n } else { graphemes.len() };
                let ghost before = cells_view(cur_row@);
                let mut t: usize = pos;
                while t < end
                    invariant
                        cells == cells_view(graphemes@),
                        pos <= t <= end <= graphemes@.len(),
                        cells_view(cur_row@) == before + cells.subrange(pos as int, t as int),
                    decreases end - t,
                {
                    let c = copy_cell(&graphemes[t]);
                    let ghost prev = cells_view(cur_row@);
                    cur_row.push(c);
                    proof {
                        assert(cells[t as int] == cell_view(graphemes@[t as int]));
                        assert(cells_view(cur_row@) =~= prev.push(cell_view(c)));
                        assert(cells.subrange(pos as int, t + 1) =~= cells.subrange(pos as int, t as int).push(cells[t as int]));
                        assert(cells_view(cur_row@) =~= before + cells.subrange(pos as int, t + 1));
                    }
                    t = t + 1;
                }
                cur_row_width = cur_row_width + word_width;
                pos = end;
            }
            k = k + 1;
        }
        if cur_row.len() > 0 {
            let done = cur_row;
            let ghost prev = rows_view(rows@);
            rows.push(done);
            proof {
                assert(rows_view(rows@) =~= prev.push(cells_view(done@)));
            }
        }
        proof {
            assert(sizes.skip(k as int) =~= Seq::<(int, int)>::empty());
        }
        rows
    }
}

impl LineProcessor for BaseLineProcessor {
    fn process_line(&self, line: Vec<StyledGrapheme>, width: u16, default_bg: Color) -> (rows: Vec<Vec<StyledGrapheme>>)
        ensures
            rows_view(rows@) == wrapped(
                transformed(self.symbols.tab.symbol@, self.symbols.nl.symbol@, cells_view(line@), 0),
                width as int,
            ),
    {
        let line = self.transform_line(line, default_bg);
        Self::wrap_line(line, width)
    }
}

} // verus!
