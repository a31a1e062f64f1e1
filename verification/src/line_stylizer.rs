//! A line stylizer over highlighted tokens: tokens are cut into grapheme clusters, tabs and
//! line feeds are shown as yellow symbols, some cells get a style of their own (a cursor,
//! say), and the line is broken into rows of a given width, cell by cell.
use crate::graphemes::{grapheme_clusters, graphemes, views};
use crate::line::processor::{
    cells_width, lemma_cells_width_concat, lemma_cells_width_nonneg, lemma_cells_width_symbols, lemma_mod4_step,
    remapped, symbols_text, tab_cells,
};
use crate::line::stylizer::{nl_symbol, tab_symbol};
use crate::line::{cell_view, cells_view, copy_cell, display_width, is_single, str_width, yellowed, Color, Style, StyledGrapheme};
use std::collections::HashMap;
use vstd::prelude::*;

verus! {

broadcast use {vstd::seq_lib::group_seq_properties, vstd::std_specs::hash::group_hash_axioms};

/// The cells of a token: its clusters, each in the token's style.
pub open spec fn token_cells(t: (Seq<char>, Style)) -> Seq<(Seq<char>, Style)> {
    grapheme_clusters(t.0).map_values(|g: Seq<char>| (g, t.1))
}

/// The cells of the tokens, one token after the other.
pub open spec fn tokens_cells(ts: Seq<(Seq<char>, Style)>) -> Seq<(Seq<char>, Style)>
    decreases ts.len(),
{
    if ts.len() == 0 {
        seq![]
    } else {
        tokens_cells(ts.drop_last()) + token_cells(ts.last())
    }
}

/// The remapped cells of the cell at `key`, the first of them taking the style given for
/// `key`, if one is.
pub open spec fn restyled(r: Seq<(Seq<char>, Style)>, key: int, sparse: Map<usize, Style>) -> Seq<(Seq<char>, Style)> {
    if 0 <= key <= usize::MAX && sparse.contains_key(key as usize) && r.len() > 0 {
        r.update(0, (r[0].0, sparse[key as usize]))
    } else {
        r
    }
}

/// The cells of `gs`, the `key`-th of the line first, remapped one after the other from
/// column `col` and restyled.
pub open spec fn stylized(gs: Seq<(Seq<char>, Style)>, col: int, key: int, sparse: Map<usize, Style>) -> Seq<(Seq<char>, Style)>
    decreases gs.len(),
{
    if gs.len() == 0 {
        seq![]
    } else {
        let r = restyled(remapped(tab_symbol(), nl_symbol(), gs[0], col), key, sparse);
        r + stylized(gs.drop_first(), col + cells_width(r), key + 1, sparse)
    }
}

/// Restyling keeps the symbols, so the width.
proof fn lemma_restyled_width(r: Seq<(Seq<char>, Style)>, key: int, sparse: Map<usize, Style>)
    ensures
        restyled(r, key, sparse).len() == r.len(),
        cells_width(restyled(r, key, sparse)) == cells_width(r),
{
    let r2 = restyled(r, key, sparse);
    assert forall|k: int| 0 <= k < r2.len() implies (#[trigger] r2[k]).0 == r[k].0 by {}
    lemma_cells_width_symbols(r2, r);
}

/// Stylizing the first `i` cells, then the rest from the column where those end (the rest
/// keyed from `key + i`), gives the stylized line.
pub proof fn lemma_stylized_split(gs: Seq<(Seq<char>, Style)>, col: int, key: int, sparse: Map<usize, Style>, i: int)
    requires
        0 <= i <= gs.len(),
    ensures
        stylized(gs, col, key, sparse) == stylized(gs.take(i), col, key, sparse) + stylized(
            gs.skip(i),
            col + cells_width(stylized(gs.take(i), col, key, sparse)),
            key + i,
            sparse,
        ),
    decreases i,
{
    if i == 0 {
        assert(gs.take(0) =~= Seq::<(Seq<char>, Style)>::empty());
        assert(gs.skip(0) =~= gs);
        assert(cells_width(Seq::<(Seq<char>, Style)>::empty()) == 0);
        assert(stylized(gs, col, key, sparse) =~= Seq::<(Seq<char>, Style)>::empty() + stylized(gs, col, key, sparse));
    } else {
        let d = gs.drop_first();
        let r = restyled(remapped(tab_symbol(), nl_symbol(), gs[0], col), key, sparse);
        let c2 = col + cells_width(r);
        lemma_stylized_split(d, c2, key + 1, sparse, i - 1);
        let pre = gs.take(i);
        assert(pre[0] == gs[0]);
        assert(pre.drop_first() =~= d.take(i - 1));
        assert(d.skip(i - 1) =~= gs.skip(i));
        let mid = stylized(d.take(i - 1), c2, key + 1, sparse);
        assert(stylized(pre, col, key, sparse) == r + mid);
        lemma_cells_width_concat(r, mid);
        assert(stylized(gs, col, key, sparse) =~= (r + mid) + stylized(gs.skip(i), c2 + cells_width(mid), key + i, sparse));
    }
}

/// A tab is shown as the cells that reach the next multiple of four columns: when the
/// cells shown before it (from column `col`) end at column `w`, the tab becomes the tab
/// symbol then spaces, `4 - w % 4` cells in all, drawn yellow over its style (the first
/// taking the style given for its position, if one is), and what follows it starts at the
/// column where those end.
pub proof fn lemma_stylized_tab_fills_to_next_stop(
    gs: Seq<(Seq<char>, Style)>,
    col: int,
    key: int,
    sparse: Map<usize, Style>,
    i: int,
)
    requires
        0 <= i < gs.len(),
        gs[i].0 == seq!['\t'],
        col >= 0,
    ensures
        ({
            let before = stylized(gs.take(i), col, key, sparse);
            let w = col + cells_width(before);
            let t = restyled(tab_cells(tab_symbol(), gs[i].1, w), key + i, sparse);
            &&& w >= col
            &&& t.len() == 4 - w % 4
            &&& t[0].0 == tab_symbol()
            &&& forall|k: int| 1 <= k < t.len() ==> #[trigger] t[k] == (seq![' '], yellowed(gs[i].1))
            &&& stylized(gs, col, key, sparse) == before + t + stylized(gs.skip(i + 1), w + cells_width(t), key + i + 1, sparse)
        }),
{
    let before = stylized(gs.take(i), col, key, sparse);
    lemma_cells_width_nonneg(before);
    let w = col + cells_width(before);
    lemma_stylized_split(gs, col, key, sparse, i);
    let rest = gs.skip(i);
    assert(rest[0] == gs[i]);
    assert(rest.drop_first() =~= gs.skip(i + 1));
    assert(seq!['\t'] != seq!['\n']) by {
        assert(seq!['\t'][0] != seq!['\n'][0]);
    }
    let tc = tab_cells(tab_symbol(), gs[i].1, w);
    assert(remapped(tab_symbol(), nl_symbol(), gs[i], w) == tc);
    let t = restyled(tc, key + i, sparse);
    lemma_restyled_width(tc, key + i, sparse);
    assert(stylized(gs, col, key, sparse) =~= before + t + stylized(gs.skip(i + 1), w + cells_width(t), key + i + 1, sparse));
}

/// Breaking cells into rows of at most `width` columns, cell by cell: a cell of no width
/// is dropped, and a cell that would overflow the row starts a new one. `rows`, `cur` and
/// `curw` are the rows done, the row being filled and its width.
pub open spec fn wrap_cells(
    cells: Seq<(Seq<char>, Style)>,
    width: int,
    rows: Seq<Seq<(Seq<char>, Style)>>,
    cur: Seq<(Seq<char>, Style)>,
    curw: int,
) -> Seq<Seq<(Seq<char>, Style)>>
    decreases cells.len(),
{
    if cells.len() == 0 {
        if cur.len() > 0 {
            rows.push(cur)
        } else {
            rows
        }
    } else {
        let w = str_width(cells[0].0) as int;
        if w == 0 {
            wrap_cells(cells.drop_first(), width, rows, cur, curw)
        } else if w + curw > width {
            wrap_cells(cells.drop_first(), width, rows.push(cur), seq![cells[0]], w)
        } else {
            wrap_cells(cells.drop_first(), width, rows, cur.push(cells[0]), curw + w)
        }
    }
}

/// Rows as plain values.
pub open spec fn rows_of(rows: Seq<Vec<StyledGrapheme>>) -> Seq<Seq<(Seq<char>, Style)>> {
    rows.map_values(|r: Vec<StyledGrapheme>| cells_view(r@))
}

/// The text of the tokens, one after the other.
pub open spec fn tokens_text(ts: Seq<(Seq<char>, Style)>) -> Seq<char> {
    ts.map_values(|t: (Seq<char>, Style)| t.0).flatten()
}

proof fn lemma_symbols_concat(a: Seq<(Seq<char>, Style)>, b: Seq<(Seq<char>, Style)>)
    ensures
        symbols_text(a + b) == symbols_text(a) + symbols_text(b),
{
    let f = |c: (Seq<char>, Style)| c.0;
    assert((a + b).map_values(f) =~= a.map_values(f) + b.map_values(f));
    vstd::seq_lib::lemma_flatten_concat(a.map_values(f), b.map_values(f));
}

/// Tokens as plain values.
pub open spec fn tokens_view(ts: Seq<(&str, Style)>) -> Seq<(Seq<char>, Style)> {
    ts.map_values(|t: (&str, Style)| (t.0@, t.1))
}

/// Styles the cells of highlighted tokens and breaks them into rows.
pub struct LineStylizer;

impl LineStylizer {
    /// The rows of the tokens of `line`: cut into clusters, with tabs and line feeds shown
    /// as symbols, the cells given in `sparse_styling` restyled, broken into rows of `width`.
    pub fn process_line(&self, line: &[(&str, Style)], sparse_styling: &HashMap<usize, Style>, width: u16) -> (rows: Vec<Vec<StyledGrapheme>>)
        ensures
            rows_of(rows@) == wrap_cells(
                stylized(tokens_cells(tokens_view(line@)), 0, 0, sparse_styling@),
                width as int,
                seq![],
                seq![],
                0,
            ),
    {
        let line = self.transform_line(line, sparse_styling);
        Self::wrap_line(line, width)
    }

    /// The cells of the tokens, remapped and restyled.
    fn transform_line(&self, line: &[(&str, Style)], sparse_styling: &HashMap<usize, Style>) -> (out: Vec<StyledGrapheme>)
        ensures
            cells_view(out@) == stylized(tokens_cells(tokens_view(line@)), 0, 0, sparse_styling@),
    {
        let graphemes = Self::tokens_to_graphemes(line);
        let ghost gs = cells_view(graphemes@);
        let ghost sparse = sparse_styling@;
        let mut out: Vec<StyledGrapheme> = Vec::new();
        assert(gs.skip(0) =~= gs);
        let mut col4: usize = 0;
        let ghost mut col: int = 0;
        let mut i: usize = 0;
        while i < graphemes.len()
            invariant
                gs == cells_view(graphemes@),
                sparse == sparse_styling@,
                i <= graphemes@.len(),
                col >= 0,
                col4 == col % 4,
                cells_view(out@) + stylized(gs.skip(i as int), col, i as int, sparse) == stylized(gs, 0, 0, sparse),
            decreases graphemes@.len() - i,
        {
            let g = copy_cell(&graphemes[i]);
            proof {
                assert(gs.skip(i as int)[0] == gs[i as int]);
                assert(gs.skip(i as int).drop_first() =~= gs.skip(i + 1));
            }
            let remapped_key = Self::remap_symbol(col4, g);
            let styled_key = Self::apply_sparse_styling(i, remapped_key, sparse_styling);
            let ghost r = restyled(remapped(tab_symbol(), nl_symbol(), gs[i as int], col), i as int, sparse);
            proof {
                assert(col4 % 4 == col % 4);
            }
            assert(cells_view(styled_key@) == r);
            let mut size4: usize = 0;
            let mut j: usize = 0;
            while j < styled_key.len()
                invariant
                    j <= styled_key@.len(),
                    cells_view(styled_key@) == r,
                    size4 == cells_width(r.take(j as int)) % 4,
                    cells_width(r.take(j as int)) >= 0,
                decreases styled_key@.len() - j,
            {
                let w = display_width(styled_key[j].symbol.as_str());
                proof {
                    assert(r.take(j + 1).drop_last() =~= r.take(j as int));
                    assert(r.take(j + 1).last() == r[j as int]);
                    lemma_mod4_step(cells_width(r.take(j as int)), w as int);
                }
                size4 = (size4 + w % 4) % 4;
                j = j + 1;
            }
            proof {
                assert(r.take(styled_key@.len() as int) =~= r);
                lemma_mod4_step(col, cells_width(r));
            }
            col4 = (col4 + size4) % 4;
            let mut k: usize = 0;
            let ghost before = cells_view(out@);
            while k < styled_key.len()
                invariant
                    k <= styled_key@.len(),
                    cells_view(styled_key@) == r,
                    cells_view(out@) == before + r.take(k as int),
                decreases styled_key@.len() - k,
            {
                let c = copy_cell(&styled_key[k]);
                let ghost prev = cells_view(out@);
                out.push(c);
                proof {
                    assert(cells_view(styled_key@)[k as int] == cell_view(styled_key@[k as int]));
                    assert(cells_view(out@) =~= prev.push(cell_view(c)));
                    assert(r.take(k + 1) =~= r.take(k as int).push(r[k as int]));
                    assert(cells_view(out@) =~= before + r.take(k + 1));
                }
                k = k + 1;
            }
            proof {
                assert(r.take(styled_key@.len() as int) =~= r);
                col = col + cells_width(r);
                assert(before + r + stylized(gs.skip(i + 1), col, i + 1, sparse) =~= before + (r + stylized(
                    gs.skip(i + 1),
                    col,
                    i + 1,
                    sparse,
                )));
            }
            i = i + 1;
        }
        proof {
            assert(gs.skip(i as int) =~= Seq::<(Seq<char>, Style)>::empty());
            assert(cells_view(out@) + Seq::<(Seq<char>, Style)>::empty() =~= cells_view(out@));
        }
        out
    }

    /// The cells of the tokens: each cluster of each token, in the token's style.
    pub fn tokens_to_graphemes(tokens: &[(&str, Style)]) -> (cells: Vec<StyledGrapheme>)
        ensures
            cells_view(cells@) == tokens_cells(tokens_view(tokens@)),
            symbols_text(cells_view(cells@)) == tokens_text(tokens_view(tokens@)),
    {
        let ghost ts = tokens_view(tokens@);
        let mut cells: Vec<StyledGrapheme> = Vec::new();
        let mut i: usize = 0;
        while i < tokens.len()
            invariant
                ts == tokens_view(tokens@),
                i <= tokens@.len(),
                cells_view(cells@) == tokens_cells(ts.take(i as int)),
                symbols_text(cells_view(cells@)) == tokens_text(ts.take(i as int)),
            decreases tokens@.len() - i,
        {
            let (token, style) = tokens[i];
            let gs = graphemes(token);
            let ghost before = cells_view(cells@);
            let ghost tc = token_cells((token@, style));
            let mut j: usize = 0;
            while j < gs.len()
                invariant
                    j <= gs@.len(),
                    views(gs@) == grapheme_clusters(token@),
                    tc == token_cells((token@, style)),
                    cells_view(cells@) == before + tc.take(j as int),
                decreases gs@.len() - j,
            {
                let c = StyledGrapheme { symbol: gs[j].clone(), style };
                let ghost prev = cells_view(cells@);
                cells.push(c);
                proof {
                    assert(tc[j as int] == (views(gs@)[j as int], style));
                    assert(cells_view(cells@) =~= prev.push(cell_view(c)));
                    assert(tc.take(j + 1) =~= tc.take(j as int).push(tc[j as int]));
                    assert(cells_view(cells@) =~= before + tc.take(j + 1));
                }
                j = j + 1;
            }
            proof {
                assert(tc.take(gs@.len() as int) =~= tc);
                assert(ts.take(i + 1).drop_last() =~= ts.take(i as int));
                assert(ts.take(i + 1).last() == (token@, style));
                assert(tc.map_values(|c: (Seq<char>, Style)| c.0) =~= grapheme_clusters(token@));
                lemma_symbols_concat(before, tc);
                let f = |t: (Seq<char>, Style)| t.0;
                assert(ts.take(i + 1).map_values(f) =~= ts.take(i as int).map_values(f).push(token@));
                ts.take(i as int).map_values(f).lemma_flatten_push(token@);
            }
            i = i + 1;
        }
        proof {
            assert(ts.take(i as int) =~= ts);
        }
        cells
    }

    /// The first of the remapped cells of the cell at `key_offset` takes the style given for
    /// `key_offset`, if one is.
    fn apply_sparse_styling(key_offset: usize, key_as_graphemes: Vec<StyledGrapheme>, sparse_styling: &HashMap<usize, Style>) -> (out: Vec<StyledGrapheme>)
        ensures
            cells_view(out@) == restyled(cells_view(key_as_graphemes@), key_offset as int, sparse_styling@),
    {
        let mut key_as_graphemes = key_as_graphemes;
        match sparse_styling.get(&key_offset) {
            Some(style) => {
                if key_as_graphemes.len() > 0 {
                    let first = StyledGrapheme { symbol: key_as_graphemes[0].symbol.clone(), style: *style };
                    let ghost prev = cells_view(key_as_graphemes@);
                    key_as_graphemes.set(0, first);
                    assert(cells_view(key_as_graphemes@) =~= prev.update(0, (prev[0].0, *style)));
                }
                key_as_graphemes
            },
            None => key_as_graphemes,
        }
    }

    /// The cells a cell stands for at column `inline_index`.
    fn remap_symbol(inline_index: usize, grapheme: StyledGrapheme) -> (out: Vec<StyledGrapheme>)
        ensures
            cells_view(out@) == remapped(tab_symbol(), nl_symbol(), cell_view(grapheme), inline_index as int),
    {
        if is_single(grapheme.symbol.as_str(), '\n') {
            Self::remap_newline(grapheme)
        } else if is_single(grapheme.symbol.as_str(), '\t') {
            Self::remap_tab(grapheme, inline_index)
        } else {
            let mut v: Vec<StyledGrapheme> = Vec::new();
            v.push(grapheme);
            v
        }
    }

    /// The cells a tab at column `inline_index` stands for: the tab symbol and spaces up to
    /// the next multiple of four columns, in yellow.
    fn remap_tab(grapheme: StyledGrapheme, inline_index: usize) -> (cells: Vec<StyledGrapheme>)
        ensures
            cells_view(cells@) == crate::line::processor::tab_cells(tab_symbol(), grapheme.style, inline_index as int),
    {
        let tab_width: usize = 4 - inline_index % 4;
        let style = grapheme.style.patch(Style::new().fg(Color::Yellow));
        let mut tab: Vec<StyledGrapheme> = Vec::new();
        proof {
            reveal_strlit("\u{21e5}");
            assert("\u{21e5}"@ =~= tab_symbol());
        }
        tab.push(StyledGrapheme { symbol: "\u{21e5}".to_owned(), style });
        let ghost t = crate::line::processor::tab_cells(tab_symbol(), grapheme.style, inline_index as int);
        assert(cells_view(tab@) =~= t.take(1));
        let mut k: usize = 1;
        while k < tab_width
            invariant
                1 <= k <= tab_width,
                tab_width == 4 - inline_index % 4,
                style == yellowed(grapheme.style),
                t == crate::line::processor::tab_cells(tab_symbol(), grapheme.style, inline_index as int),
                cells_view(tab@) == t.take(k as int),
            decreases tab_width - k,
        {
            proof {
                reveal_strlit(" ");
                assert(" "@ =~= seq![' ']);
            }
            let ghost prev = cells_view(tab@);
            tab.push(StyledGrapheme { symbol: " ".to_owned(), style });
            proof {
                assert(t.take(k + 1) =~= t.take(k as int).push(t[k as int]));
                assert(cells_view(tab@) =~= prev.push(t[k as int]));
            }
            k = k + 1;
        }
        assert(t.take(tab_width as int) =~= t);
        tab
    }

    /// The cell a line feed stands for: the line-feed symbol, in yellow.
    fn remap_newline(grapheme: StyledGrapheme) -> (cells: Vec<StyledGrapheme>)
        ensures
            cells_view(cells@) == seq![(nl_symbol(), yellowed(grapheme.style))],
    {
        let style = grapheme.style.patch(Style::new().fg(Color::Yellow));
        proof {
            reveal_strlit("\u{23ce}");
            assert("\u{23ce}"@ =~= nl_symbol());
        }
        let mut v: Vec<StyledGrapheme> = Vec::new();
        v.push(StyledGrapheme { symbol: "\u{23ce}".to_owned(), style });
        assert(cells_view(v@) =~= seq![(nl_symbol(), yellowed(grapheme.style))]);
        v
    }

    /// Breaks cells into rows of at most `width` columns, cell by cell: a cell of no width
    /// is dropped, and a cell that would overflow the row starts a new one.
    pub fn wrap_line(graphemes: Vec<StyledGrapheme>, width: u16) -> (rows: Vec<Vec<StyledGrapheme>>)
        ensures
            rows_of(rows@) == wrap_cells(cells_view(graphemes@), width as int, seq![], seq![], 0),
    {
        let ghost cells = cells_view(graphemes@);
        let mut rows: Vec<Vec<StyledGrapheme>> = Vec::new();
        let mut cur_row: Vec<StyledGrapheme> = Vec::new();
        let mut cur_row_width: usize = 0;
        proof {
            assert(cells.skip(0) =~= cells);
            assert(rows_of(rows@) =~= Seq::<Seq<(Seq<char>, Style)>>::empty());
            assert(cells_view(cur_row@) =~= Seq::<(Seq<char>, Style)>::empty());
        }
        let mut i: usize = 0;
        while i < graphemes.len()
            invariant
                cells == cells_view(graphemes@),
                i <= graphemes@.len(),
                wrap_cells(cells, width as int, seq![], seq![], 0) == wrap_cells(
                    cells.skip(i as int),
                    width as int,
                    rows_of(rows@),
                    cells_view(cur_row@),
                    cur_row_width as int,
                ),
            decreases graphemes@.len() - i,
        {
            proof {
                assert(cells.skip(i as int)[0] == cells[i as int]);
                assert(cells.skip(i as int).drop_first() =~= cells.skip(i + 1));
            }
            let cell = copy_cell(&graphemes[i]);
            let sym_width = display_width(cell.symbol.as_str());
            if sym_width != 0 {
                if sym_width.saturating_add(cur_row_width) > width as usize {
                    let done = cur_row;
                    let ghost prev = rows_of(rows@);
                    rows.push(done);
                    cur_row = Vec::new();
                    cur_row_width = 0;
                    cur_row.push(cell);
                    proof {
                        assert(rows_of(rows@) =~= prev.push(cells_view(done@)));
                        assert(cells_view(cur_row@) =~= seq![cells[i as int]]);
                    }
                } else {
                    let ghost before = cells_view(cur_row@);
                    cur_row.push(cell);
                    proof {
                        assert(cells_view(cur_row@) =~= before.push(cells[i as int]));
                    }
                }
                cur_row_width = cur_row_width + sym_width;
            }
            i = i + 1;
        }
        if cur_row.len() > 0 {
            let done = cur_row;
            let ghost prev = rows_of(rows@);
            rows.push(done);
            proof {
                assert(rows_of(rows@) =~= prev.push(cells_view(done@)));
            }
        }
        proof {
            assert(cells.skip(i as int) =~= Seq::<(Seq<char>, Style)>::empty());
        }
        rows
    }
}

} // verus!
