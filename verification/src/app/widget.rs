//! Which cells of the text the game shows in a cursor or mistake style: the opponents'
//! cursors, the local player's mistakes, then the local player's cursor, each laid over
//! what came before.
use super::state::{InputResult, PlayerPool, PlayerState};
use crate::line::{cells_view, Color, Style, StyledGrapheme};
use crate::text_coord::{coord_of_index, TextCoord};
use vstd::prelude::*;

verus! {

/// A style with these colors and no modifier.
pub open spec fn colored(bg: Color, fg: Color) -> Style {
    Style { fg: Some(fg), bg: Some(bg), add_modifier: 0, sub_modifier: 0 }
}

fn style_of(bg: Color, fg: Color) -> (s: Style)
    ensures
        s == colored(bg, fg),
{
    Style::new().bg(bg).fg(fg)
}

/// The local player's cursor, and its style: red after a wrong key, white otherwise.
pub fn get_main_style(main: &PlayerState) -> (r: Option<(TextCoord, Style)>)
    requires
        main.wf(),
    ensures
        main.spec_text().len() == 0 ==> r is None,
        main.spec_text().len() > 0 ==> (r matches Some((c, s)) && (c.ln as int, c.x as int) == coord_of_index(
            main.spec_text(),
            main.spec_pos(),
        ) && s == if main.spec_last_input() matches Some(InputResult::Wrong(_)) {
            colored(Color::Red, Color::White)
        } else {
            colored(Color::White, Color::Black)
        }),
{
    match main.get_cursor_coord() {
        Some(coord) => {
            let style = match main.last_input() {
                Some(InputResult::Wrong(_)) => style_of(Color::Red, Color::White),
                _ => style_of(Color::White, Color::Black),
            };
            Some((coord, style))
        },
        None => None,
    }
}

/// The positions of the local player's mistakes, in yellow.
pub fn get_main_error_styles(main: &PlayerState) -> (r: Vec<(TextCoord, Style)>)
    requires
        main.wf(),
    ensures
        r@.len() == main.spec_error_list().len(),
        forall|k: int| 0 <= k < r@.len() ==> ((#[trigger] r@[k]).0.ln as int, r@[k].0.x as int) == coord_of_index(
            main.spec_text(),
            main.spec_error_list()[k] as int,
        ) && r@[k].1 == colored(Color::Yellow, Color::Black),
{
    let coords = main.get_error_coords();
    let yellow = style_of(Color::Yellow, Color::Black);
    let mut r: Vec<(TextCoord, Style)> = Vec::new();
    let mut i: usize = 0;
    while i < coords.len()
        invariant
            i <= coords@.len(),
            r@.len() == i,
            yellow == colored(Color::Yellow, Color::Black),
            forall|k: int| 0 <= k < i ==> (#[trigger] r@[k]).0 == coords@[k] && r@[k].1 == yellow,
        decreases coords@.len() - i,
    {
        r.push((coords[i], yellow));
        i = i + 1;
    }
    r
}

/// `c` is the cursor of a player of the pool whose cursor lies before the text's byte
/// length.
pub open spec fn is_cursor_coord(pool: PlayerPool, c: TextCoord) -> bool {
    exists|j: int|
        0 <= j < pool.spec_players().len() && (#[trigger] pool.spec_players()[j]).spec_pos() < pool.spec_str().len()
            && (c.ln as int, c.x as int) == coord_of_index(pool.spec_players()[j].spec_text(), pool.spec_players()[j].spec_pos())
}

/// The opponents' cursors that lie before the text's byte length, each once, in grey.
pub fn get_opponent_styles(opponents: &PlayerPool) -> (r: Vec<(TextCoord, Style)>)
    requires
        opponents.wf(),
    ensures
        forall|a: int, b: int| 0 <= a < b < r@.len() ==> r@[a].0 != r@[b].0,
        forall|k: int| 0 <= k < r@.len() ==> is_cursor_coord(*opponents, (#[trigger] r@[k]).0),
        forall|i: int|
            0 <= i < opponents.spec_players().len() && (#[trigger] opponents.spec_players()[i]).spec_pos()
                < opponents.spec_str().len() ==> exists|k: int|
                0 <= k < r@.len() && (r@[k].0.ln as int, r@[k].0.x as int) == coord_of_index(
                    opponents.spec_players()[i].spec_text(),
                    opponents.spec_players()[i].spec_pos(),
                ),
        forall|k: int| 0 <= k < r@.len() ==> (#[trigger] r@[k]).1 == colored(Color::Rgb(20, 20, 20), Color::White),
{
    let coords = opponents.get_cursor_coords();
    let grey = style_of(Color::Rgb(20, 20, 20), Color::White);
    let mut r: Vec<(TextCoord, Style)> = Vec::new();
    let mut i: usize = 0;
    while i < coords.len()
        invariant
            i <= coords@.len(),
            r@.len() == i,
            grey == colored(Color::Rgb(20, 20, 20), Color::White),
            forall|k: int| 0 <= k < i ==> (#[trigger] r@[k]).0 == coords@[k].0 && r@[k].1 == grey,
        decreases coords@.len() - i,
    {
        r.push((coords[i].0, grey));
        i = i + 1;
    }
    proof {
        assert forall|k: int| 0 <= k < r@.len() implies is_cursor_coord(*opponents, (#[trigger] r@[k]).0) by {
            assert(opponents.is_cursor_entry(coords@[k]));
            let j = choose|j: int| 0 <= j < opponents.spec_players().len() && crate::app::state::came_from(
                coords@[k],
                #[trigger] opponents.spec_players()[j],
                opponents.spec_str().len(),
            );
            assert(opponents.spec_players()[j].spec_pos() < opponents.spec_str().len());
        }
        assert forall|i: int|
            0 <= i < opponents.spec_players().len() && (#[trigger] opponents.spec_players()[i]).spec_pos()
                < opponents.spec_str().len() implies exists|k: int|
                0 <= k < r@.len() && (r@[k].0.ln as int, r@[k].0.x as int) == coord_of_index(
                    opponents.spec_players()[i].spec_text(),
                    opponents.spec_players()[i].spec_pos(),
                ) by {
            let k = choose|k: int| 0 <= k < coords@.len() && crate::app::state::holds_cursor_of(coords@[k], opponents.spec_players()[i]);
            assert(r@[k].0 == coords@[k].0);
        }
    }
    r
}


/// Lines of cells as plain values.
pub open spec fn lines_view(lines: Seq<Vec<StyledGrapheme>>) -> Seq<Seq<(Seq<char>, Style)>> {
    lines.map_values(|l: Vec<StyledGrapheme>| cells_view(l@))
}

/// The cells restyled by `styles` one after the other: the cell at each coordinate takes
/// the style given with it, a later one winning over an earlier one.
pub open spec fn restyled_lines(
    lines: Seq<Seq<(Seq<char>, Style)>>,
    styles: Seq<(TextCoord, Style)>,
) -> Seq<Seq<(Seq<char>, Style)>>
    decreases styles.len(),
{
    if styles.len() == 0 {
        lines
    } else {
        let (c, st) = styles.last();
        let before = restyled_lines(lines, styles.drop_last());
        before.update(c.ln as int, before[c.ln as int].update(c.x as int, (before[c.ln as int][c.x as int].0, st)))
    }
}

/// Every coordinate names a cell of the lines.
pub open spec fn all_within(lines: Seq<Seq<(Seq<char>, Style)>>, styles: Seq<(TextCoord, Style)>) -> bool {
    forall|k: int| 0 <= k < styles.len() ==> (#[trigger] styles[k]).0.ln < lines.len() && styles[k].0.x
        < lines[styles[k].0.ln as int].len()
}

proof fn lemma_restyled_shape(lines: Seq<Seq<(Seq<char>, Style)>>, styles: Seq<(TextCoord, Style)>)
    requires
        all_within(lines, styles),
    ensures
        restyled_lines(lines, styles).len() == lines.len(),
        forall|l: int| 0 <= l < lines.len() ==> #[trigger] restyled_lines(lines, styles)[l].len() == lines[l].len(),
    decreases styles.len(),
{
    if styles.len() > 0 {
        let init = styles.drop_last();
        assert forall|k: int| 0 <= k < init.len() implies (#[trigger] init[k]).0.ln < lines.len() && init[k].0.x
            < lines[init[k].0.ln as int].len() by {
            assert(init[k] == styles[k]);
        }
        lemma_restyled_shape(lines, init);
        assert(styles.last() == styles[styles.len() - 1]);
    }
}

/// Gives each cell named in `styles` the style given with it, one after the other. Every
/// coordinate names a cell of the lines.
pub fn apply_cursors(styles: &Vec<(TextCoord, Style)>, hl_lines: Vec<Vec<StyledGrapheme>>) -> (out: Vec<Vec<StyledGrapheme>>)
    requires
        all_within(lines_view(hl_lines@), styles@),
    ensures
        lines_view(out@) == restyled_lines(lines_view(hl_lines@), styles@),
{
    let ghost orig = lines_view(hl_lines@);
    let mut lines = hl_lines;
    let mut i: usize = 0;
    while i < styles.len()
        invariant
            orig == lines_view(hl_lines@),
            all_within(orig, styles@),
            i <= styles@.len(),
            lines_view(lines@) == restyled_lines(orig, styles@.take(i as int)),
        decreases styles@.len() - i,
    {
        let (coord, style) = styles[i];
        proof {
            let t = styles@.take(i + 1);
            assert(t.drop_last() =~= styles@.take(i as int));
            assert(t.last() == styles@[i as int]);
            assert(all_within(orig, styles@.take(i as int))) by {
                assert forall|k: int| 0 <= k < styles@.take(i as int).len() implies (#[trigger] styles@.take(i as int)[k]).0.ln
                    < orig.len() && styles@.take(i as int)[k].0.x < orig[styles@.take(i as int)[k].0.ln as int].len() by {
                    assert(styles@.take(i as int)[k] == styles@[k]);
                }
            }
            lemma_restyled_shape(orig, styles@.take(i as int));
            assert(lines_view(lines@)[coord.ln as int] == cells_view(lines@[coord.ln as int]@));
        }
        let ghost prev = lines_view(lines@);
        let mut row = lines.remove(coord.ln);
        let cell = StyledGrapheme { symbol: row[coord.x].symbol.clone(), style };
        let ghost prev_row = cells_view(row@);
        row.set(coord.x, cell);
        let ghost new_row = cells_view(row@);
        lines.insert(coord.ln, row);
        proof {
            assert(new_row =~= prev_row.update(coord.x as int, (prev_row[coord.x as int].0, style)));
            assert(lines_view(lines@) =~= prev.update(coord.ln as int, new_row));
        }
        i = i + 1;
    }
    proof {
        assert(styles@.take(styles@.len() as int) =~= styles@);
    }
    lines
}

/// The line a render centers on: the local player's line, or the last line.
pub fn focus_line(main_style: &Option<(TextCoord, Style)>, line_count: usize) -> (ln: usize)
    requires
        main_style is None ==> line_count > 0,
    ensures
        ln == match main_style {
            Some((c, _)) => c.ln,
            None => (line_count - 1) as usize,
        },
{
    match main_style {
        Some((c, _)) => c.ln,
        None => line_count - 1,
    }
}

} // verus!
