//! A highlighted text with cursors: the styled tokens of the text, laid end to end, and
//! the cursors shown on it.
pub mod style;

use crate::chars::str_chars;
use crate::editor_state::{line_views, lines_with_endings};
use crate::game_state::board::style::engine_style;
use crate::highlighting::syntax::{
    engine_tokens, has_default_theme, has_extension_syntax, new_highlight_lines, raw_text, styled_tokens, styled_view,
    syntax_with_extension, theme_named,
    DefaultSyntaxes, DefaultThemes, HighlightError,
};
use crate::keyed::{entries_map, keys_distinct, lemma_map_dom, lemma_map_ext, lemma_map_has, lemma_map_lacks};
use crate::line::Style;
use vstd::prelude::*;
use vstd::string::StringSliceAdditionalSpecFns;
use vstd::utf8::{encode_scalar, encode_utf8};

verus! {

/// A cursor: where it stands (a byte offset into the text), its style, and how it ranks
/// against another cursor at the same place.
#[derive(Debug, Clone, Copy, PartialEq, Eq, Structural)]
pub struct Cursor {
    pub index: usize,
    pub style: Style,
    pub precedence: u8,
}

/// A token of the text: its byte range and style.
#[derive(Debug, Clone, Copy, PartialEq, Eq, Structural)]
pub struct TokenMarker {
    pub start: usize,
    pub end: usize,
    pub style: Style,
}

/// The byte length of the first `k` tokens, put end to end.
pub open spec fn bytes_before(lens: Seq<nat>, k: int) -> int
    decreases k,
{
    if k <= 0 {
        0
    } else {
        bytes_before(lens, k - 1) + lens[k - 1]
    }
}

/// The byte length of each token.
pub open spec fn token_lens(line: Seq<(Style, &str)>) -> Seq<nat> {
    line.map_values(|t: (Style, &str)| t.1.spec_bytes().len())
}

/// Marks the tokens of a highlighted text end to end: each covers its bytes, starting
/// where the one before ends, and keeps its style.
pub fn to_token_markers(line: &Vec<(Style, &str)>) -> (result: Vec<TokenMarker>)
    requires
        bytes_before(token_lens(line@), line@.len() as int) <= usize::MAX,
    ensures
        result@.len() == line@.len(),
        forall|k: int| 0 <= k < line@.len() ==> {
            &&& (#[trigger] result@[k]).start == bytes_before(token_lens(line@), k)
            &&& result@[k].end == bytes_before(token_lens(line@), k + 1)
            &&& result@[k].style == line@[k].0
        },
{
    let ghost lens = token_lens(line@);
    let mut result: Vec<TokenMarker> = Vec::new();
    let mut accumulated_index: usize = 0;
    let mut k: usize = 0;
    while k < line.len()
        invariant
            lens == token_lens(line@),
            bytes_before(lens, line@.len() as int) <= usize::MAX,
            k <= line@.len(),
            result@.len() == k,
            accumulated_index == bytes_before(lens, k as int),
            forall|j: int| 0 <= j < k ==> {
                &&& (#[trigger] result@[j]).start == bytes_before(lens, j)
                &&& result@[j].end == bytes_before(lens, j + 1)
                &&& result@[j].style == line@[j].0
            },
        decreases line@.len() - k,
    {
        let (style, slice) = line[k];
        proof {
            lemma_bytes_before_mono(lens, k + 1, line@.len() as int);
        }
        let end = accumulated_index + slice.len();
        result.push(TokenMarker { start: accumulated_index, end, style });
        accumulated_index = end;
        k = k + 1;
    }
    result
}

proof fn lemma_bytes_before_mono(lens: Seq<nat>, a: int, b: int)
    requires
        a <= b,
    ensures
        bytes_before(lens, a) <= bytes_before(lens, b),
    decreases b - a,
{
    if a < b {
        lemma_bytes_before_mono(lens, a, b - 1);
    }
}

/// The cursor shown at `index`, going through the cursors in order: the first one there,
/// replaced by each later one there of strictly higher precedence.
pub open spec fn best_at(cursors: Seq<Cursor>, index: usize) -> Option<Cursor>
    decreases cursors.len(),
{
    if cursors.len() == 0 {
        None
    } else {
        let before = best_at(cursors.drop_last(), index);
        let c = cursors.last();
        if c.index == index && (before is None || c.precedence > before->0.precedence) {
            Some(c)
        } else {
            before
        }
    }
}

/// No cursor stands at `index` exactly when none is shown there.
pub proof fn lemma_best_at_none(cursors: Seq<Cursor>, index: usize)
    ensures
        best_at(cursors, index) is None <==> forall|k: int| 0 <= k < cursors.len() ==> (#[trigger] cursors[k]).index != index,
        best_at(cursors, index) matches Some(c) ==> c.index == index,
    decreases cursors.len(),
{
    if cursors.len() > 0 {
        let init = cursors.drop_last();
        lemma_best_at_none(init, index);
        assert forall|k: int| 0 <= k < init.len() implies init[k] == cursors[k] by {}
        assert(cursors.last() == cursors[cursors.len() - 1]);
    }
}

/// The cursors to show, one per place, in the order of their places: at each place, the
/// first of the cursors there with the highest precedence.
pub fn resolve_displayed_cursors(cursors: &Vec<Cursor>) -> (shown: Vec<Cursor>)
    ensures
        forall|a: int, b: int| 0 <= a < b < shown@.len() ==> shown@[a].index < shown@[b].index,
        forall|a: int| 0 <= a < shown@.len() ==> best_at(cursors@, (#[trigger] shown@[a]).index) == Some(shown@[a]),
        forall|k: int| 0 <= k < cursors@.len() ==> exists|a: int|
            0 <= a < shown@.len() && (#[trigger] shown@[a]).index == (#[trigger] cursors@[k]).index,
{
    let mut shown: Vec<Cursor> = Vec::new();
    let mut i: usize = 0;
    while i < cursors.len()
        invariant
            i <= cursors@.len(),
            forall|a: int, b: int| 0 <= a < b < shown@.len() ==> shown@[a].index < shown@[b].index,
            forall|a: int| 0 <= a < shown@.len() ==> best_at(cursors@.take(i as int), (#[trigger] shown@[a]).index) == Some(shown@[a]),
            forall|k: int| 0 <= k < i ==> exists|a: int|
                0 <= a < shown@.len() && (#[trigger] shown@[a]).index == (#[trigger] cursors@[k]).index,
        decreases cursors@.len() - i,
    {
        let c = cursors[i];
        let ghost pre = cursors@.take(i as int);
        let ghost post = cursors@.take(i + 1);
        proof {
            assert(post.drop_last() =~= pre);
            assert(post.last() == c);
        }
        let mut pos: usize = 0;
        while pos < shown.len() && shown[pos].index < c.index
            invariant
                pos <= shown@.len(),
                forall|a: int| 0 <= a < pos ==> (#[trigger] shown@[a]).index < c.index,
            decreases shown@.len() - pos,
        {
            pos = pos + 1;
        }
        let ghost old_shown = shown@;
        if pos < shown.len() && shown[pos].index == c.index {
            if c.precedence > shown[pos].precedence {
                shown.set(pos, c);
            }
            proof {
                assert forall|a: int| 0 <= a < shown@.len() implies best_at(post, (#[trigger] shown@[a]).index) == Some(shown@[a]) by {
                    if a != pos {
                        assert(old_shown[a].index != c.index);
                    }
                }
                assert forall|k: int| 0 <= k < i + 1 implies exists|a: int|
                    0 <= a < shown@.len() && (#[trigger] shown@[a]).index == (#[trigger] cursors@[k]).index by {
                    if k < i {
                        let a = choose|a: int| 0 <= a < old_shown.len() && (#[trigger] old_shown[a]).index == cursors@[k].index;
                        assert(shown@[a].index == old_shown[a].index);
                    } else {
                        assert(shown@[pos as int].index == c.index);
                    }
                }
            }
        } else {
            shown.insert(pos, c);
            proof {
                assert forall|k: int| 0 <= k < pre.len() implies (#[trigger] pre[k]).index != c.index by {
                    assert(pre[k] == cursors@[k]);
                    if pre[k].index == c.index {
                        let a = choose|a: int| 0 <= a < old_shown.len() && (#[trigger] old_shown[a]).index == cursors@[k].index;
                        if a > pos {
                            assert(old_shown[pos as int].index < old_shown[a].index);
                        }
                    }
                }
                lemma_best_at_none(pre, c.index);
                assert forall|a: int| 0 <= a < shown@.len() implies best_at(post, (#[trigger] shown@[a]).index) == Some(shown@[a]) by {
                    if a < pos {
                        assert(shown@[a] == old_shown[a]);
                    } else if a > pos {
                        assert(shown@[a] == old_shown[a - 1]);
                        assert(old_shown[a - 1].index != c.index);
                    }
                }
                assert forall|a: int, b: int| 0 <= a < b < shown@.len() implies shown@[a].index < shown@[b].index by {
                    if a < pos && b > pos {
                        assert(shown@[b] == old_shown[b - 1]);
                        if b - 1 > pos {
                            assert(old_shown[pos as int].index < old_shown[b - 1].index);
                        }
                    } else if a == pos && b > pos {
                        assert(shown@[b] == old_shown[b - 1]);
                        if b - 1 > pos {
                            assert(old_shown[pos as int].index < old_shown[b - 1].index);
                        }
                    } else if a > pos {
                        assert(shown@[a] == old_shown[a - 1]);
                        assert(shown@[b] == old_shown[b - 1]);
                    }
                }
                assert forall|k: int| 0 <= k < i + 1 implies exists|a: int|
                    0 <= a < shown@.len() && (#[trigger] shown@[a]).index == (#[trigger] cursors@[k]).index by {
                    if k < i {
                        let a = choose|a: int| 0 <= a < old_shown.len() && (#[trigger] old_shown[a]).index == cursors@[k].index;
                        if a < pos {
                            assert(shown@[a] == old_shown[a]);
                        } else {
                            assert(shown@[a + 1] == old_shown[a]);
                        }
                    } else {
                        assert(shown@[pos as int] == c);
                    }
                }
            }
        }
        i = i + 1;
    }
    proof {
        assert(cursors@.take(i as int) =~= cursors@);
    }
    shown
}

/// Where char `k` of `s` starts in the UTF-8 encoding of `s`.
pub open spec fn byte_offset(s: Seq<char>, k: int) -> int {
    encode_utf8(s.take(k)).len() as int
}

/// Some char of `s` starts at byte `b` of its encoding.
pub open spec fn is_char_start(s: Seq<char>, b: int) -> bool {
    exists|k: int| 0 <= k < s.len() && #[trigger] byte_offset(s, k) == b
}

/// Token `t` covers byte `b`.
pub open spec fn covers(tokens: Seq<TokenMarker>, t: int, b: int) -> bool {
    0 <= t < tokens.len() && tokens[t].start <= b < tokens[t].end
}

/// The tokens lie end to end over the UTF-8 encoding of `s`, from its first byte to (at
/// least) its last: none is empty, and each that starts within the text starts where a
/// char starts.
pub open spec fn tokens_cover(s: Seq<char>, tokens: Seq<TokenMarker>) -> bool {
    &&& forall|t: int| 0 <= t < tokens.len() ==> (#[trigger] tokens[t]).start < tokens[t].end
    &&& forall|t: int, u: int| #![trigger tokens[t], tokens[u]] 0 <= t && u == t + 1 && u < tokens.len() ==> tokens[t].end == tokens[u].start
    &&& s.len() > 0 ==> tokens.len() > 0 && tokens[0].start == 0 && tokens.last().end >= encode_utf8(s).len()
    &&& forall|t: int| 0 <= t < tokens.len() && (#[trigger] tokens[t]).start < encode_utf8(s).len()
        ==> is_char_start(s, tokens[t].start as int)
}

/// The style of the cursor shown on the char that starts at byte `b` of `s`, if one is: the
/// cursor `best_at` picks there, provided every cursor before it stands where a char
/// starts (one that does not holds back all those after it).
pub open spec fn cursor_style_at(cursors: Seq<Cursor>, s: Seq<char>, b: int) -> Option<Style> {
    if forall|j: int| 0 <= j < cursors.len() && (#[trigger] cursors[j]).index < b ==> is_char_start(s, cursors[j].index as int) {
        match best_at(cursors, b as usize) {
            Some(c) => Some(c.style),
            None => None,
        }
    } else {
        None
    }
}

/// `st` is the style char `k` of `s` is drawn in: that of the cursor shown on it, if one
/// is, else that of the token it lies in.
pub open spec fn is_cell_style(s: Seq<char>, tokens: Seq<TokenMarker>, cursors: Seq<Cursor>, k: int, st: Style) -> bool {
    match cursor_style_at(cursors, s, byte_offset(s, k)) {
        Some(cs) => st == cs,
        None => exists|t: int| covers(tokens, t, byte_offset(s, k)) && st == tokens[t].style,
    }
}

/// Shown cursor `a` is drawn: every shown cursor up to it stands where a char starts.
spec fn drawn(s: Seq<char>, shown: Seq<Cursor>, a: int) -> bool {
    forall|a2: int| 0 <= a2 <= a ==> is_char_start(s, (#[trigger] shown[a2]).index as int)
}

/// `st` is the style of char `k` with the cursors `shown`, sorted by place.
#[verifier::opaque]
spec fn is_shown_cell_style(s: Seq<char>, tokens: Seq<TokenMarker>, shown: Seq<Cursor>, k: int, st: Style) -> bool {
    if exists|a: int| 0 <= a < shown.len() && (#[trigger] shown[a]).index == byte_offset(s, k) && drawn(s, shown, a) {
        let a = choose|a: int| 0 <= a < shown.len() && (#[trigger] shown[a]).index == byte_offset(s, k) && drawn(s, shown, a);
        st == shown[a].style
    } else {
        exists|t: int| covers(tokens, t, byte_offset(s, k)) && st == tokens[t].style
    }
}

proof fn lemma_encode_len_concat(a: Seq<char>, b: Seq<char>)
    ensures
        encode_utf8(a + b).len() == encode_utf8(a).len() + encode_utf8(b).len(),
    decreases a.len(),
{
    if a.len() == 0 {
        assert(a + b =~= b);
    } else {
        assert((a + b).drop_first() =~= a.drop_first() + b);
        lemma_encode_len_concat(a.drop_first(), b);
    }
}

proof fn lemma_offset_step(s: Seq<char>, k: int)
    requires
        0 <= k < s.len(),
    ensures
        byte_offset(s, k + 1) == byte_offset(s, k) + encode_scalar(s[k] as u32).len(),
        encode_scalar(s[k] as u32).len() >= 1,
{
    assert(s.take(k + 1) =~= s.take(k) + seq![s[k]]);
    lemma_encode_len_concat(s.take(k), seq![s[k]]);
    assert(seq![s[k]].drop_first() =~= Seq::<char>::empty());
    assert(encode_utf8(Seq::<char>::empty()) =~= Seq::<u8>::empty());
    vstd::utf8::char_is_scalar(s[k]);
}

proof fn lemma_offset_mono(s: Seq<char>, j: int, k: int)
    requires
        0 <= j < k <= s.len(),
    ensures
        byte_offset(s, j) < byte_offset(s, k),
    decreases k - j,
{
    lemma_offset_step(s, k - 1);
    if j < k - 1 {
        lemma_offset_mono(s, j, k - 1);
    }
}

proof fn lemma_token_step(s: Seq<char>, tokens: Seq<TokenMarker>, k: int, tidx: int)
    requires
        tokens_cover(s, tokens),
        0 <= k < s.len(),
        0 <= tidx < tokens.len(),
        k == 0 ==> tidx == 0,
        k > 0 ==> covers(tokens, tidx, byte_offset(s, k - 1)),
    ensures
        tokens[tidx].start <= byte_offset(s, k),
        byte_offset(s, k) >= tokens[tidx].end ==> covers(tokens, tidx + 1, byte_offset(s, k)),
{
    lemma_offset_mono(s, k, s.len() as int);
    assert(s.take(s.len() as int) =~= s);
    if k > 0 {
        lemma_offset_mono(s, k - 1, k);
    } else {
        assert(s.take(0) =~= Seq::<char>::empty());
    }
    if byte_offset(s, k) >= tokens[tidx].end {
        if tidx == tokens.len() - 1 {
            assert(tokens.last() == tokens[tidx]);
        }
        assert(tokens[tidx].end == tokens[tidx + 1].start);
        assert(tokens[tidx + 1].start < tokens[tidx + 1].end);
        assert(byte_offset(s, k - 1) < tokens[tidx + 1].start);
        assert(s.take(s.len() as int) =~= s);
        if tokens[tidx + 1].start < encode_utf8(s).len() {
            let j = choose|j: int| 0 <= j < s.len() && #[trigger] byte_offset(s, j) == tokens[tidx + 1].start as int;
            if j < k - 1 {
                lemma_offset_mono(s, j, k - 1);
            } else if k < j {
                lemma_offset_mono(s, k, j);
            }
        }
    }
}

/// The cursor invariant of the walk over the chars: the shown cursors before `cidx` stand
/// where chars before `k` start, and cursor `cidx`, if it stands before char `k`, stands
/// where no char starts.
#[verifier::opaque]
spec fn cursors_walked(s: Seq<char>, shown: Seq<Cursor>, k: int, cidx: int) -> bool {
    &&& 0 <= cidx <= shown.len()
    &&& forall|a: int| 0 <= a < cidx ==> is_char_start(s, (#[trigger] shown[a]).index as int) && shown[a].index < byte_offset(s, k)
    &&& cidx < shown.len() && shown[cidx].index < byte_offset(s, k) ==> forall|k2: int| 0 <= k2 < k ==> #[trigger] byte_offset(s, k2) != shown[cidx].index
}

proof fn lemma_cursor_drawn(s: Seq<char>, tokens: Seq<TokenMarker>, shown: Seq<Cursor>, k: int, cidx: int)
    requires
        0 <= k < s.len(),
        forall|a: int, b: int| 0 <= a < b < shown.len() ==> shown[a].index < shown[b].index,
        cursors_walked(s, shown, k, cidx),
        cidx < shown.len(),
        shown[cidx].index == byte_offset(s, k),
    ensures
        is_shown_cell_style(s, tokens, shown, k, shown[cidx].style),
        cursors_walked(s, shown, k + 1, cidx + 1),
{
    reveal(is_shown_cell_style);
    reveal(cursors_walked);
    lemma_offset_step(s, k);
    let b = byte_offset(s, k);
    assert(is_char_start(s, shown[cidx].index as int));
    assert(drawn(s, shown, cidx));
    let a = choose|a: int| 0 <= a < shown.len() && (#[trigger] shown[a]).index == b && drawn(s, shown, a);
    assert(a == cidx);
    if cidx + 1 < shown.len() && shown[cidx + 1].index < byte_offset(s, k + 1) {
        assert forall|k2: int| 0 <= k2 < k + 1 implies #[trigger] byte_offset(s, k2) != shown[cidx + 1].index by {
            if k2 < k {
                lemma_offset_mono(s, k2, k);
            }
        }
    }
}

proof fn lemma_token_drawn(s: Seq<char>, tokens: Seq<TokenMarker>, shown: Seq<Cursor>, k: int, tidx: int, cidx: int)
    requires
        0 <= k < s.len(),
        forall|a: int, b: int| 0 <= a < b < shown.len() ==> shown[a].index < shown[b].index,
        cursors_walked(s, shown, k, cidx),
        cidx < shown.len() ==> shown[cidx].index != byte_offset(s, k),
        covers(tokens, tidx, byte_offset(s, k)),
    ensures
        is_shown_cell_style(s, tokens, shown, k, tokens[tidx].style),
        cursors_walked(s, shown, k + 1, cidx),
{
    reveal(is_shown_cell_style);
    reveal(cursors_walked);
    lemma_offset_step(s, k);
    let b = byte_offset(s, k);
    if exists|a: int| 0 <= a < shown.len() && (#[trigger] shown[a]).index == b && drawn(s, shown, a) {
        let a = choose|a: int| 0 <= a < shown.len() && (#[trigger] shown[a]).index == b && drawn(s, shown, a);
        assert(a > cidx);
        assert(is_char_start(s, shown[cidx].index as int));
        let k2 = choose|k2: int| 0 <= k2 < s.len() && #[trigger] byte_offset(s, k2) == shown[cidx].index as int;
        if k2 > k {
            lemma_offset_mono(s, k, k2);
        }
        assert(false);
    }
    if cidx < shown.len() && shown[cidx].index < byte_offset(s, k + 1) {
        assert forall|k2: int| 0 <= k2 < k + 1 implies #[trigger] byte_offset(s, k2) != shown[cidx].index by {
            if k2 < k {
                lemma_offset_mono(s, k2, k);
            }
        }
    }
    assert forall|a: int| 0 <= a < cidx implies is_char_start(s, (#[trigger] shown[a]).index as int) && shown[a].index < byte_offset(s, k + 1) by {}
}

/// The bytes of `c` in UTF-8.
fn utf8_width(c: char) -> (w: usize)
    ensures
        w == encode_scalar(c as u32).len(),
{
    proof {
        vstd::utf8::char_is_scalar(c);
    }
    let u = c as u32;
    if u <= 0x7F {
        assert(encode_scalar(u).len() == 1);
        1
    } else if u <= 0x7FF {
        assert(encode_scalar(u).len() == 2);
        2
    } else if u <= 0xFFFF {
        assert(vstd::utf8::has_width_3_encoding(u));
        assert(encode_scalar(u).len() == 3);
        3
    } else {
        assert(encode_scalar(u).len() == 4);
        4
    }
}

/// The chars of `text`, each with its style: that of the token it lies in, or that of the
/// next shown cursor, if that cursor stands where the char starts.
fn shown_cells(text: &str, tokens: &Vec<TokenMarker>, shown: &Vec<Cursor>) -> (cells: Vec<(char, Style)>)
    requires
        tokens_cover(text@, tokens@),
        forall|a: int, b: int| 0 <= a < b < shown@.len() ==> shown@[a].index < shown@[b].index,
    ensures
        cells@.len() == text@.len(),
        forall|k: int| 0 <= k < text@.len() ==> (#[trigger] cells@[k]).0 == text@[k]
            && is_shown_cell_style(text@, tokens@, shown@, k, cells@[k].1),
{
    let ghost s = text@;
    let chars = str_chars(text);
    let n = chars.len();
    let ntok = tokens.len();
    let mut cells: Vec<(char, Style)> = Vec::new();
    let mut tidx: usize = 0;
    let mut cidx: usize = 0;
    let mut off: usize = 0;
    let mut k: usize = 0;
    proof {
        assert(s.take(0) =~= Seq::<char>::empty());
        assert(encode_utf8(Seq::<char>::empty()) =~= Seq::<u8>::empty());
        reveal(cursors_walked);
        if n > 0 {
            lemma_offset_mono(s, 0, n as int);
            assert(s.take(n as int) =~= s);
        }
    }
    while k < n
        invariant
            chars@ == s,
            s == text@,
            n == s.len(),
            ntok == tokens@.len(),
            tokens_cover(s, tokens@),
            forall|a: int, b: int| 0 <= a < b < shown@.len() ==> shown@[a].index < shown@[b].index,
            k <= n,
            off == byte_offset(s, k as int),
            cells@.len() == k,
            n > 0 ==> tidx < tokens@.len(),
            k == 0 ==> tidx == 0,
            k > 0 ==> covers(tokens@, tidx as int, byte_offset(s, k - 1)),
            cursors_walked(s, shown@, k as int, cidx as int),
            forall|k2: int| 0 <= k2 < k ==> (#[trigger] cells@[k2]).0 == s[k2] && is_shown_cell_style(s, tokens@, shown@, k2, cells@[k2].1),
        decreases n - k,
    {
        let c = chars[k];
        let w = utf8_width(c);
        proof {
            lemma_offset_step(s, k as int);
            if k + 1 < n {
                lemma_offset_mono(s, k + 1, n as int);
            }
            assert(s.take(n as int) =~= s);
            assert(tokens@.last().end >= byte_offset(s, n as int));
            lemma_token_step(s, tokens@, k as int, tidx as int);
        }
        if !(tokens[tidx].start <= off && off < tokens[tidx].end) {
            assert(covers(tokens@, tidx + 1, off as int));
            tidx = tidx + 1;
        }
        let ghost old_cidx = cidx as int;
        let style = if cidx < shown.len() && shown[cidx].index == off {
            let st = shown[cidx].style;
            cidx = cidx + 1;
            st
        } else {
            tokens[tidx].style
        };
        proof {
            if old_cidx < cidx {
                lemma_cursor_drawn(s, tokens@, shown@, k as int, old_cidx);
            } else {
                lemma_token_drawn(s, tokens@, shown@, k as int, tidx as int, cidx as int);
            }
        }
        let ghost before = cells@;
        cells.push((c, style));
        proof {
            assert forall|k2: int| 0 <= k2 < k + 1 implies (#[trigger] cells@[k2]).0 == s[k2] && is_shown_cell_style(s, tokens@, shown@, k2, cells@[k2].1) by {
                if k2 < k {
                    assert(cells@[k2] == before[k2]);
                }
            }
        }
        off = off + w;
        k = k + 1;
    }
    cells
}

proof fn lemma_shown_style(s: Seq<char>, tokens: Seq<TokenMarker>, cursors: Seq<Cursor>, shown: Seq<Cursor>, k: int, st: Style)
    requires
        0 <= k < s.len(),
        byte_offset(s, k) <= usize::MAX,
        forall|a: int, b: int| 0 <= a < b < shown.len() ==> shown[a].index < shown[b].index,
        forall|a: int| 0 <= a < shown.len() ==> best_at(cursors, (#[trigger] shown[a]).index) == Some(shown[a]),
        forall|j: int| 0 <= j < cursors.len() ==> exists|a: int|
            0 <= a < shown.len() && (#[trigger] shown[a]).index == (#[trigger] cursors[j]).index,
        is_shown_cell_style(s, tokens, shown, k, st),
    ensures
        is_cell_style(s, tokens, cursors, k, st),
{
    reveal(is_shown_cell_style);
    let b = byte_offset(s, k);
    let bu = b as usize;
    assert(is_char_start(s, b));
    if exists|a: int| 0 <= a < shown.len() && (#[trigger] shown[a]).index == b && drawn(s, shown, a) {
        let a = choose|a: int| 0 <= a < shown.len() && (#[trigger] shown[a]).index == b && drawn(s, shown, a);
        assert forall|j: int| 0 <= j < cursors.len() && (#[trigger] cursors[j]).index < b implies is_char_start(s, cursors[j].index as int) by {
            let a2 = choose|a2: int| 0 <= a2 < shown.len() && (#[trigger] shown[a2]).index == cursors[j].index;
            if a2 >= a {
                if a2 > a {
                    assert(shown[a].index < shown[a2].index);
                }
            }
            assert(0 <= a2 <= a);
        }
        assert(shown[a].index == bu);
    } else {
        if best_at(cursors, bu) is Some && forall|j: int| 0 <= j < cursors.len() && (#[trigger] cursors[j]).index < b ==> is_char_start(s, cursors[j].index as int) {
            lemma_best_at_none(cursors, bu);
            let j = choose|j: int| 0 <= j < cursors.len() && (#[trigger] cursors[j]).index == bu;
            let a = choose|a: int| 0 <= a < shown.len() && (#[trigger] shown[a]).index == cursors[j].index;
            assert forall|a2: int| 0 <= a2 <= a implies is_char_start(s, (#[trigger] shown[a2]).index as int) by {
                if a2 < a {
                    assert(shown[a2].index < shown[a].index);
                    lemma_best_at_none(cursors, shown[a2].index);
                    let j2 = choose|j2: int| 0 <= j2 < cursors.len() && (#[trigger] cursors[j2]).index == shown[a2].index;
                    assert(cursors[j2].index < b);
                }
            }
            assert(drawn(s, shown, a));
            assert(false);
        }
    }
}

/// Markers that run end to end over `n` bytes: the first starts at 0, each starts where
/// the one before ends, and the last ends at `n` (no marker at all when `n` is 0).
pub open spec fn markers_end_to_end(ts: Seq<TokenMarker>, n: int) -> bool {
    &&& ts.len() == 0 ==> n == 0
    &&& ts.len() > 0 ==> ts[0].start == 0 && ts.last().end == n
    &&& forall|i: int| 0 <= i < ts.len() ==> (#[trigger] ts[i]).start <= ts[i].end
    &&& forall|i: int, j: int| #![trigger ts[i], ts[j]] 0 <= i && j == i + 1 && j < ts.len() ==> ts[i].end == ts[j].start
}

/// The markers stand for the engine tokens `ts` one for one: each spans as many bytes as
/// its token's text takes in UTF-8, in the style its token's colors and font flags make.
pub open spec fn marks_engine_tokens(ms: Seq<TokenMarker>, ts: Seq<(Seq<char>, (u8, u8, u8), (u8, u8, u8), u8)>) -> bool {
    &&& ms.len() == ts.len()
    &&& forall|k: int| 0 <= k < ms.len() ==> (#[trigger] ms[k]).style == engine_style(ts[k].1, ts[k].2, ts[k].3)
        && ms[k].end - ms[k].start == encode_utf8(ts[k].0).len()
}

/// The text of the tokens, one after the other.
pub open spec fn line_text(line: Seq<(Style, &str)>) -> Seq<char> {
    line.map_values(|t: (Style, &str)| t.1@).flatten()
}

proof fn lemma_bytes_before_text(line: Seq<(Style, &str)>, k: int)
    requires
        0 <= k <= line.len(),
    ensures
        bytes_before(token_lens(line), k) == encode_utf8(line.take(k).map_values(|t: (Style, &str)| t.1@).flatten()).len(),
    decreases k,
{
    let f = |t: (Style, &str)| t.1@;
    if k == 0 {
        assert(line.take(0).map_values(f) =~= Seq::<Seq<char>>::empty());
        assert(encode_utf8(Seq::<char>::empty()) =~= Seq::<u8>::empty());
    } else {
        lemma_bytes_before_text(line, k - 1);
        assert(line.take(k).map_values(f) =~= line.take(k - 1).map_values(f).push(line[k - 1].1@));
        line.take(k - 1).map_values(f).lemma_flatten_push(line[k - 1].1@);
        lemma_encode_len_concat(line.take(k - 1).map_values(f).flatten(), line[k - 1].1@);
    }
}

/// The markers of tokens that put together give `text` run end to end over its bytes.
proof fn lemma_markers_cover(text: &str, line: Seq<(Style, &str)>, markers: Seq<TokenMarker>)
    requires
        line_text(line) == text@,
        markers.len() == line.len(),
        forall|k: int| 0 <= k < line.len() ==> {
            &&& (#[trigger] markers[k]).start == bytes_before(token_lens(line), k)
            &&& markers[k].end == bytes_before(token_lens(line), k + 1)
        },
    ensures
        markers_end_to_end(markers, text.spec_bytes().len() as int),
{
    let n = line.len() as int;
    lemma_bytes_before_text(line, n);
    assert(line.take(n) =~= line);
    if n > 0 {
        assert(markers.last() == markers[n - 1]);
    } else {
        assert(line.map_values(|t: (Style, &str)| t.1@) =~= Seq::<Seq<char>>::empty());
        assert(text@ =~= Seq::<char>::empty());
        assert(encode_utf8(Seq::<char>::empty()) =~= Seq::<u8>::empty());
    }
    assert forall|i: int| 0 <= i < markers.len() implies (#[trigger] markers[i]).start <= markers[i].end by {
        assert(token_lens(line)[i] >= 0);
    }
}

/// The tokens of `text`, line by line, as the highlighter `h` highlights it.
fn tokenize_text(
    text: &str,
    h: &mut syntect::easy::HighlightLines,
    syntaxes: &DefaultSyntaxes,
) -> (all: Vec<(String, Style)>)
    ensures
        all@.map_values(|t: (String, Style)| t.0@).flatten() == text@,
        exists|ts: Seq<(Seq<char>, (u8, u8, u8), (u8, u8, u8), u8)>|
            raw_text(ts) == text@ && styled_view(all@) == engine_tokens(ts),
{
    let lines = lines_with_endings(text);
    let ghost views = line_views(lines@);
    let ghost mut ts: Seq<(Seq<char>, (u8, u8, u8), (u8, u8, u8), u8)> = seq![];
    let mut all: Vec<(String, Style)> = Vec::new();
    let mut i: usize = 0;
    proof {
        assert(ts.map_values(|t: (Seq<char>, (u8, u8, u8), (u8, u8, u8), u8)| t.0) =~= Seq::<Seq<char>>::empty());
        assert(views.take(0) =~= Seq::<Seq<char>>::empty());
        assert(styled_view(all@) =~= engine_tokens(ts));
    }
    while i < lines.len()
        invariant
            i <= lines@.len(),
            views == line_views(lines@),
            views.flatten() == text@,
            raw_text(ts) == views.take(i as int).flatten(),
            styled_view(all@) == engine_tokens(ts),
        decreases lines@.len() - i,
    {
        let mut toks = styled_tokens(h, lines[i].as_str(), syntaxes);
        let ghost before = all@;
        let ghost added = toks@;
        let ghost line_ts = choose|lt: Seq<(Seq<char>, (u8, u8, u8), (u8, u8, u8), u8)>|
            raw_text(lt) == views[i as int] && styled_view(added) == engine_tokens(lt);
        all.append(&mut toks);
        proof {
            let f = |t: (Seq<char>, (u8, u8, u8), (u8, u8, u8), u8)| t.0;
            assert(all@ =~= before + added);
            assert(styled_view(all@) =~= styled_view(before) + styled_view(added));
            assert(engine_tokens(ts + line_ts) =~= engine_tokens(ts) + engine_tokens(line_ts));
            assert((ts + line_ts).map_values(f) =~= ts.map_values(f) + line_ts.map_values(f));
            vstd::seq_lib::lemma_flatten_concat(ts.map_values(f), line_ts.map_values(f));
            assert(views.take(i + 1) =~= views.take(i as int).push(views[i as int]));
            views.take(i as int).lemma_flatten_push(views[i as int]);
            ts = ts + line_ts;
        }
        i = i + 1;
    }
    proof {
        assert(views.take(i as int) =~= views);
        let f = |t: (Seq<char>, (u8, u8, u8), (u8, u8, u8), u8)| t.0;
        assert(styled_view(all@).len() == engine_tokens(ts).len());
        assert forall|k: int| 0 <= k < all@.len() implies all@[k].0@ == ts[k].0 by {
            assert(styled_view(all@)[k] == engine_tokens(ts)[k]);
        }
        assert(all@.map_values(|t: (String, Style)| t.0@) =~= ts.map_values(f));
    }
    all
}

/// A highlighted text with named cursors on it.
pub struct Board {
    pub text: String,
    pub tokens: Vec<TokenMarker>,
    pub cursors: Vec<(String, Cursor)>,
}

impl Board {
    /// The (name, cursor) entries, in the order the cursors were first set.
    pub open spec fn cursor_entries(&self) -> Seq<(Seq<char>, Cursor)> {
        self.cursors@.map_values(|e: (String, Cursor)| (e.0@, e.1))
    }

    /// The cursor of each name.
    pub open spec fn cursor_map(&self) -> Map<Seq<char>, Cursor> {
        entries_map(self.cursor_entries())
    }

    /// The cursors, in the order they were first set.
    pub open spec fn cursor_list(&self) -> Seq<Cursor> {
        self.cursor_entries().map_values(|e: (Seq<char>, Cursor)| e.1)
    }

    /// No name has two cursors.
    pub open spec fn wf(&self) -> bool {
        keys_distinct(self.cursor_entries())
    }

    /// A board over `text`, highlighted as `tokens`, with no cursor on it.
    pub fn from_tokens(text: String, tokens: Vec<TokenMarker>) -> (b: Board)
        ensures
            b.wf(),
            b.text@ == text@,
            b.tokens@ == tokens@,
            b.cursor_entries().len() == 0,
            b.cursor_map() == Map::<Seq<char>, Cursor>::empty(),
    {
        let b = Board { text, tokens, cursors: Vec::new() };
        assert(b.cursor_entries() =~= Seq::empty());
        b
    }

    /// The board of `text` highlighted with the built-in syntax for files with extension
    /// `syntax_ext`, in the "base16-ocean.dark" theme, with no cursor on it: its tokens run
    /// end to end over the text, each in the style the engine gives its part. Fails exactly
    /// when no built-in syntax has that extension.
    pub fn from_str(text: &str, syntax_ext: &str) -> (r: Result<Board, HighlightError>)
        ensures
            r is Ok <==> has_extension_syntax(syntax_ext@),
            r matches Err(e) ==> e == HighlightError::NoSyntax,
            r matches Ok(b) ==> {
                &&& b.wf()
                &&& b.text@ == text@
                &&& b.cursor_entries().len() == 0
                &&& markers_end_to_end(b.tokens@, text.spec_bytes().len() as int)
                &&& exists|ts: Seq<(Seq<char>, (u8, u8, u8), (u8, u8, u8), u8)>|
                    raw_text(ts) == text@ && marks_engine_tokens(b.tokens@, ts)
            },
    {
        let syntaxes = DefaultSyntaxes::load();
        let themes = DefaultThemes::load();
        let syntax = match syntax_with_extension(&syntaxes, syntax_ext) {
            Some(s) => s,
            None => return Err(HighlightError::NoSyntax),
        };
        let theme = match theme_named(&themes, "base16-ocean.dark") {
            Some(t) => t,
            None => return Err(HighlightError::NoTheme),
        };
        let mut h = new_highlight_lines(syntax, theme);
        let all = tokenize_text(text, &mut h, &syntaxes);
        let mut line: Vec<(Style, &str)> = Vec::new();
        let mut i: usize = 0;
        while i < all.len()
            invariant
                i <= all@.len(),
                line@.len() == i,
                forall|k: int| 0 <= k < i ==> (#[trigger] line@[k]).1@ == all@[k].0@ && line@[k].0 == all@[k].1,
            decreases all@.len() - i,
        {
            line.push((all[i].1, all[i].0.as_str()));
            i = i + 1;
        }
        // The text's byte length is a `usize`, which bounds the markers' offsets.
        let byte_len = text.as_bytes().len();
        proof {
            assert(byte_len == text.spec_bytes().len());
            assert(line@.map_values(|t: (Style, &str)| t.1@) =~= all@.map_values(|t: (String, Style)| t.0@));
            lemma_bytes_before_text(line@, line@.len() as int);
            assert(line@.take(line@.len() as int) =~= line@);
        }
        let markers = to_token_markers(&line);
        proof {
            lemma_markers_cover(text, line@, markers@);
            let ts = choose|ts: Seq<(Seq<char>, (u8, u8, u8), (u8, u8, u8), u8)>|
                raw_text(ts) == text@ && styled_view(all@) == engine_tokens(ts);
            assert forall|k: int| 0 <= k < markers@.len() implies (#[trigger] markers@[k]).style == engine_style(
                ts[k].1,
                ts[k].2,
                ts[k].3,
            ) && markers@[k].end - markers@[k].start == encode_utf8(ts[k].0).len() by {
                assert(styled_view(all@).len() == engine_tokens(ts).len());
                assert(styled_view(all@)[k] == engine_tokens(ts)[k]);
                assert(line@[k].1@ == all@[k].0@ && line@[k].0 == all@[k].1);
                assert(all@[k].0@ == ts[k].0 && all@[k].1 == engine_style(ts[k].1, ts[k].2, ts[k].3));
                assert(markers@[k].style == line@[k].0);
                assert(token_lens(line@)[k] == line@[k].1.spec_bytes().len());
                assert(bytes_before(token_lens(line@), k + 1) == bytes_before(token_lens(line@), k) + token_lens(line@)[k]);
            }
            assert(styled_view(all@).len() == engine_tokens(ts).len());
            assert(markers@.len() == ts.len());
            assert(marks_engine_tokens(markers@, ts));
        }
        let b = Board { text: text.to_owned(), tokens: markers, cursors: Vec::new() };
        assert(b.cursor_entries() =~= Seq::empty());
        Ok(b)
    }

    /// The chars of the text, in order, each with the style it is drawn in: that of the
    /// cursor shown on it, if one is, else that of the token it lies in.
    pub fn iter(&self) -> (cells: Vec<(char, Style)>)
        requires
            tokens_cover(self.text@, self.tokens@),
        ensures
            cells@.len() == self.text@.len(),
            forall|k: int| 0 <= k < self.text@.len() ==> (#[trigger] cells@[k]).0 == self.text@[k]
                && is_cell_style(self.text@, self.tokens@, self.cursor_list(), k, cells@[k].1),
    {
        let values = self.cursor_values();
        let shown = resolve_displayed_cursors(&values);
        let cells = shown_cells(self.text.as_str(), &self.tokens, &shown);
        proof {
            let s = self.text@;
            assert forall|k: int| 0 <= k < s.len() implies (#[trigger] cells@[k]).0 == s[k]
                && is_cell_style(s, self.tokens@, self.cursor_list(), k, cells@[k].1) by {
                lemma_offset_mono(s, k, s.len() as int);
                assert(s.take(s.len() as int) =~= s);
                assert(self.tokens@.last().end >= byte_offset(s, s.len() as int));
                lemma_shown_style(s, self.tokens@, values@, shown@, k, cells@[k].1);
            }
        }
        cells
    }

    /// The cursors, in the order they were first set.
    fn cursor_values(&self) -> (v: Vec<Cursor>)
        ensures
            v@ == self.cursor_list(),
    {
        let mut v: Vec<Cursor> = Vec::new();
        let mut i: usize = 0;
        while i < self.cursors.len()
            invariant
                i <= self.cursors@.len(),
                v@ == self.cursor_list().take(i as int),
            decreases self.cursors@.len() - i,
        {
            v.push(self.cursors[i].1);
            proof {
                assert(self.cursor_list().take(i + 1) =~= self.cursor_list().take(i as int).push(self.cursors@[i as int].1));
            }
            i = i + 1;
        }
        assert(self.cursor_list().take(i as int) =~= self.cursor_list());
        v
    }

    /// Where the cursor named `key` is among the entries, if there is one.
    fn position(&self, key: &str) -> (r: Option<usize>)
        ensures
            r matches Some(j) ==> j < self.cursor_entries().len() && self.cursor_entries()[j as int].0 == key@,
            r is None ==> forall|i: int| 0 <= i < self.cursor_entries().len() ==> #[trigger] self.cursor_entries()[i].0 != key@,
    {
        let owned = key.to_owned();
        let mut i: usize = 0;
        while i < self.cursors.len()
            invariant
                owned@ == key@,
                i <= self.cursors@.len(),
                forall|k: int| 0 <= k < i ==> #[trigger] self.cursor_entries()[k].0 != key@,
            decreases self.cursors@.len() - i,
        {
            if self.cursors[i].0 == owned {
                return Some(i);
            }
            i = i + 1;
        }
        None
    }

    /// The cursor named `key`; when there is none by that name, `default` is set as its
    /// cursor first.
    pub fn get_cursor(&mut self, key: &str, default: Cursor) -> (c: Cursor)
        requires
            old(self).wf(),
        ensures
            final(self).wf(),
            final(self).text@ == old(self).text@,
            final(self).tokens@ == old(self).tokens@,
            old(self).cursor_map().contains_key(key@) ==> c == old(self).cursor_map()[key@]
                && final(self).cursor_entries() == old(self).cursor_entries(),
            !old(self).cursor_map().contains_key(key@) ==> c == default
                && final(self).cursor_entries() == old(self).cursor_entries().push((key@, default)),
            final(self).cursor_map() == old(self).cursor_map().insert(key@, c),
    {
        let ghost es = self.cursor_entries();
        match self.position(key) {
            Some(j) => {
                proof {
                    lemma_map_has(es, j as int);
                    assert(self.cursor_map().insert(key@, self.cursors@[j as int].1) =~= self.cursor_map());
                }
                self.cursors[j].1
            },
            None => {
                proof {
                    lemma_map_lacks(es, key@);
                }
                self.cursors.push((key.to_owned(), default));
                proof {
                    assert(self.cursor_entries() =~= es.push((key@, default)));
                    assert(self.cursor_entries().drop_last() =~= es);
                }
                default
            },
        }
    }

    /// Takes the cursor named `key` off the board, if there is one.
    pub fn remove_cursor(&mut self, key: &str)
        requires
            old(self).wf(),
        ensures
            final(self).wf(),
            final(self).text@ == old(self).text@,
            final(self).tokens@ == old(self).tokens@,
            final(self).cursor_map() == old(self).cursor_map().remove(key@),
            old(self).cursor_map().contains_key(key@) ==> exists|j: int| 0 <= j < old(self).cursor_entries().len()
                && old(self).cursor_entries()[j].0 == key@ && final(self).cursor_entries() == old(self).cursor_entries().remove(j),
            !old(self).cursor_map().contains_key(key@) ==> final(self).cursor_entries() == old(self).cursor_entries(),
    {
        let ghost es = self.cursor_entries();
        match self.position(key) {
            Some(j) => {
                proof {
                    lemma_map_has(es, j as int);
                }
                let ghost m = old(self).cursor_map().remove(key@);
                self.cursors.remove(j);
                let ghost fs = self.cursor_entries();
                proof {
                    assert(fs =~= es.remove(j as int));
                    assert forall|i: int| 0 <= i < fs.len() implies fs[i] == es[if i < j { i } else { i + 1 }] by {}
                    assert forall|i: int, k: int| 0 <= i < k < fs.len() implies #[trigger] fs[i].0 != #[trigger] fs[k].0 by {
                        assert(fs[i] == es[if i < j { i } else { i + 1 }]);
                        assert(fs[k] == es[if k < j { k } else { k + 1 }]);
                    }
                    assert forall|i: int| 0 <= i < fs.len() implies m.contains_key(#[trigger] fs[i].0) && m[fs[i].0] == fs[i].1 by {
                        let oi = if i < j { i } else { i + 1 };
                        assert(fs[i] == es[oi]);
                        lemma_map_has(es, oi);
                    }
                    assert forall|k: Seq<char>| #[trigger] m.contains_key(k) implies exists|i: int| 0 <= i < fs.len() && #[trigger] fs[i].0 == k by {
                        lemma_map_dom(es, k);
                        let oi = choose|i: int| 0 <= i < es.len() && #[trigger] es[i].0 == k;
                        let i = if oi < j { oi } else { oi - 1 };
                        assert(fs[i] == es[oi]);
                    }
                    lemma_map_ext(fs, m);
                }
            },
            None => {
                proof {
                    lemma_map_lacks(es, key@);
                    assert(old(self).cursor_map().remove(key@) =~= old(self).cursor_map());
                }
            },
        }
    }
}

} // verus!
