//! Extended grapheme clusters, as `unicode_segmentation` finds them, and the
//! positions (in chars) of the boundaries between them.
use unicode_segmentation::UnicodeSegmentation;
use vstd::prelude::*;
use vstd::string::StrSliceExecFns;

verus! {

/// The extended grapheme clusters of `s`, in order, as
/// `UnicodeSegmentation::graphemes(s, true)` yields them.
pub uninterp spec fn grapheme_clusters(s: Seq<char>) -> Seq<Seq<char>>;

/// The char sequences of a sequence of strings.
pub open spec fn views(v: Seq<String>) -> Seq<Seq<char>> {
    v.map_values(|g: String| g@)
}

/// Each char of `s` is a grapheme cluster of its own.
pub open spec fn single_char_clusters(s: Seq<char>) -> bool {
    grapheme_clusters(s) == s.map_values(|ch: char| seq![ch])
}

/// An ASCII char other than a carriage return. The segmenter's source gives each such
/// char the category "any", line feed or control (U+007F by its table, the others by its
/// ASCII shortcut), and breaks between any two of them.
pub open spec fn is_plain_ascii(ch: char) -> bool {
    ch <= '\u{7f}' && ch != '\r'
}

/// Calls `UnicodeSegmentation::graphemes(s, true)` and collects the clusters. Its source
/// hands out consecutive non-empty slices `s[start..next]` from the start of `s` to its end,
/// so the clusters are non-empty and, put back together, give `s`; where the boundaries
/// fall is what the name `grapheme_clusters` stands for. Between two chars that are both
/// plain ASCII its source always breaks, so a text of such chars has one cluster per char.
#[verifier::external_body]
fn clusters_of(s: &str) -> (gs: Vec<String>)
    ensures
        views(gs@) == grapheme_clusters(s@),
        views(gs@).flatten() == s@,
        forall|i: int| 0 <= i < gs@.len() ==> #[trigger] gs@[i]@.len() > 0,
        (forall|i: int| 0 <= i < s@.len() ==> is_plain_ascii(#[trigger] s@[i])) ==> views(gs@) == s@.map_values(
            |ch: char| seq![ch],
        ),
{
    s.graphemes(true).map(String::from).collect()
}

/// Every cluster is non-empty and the clusters put together give `s`.
pub open spec fn is_segmentation(gs: Seq<Seq<char>>, s: Seq<char>) -> bool {
    &&& gs.flatten() == s
    &&& forall|i: int| 0 <= i < gs.len() ==> #[trigger] gs[i].len() > 0
}

/// The first boundary after `i`, walking the clusters `gs` from position `base`; the end
/// of the text where no boundary lies after `i`.
pub open spec fn boundary_after(gs: Seq<Seq<char>>, base: int, i: int) -> int
    decreases gs.len(),
{
    if gs.len() == 0 {
        base
    } else if base + gs[0].len() > i {
        base + gs[0].len()
    } else {
        boundary_after(gs.drop_first(), base + gs[0].len(), i)
    }
}

/// The last boundary before `i`, walking the clusters `gs` from position `base`; `base`
/// itself where no boundary after it lies before `i`.
pub open spec fn boundary_before(gs: Seq<Seq<char>>, base: int, i: int) -> int
    decreases gs.len(),
{
    if gs.len() == 0 {
        base
    } else if base + gs[0].len() >= i {
        base
    } else {
        boundary_before(gs.drop_first(), base + gs[0].len(), i)
    }
}

/// The number of extended grapheme clusters of `s`.
pub open spec fn grapheme_count(s: Seq<char>) -> nat {
    grapheme_clusters(s).len()
}

proof fn lemma_flatten_len_ge<A>(gs: Seq<Seq<A>>)
    requires
        forall|i: int| 0 <= i < gs.len() ==> #[trigger] gs[i].len() > 0,
    ensures
        gs.flatten().len() >= gs.len(),
    decreases gs.len(),
{
    if gs.len() > 0 {
        assert forall|i: int| 0 <= i < gs.drop_first().len() implies #[trigger] gs.drop_first()[i].len()
            > 0 by {
            assert(gs.drop_first()[i] == gs[i + 1]);
        }
        lemma_flatten_len_ge(gs.drop_first());
    }
}

/// A text has at most as many grapheme clusters as chars.
pub proof fn lemma_count_le_len(s: Seq<char>, gs: Seq<Seq<char>>)
    requires
        is_segmentation(gs, s),
    ensures
        gs.len() <= s.len(),
{
    lemma_flatten_len_ge(gs);
}

/// The boundary after `i` found from `base` lies after `i` (when `i` is inside the text)
/// and no further than the end.
pub proof fn lemma_boundary_after_bounds(gs: Seq<Seq<char>>, s: Seq<char>, base: int, i: int)
    requires
        is_segmentation(gs, s),
        base <= i,
    ensures
        boundary_after(gs, base, i) <= base + s.len(),
        i < base + s.len() ==> i < boundary_after(gs, base, i),
    decreases gs.len(),
{
    if gs.len() > 0 {
        let rest = gs.drop_first();
        assert(gs.flatten() == gs[0] + rest.flatten());
        assert forall|k: int| 0 <= k < rest.len() implies #[trigger] rest[k].len() > 0 by {
            assert(rest[k] == gs[k + 1]);
        }
        if base + gs[0].len() <= i {
            lemma_boundary_after_bounds(rest, rest.flatten(), base + gs[0].len(), i);
        }
    } else {
        assert(s.len() == 0);
    }
}

/// The boundary before `i` found from `base` lies before `i` (when `i` is past `base`) and
/// no earlier than `base`.
pub proof fn lemma_boundary_before_bounds(gs: Seq<Seq<char>>, s: Seq<char>, base: int, i: int)
    requires
        is_segmentation(gs, s),
        base < i,
    ensures
        base <= boundary_before(gs, base, i) < i,
    decreases gs.len(),
{
    if gs.len() > 0 {
        let rest = gs.drop_first();
        assert(gs.flatten() == gs[0] + rest.flatten());
        assert forall|k: int| 0 <= k < rest.len() implies #[trigger] rest[k].len() > 0 by {
            assert(rest[k] == gs[k + 1]);
        }
        if base + gs[0].len() < i {
            lemma_boundary_before_bounds(rest, rest.flatten(), base + gs[0].len(), i);
        }
    }
}

/// The clusters of `s` as strings, in order.
pub fn graphemes(s: &str) -> (gs: Vec<String>)
    ensures
        views(gs@) == grapheme_clusters(s@),
        is_segmentation(grapheme_clusters(s@), s@),
        (forall|i: int| 0 <= i < s@.len() ==> is_plain_ascii(#[trigger] s@[i])) ==> single_char_clusters(s@),
{
    let gs = clusters_of(s);
    proof {
        assert forall|i: int| 0 <= i < views(gs@).len() implies #[trigger] views(gs@)[i].len() > 0 by {
            assert(gs@[i]@.len() > 0);
        }
    }
    gs
}

/// The number of extended grapheme clusters of `s`.
pub fn count_graphemes(s: &str) -> (n: usize)
    ensures
        n == grapheme_count(s@),
        n <= s@.len(),
        s@.len() > 0 ==> n > 0,
{
    let gs = graphemes(s);
    proof {
        lemma_count_le_len(s@, grapheme_clusters(s@));
        if s@.len() > 0 {
            lemma_nonempty_has_cluster(s@, grapheme_clusters(s@));
        }
    }
    gs.len()
}


/// The char offset at which cluster `x` of `s` starts, or the end of `s` when it has no
/// cluster `x`.
pub open spec fn grapheme_start(s: Seq<char>, x: int) -> int {
    if x >= grapheme_count(s) {
        s.len() as int
    } else {
        grapheme_clusters(s).take(x).flatten().len() as int
    }
}

/// A non-empty text has at least one cluster.
pub proof fn lemma_nonempty_has_cluster(s: Seq<char>, gs: Seq<Seq<char>>)
    requires
        is_segmentation(gs, s),
        s.len() > 0,
    ensures
        gs.len() > 0,
{
    if gs.len() == 0 {
        assert(gs.flatten() =~= Seq::<char>::empty());
    }
}

proof fn lemma_take_flatten_le(gs: Seq<Seq<char>>, s: Seq<char>, k: int)
    requires
        is_segmentation(gs, s),
        0 <= k <= gs.len(),
    ensures
        gs.take(k).flatten().len() <= s.len(),
{
    assert(gs =~= gs.take(k) + gs.skip(k));
    vstd::seq_lib::lemma_flatten_concat(gs.take(k), gs.skip(k));
}

/// The char offset at which cluster `x` of `s` starts, or the length of `s` when `s` has
/// no cluster `x`.
pub fn grapheme_offset(s: &str, x: usize) -> (k: usize)
    ensures
        k == grapheme_start(s@, x as int),
        k <= s@.len(),
{
    let len = s.unicode_len();
    let gs = graphemes(s);
    let ghost cs = views(gs@);
    if x >= gs.len() {
        return len;
    }
    let mut pos: usize = 0;
    let mut i: usize = 0;
    while i < x
        invariant
            cs == views(gs@),
            cs == grapheme_clusters(s@),
            is_segmentation(cs, s@),
            len == s@.len(),
            x < gs@.len(),
            i <= x,
            pos == cs.take(i as int).flatten().len(),
        decreases x - i,
    {
        proof {
            assert(cs.take(i + 1) =~= cs.take(i as int).push(cs[i as int]));
            cs.take(i as int).lemma_flatten_push(cs[i as int]);
            lemma_take_flatten_le(cs, s@, i + 1);
        }
        let n = gs[i].unicode_len();
        pos = pos + n;
        i = i + 1;
    }
    proof {
        lemma_take_flatten_le(cs, s@, x as int);
    }
    pos
}

} // verus!
