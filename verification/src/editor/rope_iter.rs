//! Grapheme iteration and grapheme boundaries over the text of a rope slice.
use crate::graphemes::{
    boundary_after, boundary_before, grapheme_clusters, graphemes, is_segmentation,
    lemma_boundary_after_bounds, lemma_boundary_before_bounds, views,
};
use super::rope::{rope_slice_text, rope_slice_to_string};
use ropey::RopeSlice;
use vstd::prelude::*;
use vstd::string::StrSliceExecFns;

verus! {

broadcast use vstd::seq_lib::group_seq_properties;

/// Putting the first `k + 1` clusters together adds the `k`-th to the first `k`, and the
/// first `k` never hold more chars than the whole text.
proof fn lemma_prefix_step(gs: Seq<Seq<char>>, s: Seq<char>, k: int)
    requires
        is_segmentation(gs, s),
        0 <= k < gs.len(),
    ensures
        gs.take(k + 1).flatten() == gs.take(k).flatten() + gs[k],
        gs.take(k + 1).flatten().len() <= s.len(),
        gs.skip(k).drop_first() == gs.skip(k + 1),
        gs.skip(k)[0] == gs[k],
{
    assert(gs.take(k + 1) =~= gs.take(k).push(gs[k]));
    gs.take(k).lemma_flatten_push(gs[k]);
    assert(gs =~= gs.take(k + 1) + gs.skip(k + 1));
    vstd::seq_lib::lemma_flatten_concat(gs.take(k + 1), gs.skip(k + 1));
    assert(gs.skip(k).drop_first() =~= gs.skip(k + 1));
}

/// Finds the next grapheme boundary after the char position `char_idx` of `text`: the end
/// of the first cluster that ends after it, or the end of the text if none does.
pub fn next_grapheme_boundary(text: &str, char_idx: usize) -> (b: usize)
    ensures
        b == boundary_after(grapheme_clusters(text@), 0, char_idx as int),
        b <= text@.len(),
        char_idx < text@.len() ==> char_idx < b,
{
    let len = text.unicode_len();
    let gs = graphemes(text);
    let ghost cs = views(gs@);
    proof {
        lemma_boundary_after_bounds(cs, text@, 0, char_idx as int);
    }
    let mut pos: usize = 0;
    let mut k: usize = 0;
    while k < gs.len()
        invariant
            cs == views(gs@),
            cs == grapheme_clusters(text@),
            is_segmentation(cs, text@),
            len == text@.len(),
            k <= gs@.len(),
            pos == cs.take(k as int).flatten().len(),
            pos <= char_idx,
            boundary_after(cs, 0, char_idx as int) == boundary_after(cs.skip(k as int), pos as int, char_idx as int),
        decreases gs@.len() - k,
    {
        proof {
            lemma_prefix_step(cs, text@, k as int);
        }
        let n = gs[k].unicode_len();
        if pos + n > char_idx {
            return pos + n;
        }
        pos = pos + n;
        k = k + 1;
    }
    pos
}

/// Finds the previous grapheme boundary before the char position `char_idx` of `text`:
/// the start of the cluster that holds the char before it, or 0 if there is none.
pub fn prev_grapheme_boundary(text: &str, char_idx: usize) -> (b: usize)
    ensures
        b == boundary_before(grapheme_clusters(text@), 0, char_idx as int),
        0 < char_idx ==> b < char_idx,
{
    let len = text.unicode_len();
    let gs = graphemes(text);
    let ghost cs = views(gs@);
    proof {
        if 0 < char_idx {
            lemma_boundary_before_bounds(cs, text@, 0, char_idx as int);
        }
    }
    let mut pos: usize = 0;
    let mut k: usize = 0;
    while k < gs.len()
        invariant
            cs == views(gs@),
            cs == grapheme_clusters(text@),
            is_segmentation(cs, text@),
            len == text@.len(),
            k <= gs@.len(),
            pos == cs.take(k as int).flatten().len(),
            0 < char_idx ==> boundary_before(cs, 0, char_idx as int) < char_idx,
            boundary_before(cs, 0, char_idx as int) == boundary_before(cs.skip(k as int), pos as int, char_idx as int),
        decreases gs@.len() - k,
    {
        proof {
            lemma_prefix_step(cs, text@, k as int);
        }
        let n = gs[k].unicode_len();
        if pos + n >= char_idx {
            return pos;
        }
        pos = pos + n;
        k = k + 1;
    }
    pos
}

/// A cluster handed out, as plain chars.
pub open spec fn opt_view(g: Option<String>) -> Option<Seq<char>> {
    match g {
        Some(s) => Some(s@),
        None => None,
    }
}

/// One call of `next`: with clusters `rest` still to come, it hands out `g` and leaves
/// `rest2`: the first cluster and the others, or nothing when none is left.
pub open spec fn next_step(rest: Seq<Seq<char>>, g: Option<Seq<char>>, rest2: Seq<Seq<char>>) -> bool {
    if rest.len() == 0 {
        g is None && rest2 == rest
    } else {
        g == Some(rest[0]) && rest2 == rest.drop_first()
    }
}

/// Iterating from the start of a text hands out its clusters in order, then nothing: when
/// `rests[0]` is the clusters of `text` and each step is a call of `next`, item `i` is
/// cluster `i` while there is one, and nothing after.
pub proof fn lemma_iteration_yields_clusters(
    text: Seq<char>,
    rests: Seq<Seq<Seq<char>>>,
    items: Seq<Option<Seq<char>>>,
)
    requires
        rests.len() == items.len() + 1,
        rests[0] == grapheme_clusters(text),
        forall|i: int| 0 <= i < items.len() ==> next_step(rests[i], #[trigger] items[i], rests[i + 1]),
    ensures
        forall|i: int| 0 <= i < items.len() ==> #[trigger] items[i] == if i < grapheme_clusters(text).len() {
            Some(grapheme_clusters(text)[i])
        } else {
            None::<Seq<char>>
        },
{
    let cs = grapheme_clusters(text);
    assert forall|i: int| 0 <= i < items.len() implies #[trigger] items[i] == if i < cs.len() {
        Some(cs[i])
    } else {
        None::<Seq<char>>
    } by {
        lemma_rest_at(text, rests, items, i);
        assert(next_step(rests[i], items[i], rests[i + 1]));
    }
}

proof fn lemma_rest_at(text: Seq<char>, rests: Seq<Seq<Seq<char>>>, items: Seq<Option<Seq<char>>>, i: int)
    requires
        rests.len() == items.len() + 1,
        rests[0] == grapheme_clusters(text),
        forall|k: int| 0 <= k < items.len() ==> next_step(rests[k], #[trigger] items[k], rests[k + 1]),
        0 <= i <= items.len(),
    ensures
        rests[i] == grapheme_clusters(text).skip(if i < grapheme_clusters(text).len() { i } else { grapheme_clusters(text).len() as int }),
    decreases i,
{
    let cs = grapheme_clusters(text);
    if i == 0 {
        assert(cs.skip(0) =~= cs);
    } else {
        lemma_rest_at(text, rests, items, i - 1);
        assert(next_step(rests[i - 1], items[i - 1], rests[i]));
        if i - 1 < cs.len() {
            assert(cs.skip(i - 1).drop_first() =~= cs.skip(i));
        }
    }
}

/// An iterator over the grapheme clusters of the text of a rope slice.
pub struct RopeGraphemes {
    clusters: Vec<String>,
    next: usize,
}

impl RopeGraphemes {
    /// The clusters not handed out yet.
    pub closed spec fn rest(&self) -> Seq<Seq<char>> {
        views(self.clusters@).skip(self.next as int)
    }

    pub closed spec fn wf(&self) -> bool {
        self.next <= self.clusters@.len()
    }

    /// Starts at the first cluster of the text of `slice`.
    pub fn new(slice: &RopeSlice) -> (it: RopeGraphemes)
        ensures
            it.wf(),
            it.rest() == grapheme_clusters(rope_slice_text(*slice)),
            is_segmentation(grapheme_clusters(rope_slice_text(*slice)), rope_slice_text(*slice)),
    {
        let text = rope_slice_to_string(slice);
        let clusters = graphemes(text.as_str());
        let it = RopeGraphemes { clusters, next: 0 };
        assert(it.rest() =~= views(clusters@));
        it
    }

    /// Hands out the next cluster, if any is left.
    pub fn next(&mut self) -> (g: Option<String>)
        requires
            old(self).wf(),
        ensures
            final(self).wf(),
            next_step(old(self).rest(), opt_view(g), final(self).rest()),
    {
        if self.next < self.clusters.len() {
            let g = self.clusters[self.next].clone();
            self.next = self.next + 1;
            assert(self.rest() =~= old(self).rest().drop_first());
            Some(g)
        } else {
            None
        }
    }
}

} // verus!
