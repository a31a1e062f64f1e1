//! Sets of positions and the increasing list of their elements.
use std::collections::BTreeSet;
use vstd::prelude::*;
use vstd::std_specs::btree::{increasing_seq, spec_btree_keys_iter};
use vstd::std_specs::cmp::OrdSpec;
use vstd::std_specs::iter::IteratorSpec;

verus! {

broadcast use {vstd::std_specs::btree::group_btree_axioms, vstd::laws_cmp::group_laws_cmp};

/// Each element is smaller than the next.
pub open spec fn strictly_increasing(l: Seq<usize>) -> bool {
    forall|a: int, b: int| 0 <= a < b < l.len() ==> l[a] < l[b]
}

/// The elements of `s`, in increasing order.
pub open spec fn sorted_elems(s: Set<usize>) -> Seq<usize> {
    choose|l: Seq<usize>| strictly_increasing(l) && l.to_set() == s
}

/// `s` has an increasing list of its elements (as a finite set of positions does).
pub open spec fn is_enumerated(s: Set<usize>) -> bool {
    strictly_increasing(sorted_elems(s)) && sorted_elems(s).to_set() == s
}

/// The empty set is listed by the empty list.
pub proof fn lemma_enumerated_empty()
    ensures
        is_enumerated(Set::<usize>::empty()),
        sorted_elems(Set::<usize>::empty()) == Seq::<usize>::empty(),
{
    let e = Seq::<usize>::empty();
    assert(e.to_set() =~= Set::<usize>::empty());
    assert(strictly_increasing(e) && e.to_set() == Set::<usize>::empty());
    lemma_increasing_unique(e, sorted_elems(Set::<usize>::empty()));
}

proof fn split_point(o: Seq<usize>, p: usize) -> (k: int)
    requires
        strictly_increasing(o),
        !o.to_set().contains(p),
    ensures
        0 <= k <= o.len(),
        forall|a: int| 0 <= a < k ==> o[a] < p,
        forall|a: int| k <= a < o.len() ==> o[a] > p,
    decreases o.len(),
{
    if o.len() == 0 {
        0
    } else if o[o.len() - 1] < p {
        assert forall|a: int| 0 <= a < o.len() implies o[a] < p by {
            if a < o.len() - 1 {
                assert(o[a] < o[o.len() - 1]);
            }
        }
        o.len() as int
    } else {
        let init = o.drop_last();
        assert(o.to_set().contains(o[o.len() - 1]));
        assert forall|x: usize| init.to_set().contains(x) implies o.to_set().contains(x) by {
            let i = choose|i: int| 0 <= i < init.len() && init[i] == x;
            assert(o[i] == x);
        }
        let k = split_point(init, p);
        assert forall|a: int| 0 <= a < k implies o[a] < p by {
            assert(o[a] == init[a]);
        }
        assert forall|a: int| k <= a < o.len() implies o[a] > p by {
            if a < o.len() - 1 {
                assert(o[a] == init[a]);
            }
        }
        k
    }
}

/// Adding an element to a listed set gives a listed set.
pub proof fn lemma_enumerated_insert(s: Set<usize>, p: usize)
    requires
        is_enumerated(s),
    ensures
        is_enumerated(s.insert(p)),
{
    let o = sorted_elems(s);
    if s.contains(p) {
        assert(s.insert(p) =~= s);
    } else {
        assert(!o.to_set().contains(p));
        let k = split_point(o, p);
        let n = o.take(k).push(p) + o.skip(k);
        assert forall|a: int, b: int| 0 <= a < b < n.len() implies n[a] < n[b] by {
            if b < k {
                assert(n[a] == o[a] && n[b] == o[b]);
            } else if b == k {
                assert(n[a] == o[a]);
            } else if a < k {
                assert(n[a] == o[a] && n[b] == o[b - 1]);
            } else if a == k {
                assert(n[b] == o[b - 1]);
            } else {
                assert(n[a] == o[a - 1] && n[b] == o[b - 1]);
            }
        }
        assert forall|x: usize| n.to_set().contains(x) <==> s.insert(p).contains(x) by {
            if n.to_set().contains(x) {
                let i = choose|i: int| 0 <= i < n.len() && n[i] == x;
                if i < k {
                    assert(o[i] == x);
                    assert(o.to_set().contains(x));
                } else if i > k {
                    assert(o[i - 1] == x);
                    assert(o.to_set().contains(x));
                }
            }
            if s.contains(x) && x != p {
                assert(o.to_set().contains(x));
                let i = choose|i: int| 0 <= i < o.len() && o[i] == x;
                if i < k {
                    assert(n[i] == x);
                } else {
                    assert(n[i + 1] == x);
                }
            }
            if x == p {
                assert(n[k] == p);
            }
        }
        assert(n.to_set() =~= s.insert(p));
        let l = sorted_elems(s.insert(p));
        assert(strictly_increasing(n) && n.to_set() == s.insert(p));
    }
}

/// Two increasing lists of the same elements are the same list.
pub proof fn lemma_increasing_unique(a: Seq<usize>, b: Seq<usize>)
    requires
        strictly_increasing(a),
        strictly_increasing(b),
        a.to_set() == b.to_set(),
    ensures
        a == b,
    decreases a.len(),
{
    if a.len() == 0 {
        if b.len() > 0 {
            assert(b.to_set().contains(b[0]));
        }
        assert(a =~= b);
    } else {
        assert(a.to_set().contains(a[0]));
        let k = choose|k: int| 0 <= k < b.len() && b[k] == a[0];
        assert(b.to_set().contains(b[0]));
        let m = choose|m: int| 0 <= m < a.len() && a[m] == b[0];
        assert(a[0] == b[0]);
        let a1 = a.drop_first();
        let b1 = b.drop_first();
        assert forall|x: usize| a1.to_set().contains(x) <==> b1.to_set().contains(x) by {
            if a1.to_set().contains(x) {
                let i = choose|i: int| 0 <= i < a1.len() && a1[i] == x;
                assert(a[i + 1] == x && a[0] < x);
                assert(b.to_set().contains(x));
                let j = choose|j: int| 0 <= j < b.len() && b[j] == x;
                assert(j != 0);
                assert(b1[j - 1] == x);
            }
            if b1.to_set().contains(x) {
                let i = choose|i: int| 0 <= i < b1.len() && b1[i] == x;
                assert(b[i + 1] == x && b[0] < x);
                assert(a.to_set().contains(x));
                let j = choose|j: int| 0 <= j < a.len() && a[j] == x;
                assert(j != 0);
                assert(a1[j - 1] == x);
            }
        }
        assert(a1.to_set() =~= b1.to_set());
        lemma_increasing_unique(a1, b1);
        assert forall|i: int| 0 < i < a.len() implies a[i] == b[i] by {
            assert(a[i] == a1[i - 1]);
            assert(b[i] == b1[i - 1]);
        }
        assert(a =~= b);
    }
}

proof fn lemma_increasing_keys(rem: Seq<&usize>, v: Seq<usize>)
    requires
        increasing_seq(rem),
        v == rem.unref(),
    ensures
        strictly_increasing(v),
{
    assert(vstd::laws_cmp::obeys_cmp::<&usize>());
    assert forall|a: int, b: int| 0 <= a < b < v.len() implies v[a] < v[b] by {
        assert(OrdSpec::cmp_spec(&rem[a], &rem[b]) is Less);
    }
}

/// The elements of `set`, in increasing order.
pub fn sorted_of(set: &BTreeSet<usize>) -> (v: Vec<usize>)
    ensures
        v@ == sorted_elems(set@),
        strictly_increasing(v@),
        v@.to_set() == set@,
{
    let ghost keys = spec_btree_keys_iter(set).remaining().unref();
    let mut v: Vec<usize> = Vec::new();
    for x in it: set.iter()
        invariant
            it.seq() == spec_btree_keys_iter(set).remaining(),
            keys == spec_btree_keys_iter(set).remaining().unref(),
            v@ == keys.take(it.index()),
    {
        assert(keys.take(it.index() + 1) =~= keys.take(it.index()).push(*x));
        v.push(*x);
    }
    proof {
        let rem = spec_btree_keys_iter(set).remaining();
        assert(v@ =~= keys);
        lemma_increasing_keys(rem, v@);
        assert forall|x: usize| v@.to_set().contains(x) <==> set@.contains(x) by {
            if v@.to_set().contains(x) {
                let i = choose|i: int| 0 <= i < v@.len() && v@[i] == x;
                assert(rem.unref()[i] == x);
                assert(rem.unref().to_set().contains(x));
            }
            if set@.contains(x) {
                assert(rem.unref().to_set().contains(x));
                let i = choose|i: int| 0 <= i < rem.unref().len() && rem.unref()[i] == x;
                assert(v@[i] == x);
            }
        }
        assert(v@.to_set() =~= set@);
        let l = sorted_elems(set@);
        assert(strictly_increasing(l) && l.to_set() == set@);
        lemma_increasing_unique(v@, l);
    }
    v
}

} // verus!
