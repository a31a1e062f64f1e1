//! Lists of (name, value) entries, each name at most once, and the maps they stand for.
use vstd::prelude::*;

verus! {

/// The map that a list of (key, value) entries stands for; a later entry for the same key
/// wins.
pub open spec fn entries_map<V>(es: Seq<(Seq<char>, V)>) -> Map<Seq<char>, V>
    decreases es.len(),
{
    if es.len() == 0 {
        Map::empty()
    } else {
        entries_map(es.drop_last()).insert(es.last().0, es.last().1)
    }
}

/// No key occurs twice.
pub open spec fn keys_distinct<V>(es: Seq<(Seq<char>, V)>) -> bool {
    forall|i: int, j: int| 0 <= i < j < es.len() ==> #[trigger] es[i].0 != #[trigger] es[j].0
}

/// An entry of a list with distinct keys is in the map it stands for.
pub proof fn lemma_map_has<V>(es: Seq<(Seq<char>, V)>, j: int)
    requires
        keys_distinct(es),
        0 <= j < es.len(),
    ensures
        entries_map(es).contains_key(es[j].0),
        entries_map(es)[es[j].0] == es[j].1,
    decreases es.len(),
{
    if j < es.len() - 1 {
        let init = es.drop_last();
        assert(init[j] == es[j]);
        assert(es.last() == es[es.len() - 1]);
        lemma_map_has(init, j);
    }
}

/// A key that no entry has is not in the map.
pub proof fn lemma_map_lacks<V>(es: Seq<(Seq<char>, V)>, k: Seq<char>)
    requires
        forall|i: int| 0 <= i < es.len() ==> #[trigger] es[i].0 != k,
    ensures
        !entries_map(es).contains_key(k),
    decreases es.len(),
{
    if es.len() > 0 {
        let init = es.drop_last();
        assert forall|i: int| 0 <= i < init.len() implies #[trigger] init[i].0 != k by {
            assert(init[i] == es[i]);
        }
        assert(es.last() == es[es.len() - 1]);
        lemma_map_lacks(init, k);
    }
}

/// A key of the map is the key of some entry.
pub proof fn lemma_map_dom<V>(es: Seq<(Seq<char>, V)>, k: Seq<char>)
    requires
        entries_map(es).contains_key(k),
    ensures
        exists|i: int| 0 <= i < es.len() && #[trigger] es[i].0 == k,
    decreases es.len(),
{
    if es.len() > 0 {
        let init = es.drop_last();
        if k != es.last().0 {
            lemma_map_dom(init, k);
            let i = choose|i: int| 0 <= i < init.len() && #[trigger] init[i].0 == k;
            assert(es[i] == init[i]);
        } else {
            assert(es[es.len() - 1].0 == k);
        }
    }
}

/// A list with distinct keys whose entries are exactly those of `m` stands for `m`.
pub proof fn lemma_map_ext<V>(fs: Seq<(Seq<char>, V)>, m: Map<Seq<char>, V>)
    requires
        keys_distinct(fs),
        forall|i: int| 0 <= i < fs.len() ==> m.contains_key(#[trigger] fs[i].0) && m[fs[i].0] == fs[i].1,
        forall|k: Seq<char>| #[trigger] m.contains_key(k) ==> exists|i: int| 0 <= i < fs.len() && #[trigger] fs[i].0 == k,
    ensures
        entries_map(fs) == m,
{
    assert forall|k: Seq<char>| #[trigger] m.contains_key(k) implies entries_map(fs).contains_key(k)
        && entries_map(fs)[k] == m[k] by {
        let i = choose|i: int| 0 <= i < fs.len() && #[trigger] fs[i].0 == k;
        lemma_map_has(fs, i);
    }
    assert forall|k: Seq<char>| #[trigger] entries_map(fs).contains_key(k) implies m.contains_key(k) by {
        lemma_map_dom(fs, k);
        let i = choose|i: int| 0 <= i < fs.len() && #[trigger] fs[i].0 == k;
        assert(m.contains_key(fs[i].0));
    }
    assert(entries_map(fs) =~= m);
}

/// A list with distinct keys stands for a finite map with as many keys as it has entries.
pub proof fn lemma_len<V>(es: Seq<(Seq<char>, V)>)
    requires
        keys_distinct(es),
    ensures
        entries_map(es).len() == es.len(),
        entries_map(es).dom().finite(),
    decreases es.len(),
{
    if es.len() > 0 {
        let init = es.drop_last();
        assert forall|i: int, k: int| 0 <= i < k < init.len() implies #[trigger] init[i].0 != #[trigger] init[k].0 by {
            assert(init[i] == es[i]);
            assert(init[k] == es[k]);
        }
        lemma_len(init);
        assert forall|i: int| 0 <= i < init.len() implies #[trigger] init[i].0 != es.last().0 by {
            assert(init[i] == es[i]);
            assert(es.last() == es[es.len() - 1]);
        }
        lemma_map_lacks(init, es.last().0);
    }
}

} // verus!
