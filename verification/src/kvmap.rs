//! The map denoted by an association list: a sequence of string keys with a
//! parallel sequence of values.  The cache stores its records this way, so
//! every cache operation is specified against `kv_map` through the lemmas
//! here.

use vstd::prelude::*;

verus! {

/// The finite map that parallel key and value listings denote.  A later
/// occurrence of a key shadows an earlier one.
pub open spec fn kv_map<T>(ks: Seq<Seq<char>>, vs: Seq<T>) -> Map<Seq<char>, T>
    decreases ks.len(),
{
    if ks.len() == 0 || vs.len() == 0 {
        Map::empty()
    } else {
        kv_map(ks.drop_last(), vs.drop_last()).insert(ks.last(), vs.last())
    }
}

/// No key occurs twice.
pub open spec fn distinct_keys(ks: Seq<Seq<char>>) -> bool {
    forall|i: int, j: int| 0 <= i < j < ks.len() ==> ks[i] != ks[j]
}

/// A key is in the map's domain exactly when it occurs in the listing.
pub proof fn lemma_kv_dom<T>(ks: Seq<Seq<char>>, vs: Seq<T>, k: Seq<char>)
    requires
        ks.len() == vs.len(),
    ensures
        kv_map(ks, vs).contains_key(k) <==> ks.contains(k),
    decreases ks.len(),
{
    if ks.len() > 0 {
        lemma_kv_dom(ks.drop_last(), vs.drop_last(), k);
        if ks.last() != k {
            assert(ks.contains(k) <==> ks.drop_last().contains(k)) by {
                if ks.contains(k) {
                    let i = choose|i: int| 0 <= i < ks.len() && ks[i] == k;
                    assert(ks.drop_last()[i] == k);
                }
                if ks.drop_last().contains(k) {
                    let i = choose|i: int| 0 <= i < ks.drop_last().len() && ks.drop_last()[i]
                        == k;
                    assert(ks[i] == k);
                }
            }
        } else {
            assert(ks[ks.len() - 1] == k);
        }
    }
}

/// With distinct keys, the listing's `i`-th pair is in the map.
pub proof fn lemma_kv_index<T>(ks: Seq<Seq<char>>, vs: Seq<T>, i: int)
    requires
        ks.len() == vs.len(),
        distinct_keys(ks),
        0 <= i < ks.len(),
    ensures
        kv_map(ks, vs).contains_key(ks[i]),
        kv_map(ks, vs)[ks[i]] == vs[i],
    decreases ks.len(),
{
    if i < ks.len() - 1 {
        lemma_kv_index(ks.drop_last(), vs.drop_last(), i);
    }
}

/// With distinct keys, overwriting the `i`-th value is a map insert on the
/// `i`-th key.
pub proof fn lemma_kv_update<T>(ks: Seq<Seq<char>>, vs: Seq<T>, i: int, v: T)
    requires
        ks.len() == vs.len(),
        distinct_keys(ks),
        0 <= i < ks.len(),
    ensures
        kv_map(ks, vs.update(i, v)) =~= kv_map(ks, vs).insert(ks[i], v),
    decreases ks.len(),
{
    if i == ks.len() - 1 {
        assert(vs.update(i, v).drop_last() =~= vs.drop_last());
    } else {
        assert(vs.update(i, v).drop_last() =~= vs.drop_last().update(i, v));
        lemma_kv_update(ks.drop_last(), vs.drop_last(), i, v);
    }
}

/// Appending a fresh pair is a map insert.
pub proof fn lemma_kv_push<T>(ks: Seq<Seq<char>>, vs: Seq<T>, k: Seq<char>, v: T)
    requires
        ks.len() == vs.len(),
    ensures
        kv_map(ks.push(k), vs.push(v)) =~= kv_map(ks, vs).insert(k, v),
{
    assert(ks.push(k).drop_last() =~= ks);
    assert(vs.push(v).drop_last() =~= vs);
}

/// With distinct keys, dropping the `i`-th pair is a map remove on the
/// `i`-th key.
pub proof fn lemma_kv_remove<T>(ks: Seq<Seq<char>>, vs: Seq<T>, i: int)
    requires
        ks.len() == vs.len(),
        distinct_keys(ks),
        0 <= i < ks.len(),
    ensures
        kv_map(ks.remove(i), vs.remove(i)) =~= kv_map(ks, vs).remove(ks[i]),
    decreases ks.len(),
{
    if i == ks.len() - 1 {
        assert(ks.remove(i) =~= ks.drop_last());
        assert(vs.remove(i) =~= vs.drop_last());
        lemma_kv_dom(ks.drop_last(), vs.drop_last(), ks[i]);
        assert(!ks.drop_last().contains(ks[i])) by {
            if ks.drop_last().contains(ks[i]) {
                let j = choose|j: int| 0 <= j < ks.drop_last().len() && ks.drop_last()[j] == ks[i];
                assert(ks[j] == ks[i]);
            }
        }
    } else {
        assert(ks.remove(i).drop_last() =~= ks.drop_last().remove(i));
        assert(vs.remove(i).drop_last() =~= vs.drop_last().remove(i));
        assert(ks.remove(i).last() == ks.last());
        assert(vs.remove(i).last() == vs.last());
        lemma_kv_remove(ks.drop_last(), vs.drop_last(), i);
    }
}

} // verus!
