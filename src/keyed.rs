//! Maps built from a sequence of keys and a parallel sequence of values.
use vstd::prelude::*;

verus! {

/// The map that sends each `ks[i]` to `vs[i]`; a later key overrides an earlier one.
pub open spec fn keyed<V>(ks: Seq<Seq<char>>, vs: Seq<V>) -> Map<Seq<char>, V>
    decreases ks.len(),
{
    if ks.len() == 0 || vs.len() == 0 {
        Map::empty()
    } else {
        keyed(ks.drop_last(), vs.drop_last()).insert(ks.last(), vs.last())
    }
}

/// Every key of the map occurs in the key sequence, and conversely.
pub proof fn lemma_keyed_dom<V>(ks: Seq<Seq<char>>, vs: Seq<V>, k: Seq<char>)
    requires
        ks.len() == vs.len(),
    ensures
        keyed(ks, vs).contains_key(k) <==> ks.contains(k),
    decreases ks.len(),
{
    if ks.len() > 0 {
        lemma_keyed_dom(ks.drop_last(), vs.drop_last(), k);
        if ks.drop_last().contains(k) {
            let j = choose|j: int| 0 <= j < ks.drop_last().len() && ks.drop_last()[j] == k;
            assert(ks[j] == k);
        }
        if ks.contains(k) && k != ks.last() {
            let j = choose|j: int| 0 <= j < ks.len() && ks[j] == k;
            assert(ks.drop_last()[j] == k);
        }
        if k == ks.last() {
            assert(ks[ks.len() - 1] == k);
        }
    }
}

/// With distinct keys, the map sends `ks[i]` to `vs[i]`.
pub proof fn lemma_keyed_index<V>(ks: Seq<Seq<char>>, vs: Seq<V>, i: int)
    requires
        ks.len() == vs.len(),
        ks.no_duplicates(),
        0 <= i < ks.len(),
    ensures
        keyed(ks, vs).contains_key(ks[i]),
        keyed(ks, vs)[ks[i]] == vs[i],
    decreases ks.len(),
{
    if i < ks.len() - 1 {
        lemma_keyed_index(ks.drop_last(), vs.drop_last(), i);
        assert(ks.drop_last()[i] == ks[i]);
        assert(ks[i] != ks.last());
    }
}

/// Replacing one value of a sequence with distinct keys replaces one entry of the map.
pub proof fn lemma_keyed_update<V>(ks: Seq<Seq<char>>, vs: Seq<V>, i: int, v: V)
    requires
        ks.len() == vs.len(),
        ks.no_duplicates(),
        0 <= i < ks.len(),
    ensures
        keyed(ks, vs.update(i, v)) == keyed(ks, vs).insert(ks[i], v),
    decreases ks.len(),
{
    let vs2 = vs.update(i, v);
    if i == ks.len() - 1 {
        assert(vs2.drop_last() =~= vs.drop_last());
        assert(keyed(ks, vs2) =~= keyed(ks, vs).insert(ks[i], v));
    } else {
        assert(vs2.drop_last() =~= vs.drop_last().update(i, v));
        lemma_keyed_update(ks.drop_last(), vs.drop_last(), i, v);
        assert(ks.drop_last()[i] == ks[i]);
        assert(ks[i] != ks.last());
        assert(keyed(ks, vs2) =~= keyed(ks, vs).insert(ks[i], v));
    }
}

/// Appending a pair inserts one entry into the map.
pub proof fn lemma_keyed_push<V>(ks: Seq<Seq<char>>, vs: Seq<V>, k: Seq<char>, v: V)
    requires
        ks.len() == vs.len(),
    ensures
        keyed(ks.push(k), vs.push(v)) == keyed(ks, vs).insert(k, v),
{
    assert(ks.push(k).drop_last() =~= ks);
    assert(vs.push(v).drop_last() =~= vs);
}

} // verus!
