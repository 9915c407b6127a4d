//! Association sequences seen as maps and sets.
//!
//! The store keeps its state in vectors; contracts speak of the map or set
//! of their entries. These spec functions and lemmas connect the two.

use vstd::prelude::*;

verus! {

/// The association map described by a sequence of key-value pairs; a later
/// pair wins over an earlier one with the same key.
pub open spec fn kv_map<K, V>(s: Seq<(K, V)>) -> Map<K, V>
    decreases s.len(),
{
    if s.len() == 0 {
        Map::empty()
    } else {
        kv_map(s.drop_last()).insert(s.last().0, s.last().1)
    }
}

/// No two pairs of the sequence share a key.
pub open spec fn keys_unique<K, V>(s: Seq<(K, V)>) -> bool {
    forall|i: int, j: int| 0 <= i < j < s.len() ==> (#[trigger] s[i]).0 != (#[trigger] s[j]).0
}

/// The set of elements of a sequence.
pub open spec fn elem_set<T>(s: Seq<T>) -> Set<T>
    decreases s.len(),
{
    if s.len() == 0 {
        Set::empty()
    } else {
        elem_set(s.drop_last()).insert(s.last())
    }
}

/// All elements of the sequence are distinct.
pub open spec fn elems_unique<T>(s: Seq<T>) -> bool {
    forall|i: int, j: int| 0 <= i < j < s.len() ==> (#[trigger] s[i]) != (#[trigger] s[j])
}

pub proof fn lemma_kv_map_at<K, V>(s: Seq<(K, V)>, i: int)
    requires
        keys_unique(s),
        0 <= i < s.len(),
    ensures
        kv_map(s).contains_key(s[i].0),
        kv_map(s)[s[i].0] == s[i].1,
    decreases s.len(),
{
    if i == s.len() - 1 {
    } else {
        assert(s.drop_last()[i] == s[i]);
        lemma_kv_map_at(s.drop_last(), i);
        assert(s[i].0 != s.last().0);
    }
}

pub proof fn lemma_kv_map_absent<K, V>(s: Seq<(K, V)>, k: K)
    requires
        forall|i: int| 0 <= i < s.len() ==> (#[trigger] s[i]).0 != k,
    ensures
        !kv_map(s).contains_key(k),
    decreases s.len(),
{
    if s.len() > 0 {
        assert(s[s.len() - 1].0 != k);
        lemma_kv_map_absent(s.drop_last(), k);
    }
}

pub proof fn lemma_kv_map_some_index<K, V>(s: Seq<(K, V)>, k: K)
    requires
        kv_map(s).contains_key(k),
    ensures
        exists|i: int| 0 <= i < s.len() && (#[trigger] s[i]).0 == k,
    decreases s.len(),
{
    if s.len() > 0 {
        if s.last().0 == k {
            assert(s[s.len() - 1].0 == k);
        } else {
            lemma_kv_map_some_index(s.drop_last(), k);
            let i = choose|i: int| 0 <= i < s.drop_last().len() && (#[trigger] s.drop_last()[i]).0 == k;
            assert(s[i].0 == k);
        }
    }
}

pub proof fn lemma_kv_map_push<K, V>(s: Seq<(K, V)>, k: K, v: V)
    ensures
        kv_map(s.push((k, v))) == kv_map(s).insert(k, v),
{
    assert(s.push((k, v)).drop_last() =~= s);
    assert(s.push((k, v)).last() == (k, v));
}

pub proof fn lemma_kv_map_remove<K, V>(s: Seq<(K, V)>, i: int)
    requires
        keys_unique(s),
        0 <= i < s.len(),
    ensures
        kv_map(s.remove(i)) == kv_map(s).remove(s[i].0),
    decreases s.len(),
{
    if i == s.len() - 1 {
        assert(s.remove(i) =~= s.drop_last());
        assert forall|j: int| 0 <= j < s.drop_last().len() implies (#[trigger] s.drop_last()[j]).0
            != s[i].0 by {
            assert(s.drop_last()[j] == s[j]);
        }
        lemma_kv_map_absent(s.drop_last(), s[i].0);
        assert(kv_map(s.drop_last()).insert(s[i].0, s[i].1).remove(s[i].0) =~= kv_map(
            s.drop_last(),
        ));
    } else {
        let dl = s.drop_last();
        assert(s.remove(i).drop_last() =~= dl.remove(i));
        assert(s.remove(i).last() == s.last());
        assert(dl[i] == s[i]);
        lemma_kv_map_remove(dl, i);
        assert(s[i].0 != s.last().0);
        assert(kv_map(dl).remove(s[i].0).insert(s.last().0, s.last().1) =~= kv_map(dl).insert(
            s.last().0,
            s.last().1,
        ).remove(s[i].0));
    }
}

pub proof fn lemma_elem_set_at<T>(s: Seq<T>, i: int)
    requires
        0 <= i < s.len(),
    ensures
        elem_set(s).contains(s[i]),
    decreases s.len(),
{
    if i == s.len() - 1 {
    } else {
        assert(s.drop_last()[i] == s[i]);
        lemma_elem_set_at(s.drop_last(), i);
    }
}

pub proof fn lemma_elem_set_absent<T>(s: Seq<T>, x: T)
    requires
        forall|i: int| 0 <= i < s.len() ==> (#[trigger] s[i]) != x,
    ensures
        !elem_set(s).contains(x),
    decreases s.len(),
{
    if s.len() > 0 {
        assert(s[s.len() - 1] != x);
        lemma_elem_set_absent(s.drop_last(), x);
    }
}

pub proof fn lemma_elem_set_some_index<T>(s: Seq<T>, x: T)
    requires
        elem_set(s).contains(x),
    ensures
        exists|i: int| 0 <= i < s.len() && (#[trigger] s[i]) == x,
    decreases s.len(),
{
    if s.len() > 0 {
        if s.last() == x {
            assert(s[s.len() - 1] == x);
        } else {
            lemma_elem_set_some_index(s.drop_last(), x);
            let i = choose|i: int| 0 <= i < s.drop_last().len() && (#[trigger] s.drop_last()[i]) == x;
            assert(s[i] == x);
        }
    }
}

pub proof fn lemma_elem_set_push<T>(s: Seq<T>, x: T)
    ensures
        elem_set(s.push(x)) == elem_set(s).insert(x),
{
    assert(s.push(x).drop_last() =~= s);
    assert(s.push(x).last() == x);
}

pub proof fn lemma_elem_set_remove<T>(s: Seq<T>, i: int)
    requires
        elems_unique(s),
        0 <= i < s.len(),
    ensures
        elem_set(s.remove(i)) == elem_set(s).remove(s[i]),
    decreases s.len(),
{
    if i == s.len() - 1 {
        assert(s.remove(i) =~= s.drop_last());
        assert forall|j: int| 0 <= j < s.drop_last().len() implies (#[trigger] s.drop_last()[j])
            != s[i] by {
            assert(s.drop_last()[j] == s[j]);
        }
        lemma_elem_set_absent(s.drop_last(), s[i]);
        assert(elem_set(s.drop_last()).insert(s[i]).remove(s[i]) =~= elem_set(s.drop_last()));
    } else {
        let dl = s.drop_last();
        assert(s.remove(i).drop_last() =~= dl.remove(i));
        assert(s.remove(i).last() == s.last());
        assert(dl[i] == s[i]);
        lemma_elem_set_remove(dl, i);
        assert(s[i] != s.last());
        assert(elem_set(dl).remove(s[i]).insert(s.last()) =~= elem_set(dl).insert(
            s.last(),
        ).remove(s[i]));
    }
}

} // verus!
