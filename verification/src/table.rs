//! Sequences of keyed entries and the finite maps that they stand for.

use vstd::prelude::*;

verus! {

/// Some entry of `s` has the key `k`.
pub open spec fn has_key<K, V>(s: Seq<(K, V)>, k: K) -> bool {
    exists|i: int| 0 <= i < s.len() && (#[trigger] s[i]).0 == k
}

/// A position in `s` that holds the key `k`.
pub open spec fn position_of<K, V>(s: Seq<(K, V)>, k: K) -> int {
    choose|i: int| 0 <= i < s.len() && (#[trigger] s[i]).0 == k
}

/// No key occurs twice in `s`.
pub open spec fn distinct_keys<K, V>(s: Seq<(K, V)>) -> bool {
    forall|i: int, j: int| 0 <= i < j < s.len() ==> (#[trigger] s[i]).0 != (#[trigger] s[j]).0
}

/// The map from each key of `s` to the value that stands beside it.
pub open spec fn table<K, V>(s: Seq<(K, V)>) -> Map<K, V> {
    Map::new(|k: K| has_key(s, k), |k: K| s[position_of(s, k)].1)
}

/// How many entries of `s` hold a value that satisfies `pred`.
pub open spec fn hits<K, V>(s: Seq<(K, V)>, pred: spec_fn(V) -> bool) -> nat
    decreases s.len(),
{
    if s.len() == 0 {
        0
    } else {
        hits(s.drop_last(), pred) + if pred(s.last().1) {
            1nat
        } else {
            0nat
        }
    }
}

/// The keys of `m` whose value satisfies `pred`.
pub open spec fn keys_where<K, V>(m: Map<K, V>, pred: spec_fn(V) -> bool) -> Set<K> {
    m.dom().filter(|k: K| pred(m[k]))
}

/// With distinct keys, the entry at position `i` is what the map holds.
pub proof fn lemma_table_entry<K, V>(s: Seq<(K, V)>, i: int)
    requires
        distinct_keys(s),
        0 <= i < s.len(),
    ensures
        table(s).dom().contains(s[i].0),
        table(s)[s[i].0] == s[i].1,
{
}

/// Putting an entry with a new key anywhere into `s` inserts it into the map.
pub proof fn lemma_table_insert<K, V>(s: Seq<(K, V)>, pos: int, k: K, v: V)
    requires
        distinct_keys(s),
        !has_key(s, k),
        0 <= pos <= s.len(),
    ensures
        distinct_keys(s.insert(pos, (k, v))),
        table(s.insert(pos, (k, v))) == table(s).insert(k, v),
{
    let t = s.insert(pos, (k, v));
    assert forall|x: K| #[trigger] has_key(t, x) <==> (x == k || has_key(s, x)) by {
        if x == k {
            assert(t[pos].0 == k);
        }
        if has_key(s, x) {
            let a = position_of(s, x);
            let i = if a < pos { a } else { a + 1 };
            assert(t[i] == s[a]);
        }
    }
}

/// Replacing the value at position `i` overwrites that key in the map.
pub proof fn lemma_table_update<K, V>(s: Seq<(K, V)>, i: int, v: V)
    requires
        distinct_keys(s),
        0 <= i < s.len(),
    ensures
        distinct_keys(s.update(i, (s[i].0, v))),
        table(s.update(i, (s[i].0, v))) == table(s).insert(s[i].0, v),
{
    let k = s[i].0;
    let t = s.update(i, (k, v));
    assert forall|x: K| #[trigger] has_key(t, x) <==> has_key(s, x) by {
        if has_key(s, x) {
            let a = position_of(s, x);
            assert(t[a].0 == x);
        }
    }
}

/// With distinct keys, the map has as many keys as `s` has entries, and the
/// keys whose value satisfies `pred` are as many as the entries that do.
pub proof fn lemma_table_counts<K, V>(s: Seq<(K, V)>, pred: spec_fn(V) -> bool)
    requires
        distinct_keys(s),
    ensures
        table(s).dom().finite(),
        table(s).dom().len() == s.len(),
        keys_where(table(s), pred).finite(),
        keys_where(table(s), pred).len() == hits(s, pred),
    decreases s.len(),
{
    if s.len() == 0 {
        assert(table(s).dom() =~= Set::<K>::empty());
        assert(keys_where(table(s), pred) =~= Set::<K>::empty());
    } else {
        let t = s.drop_last();
        let e = s.last();
        lemma_table_counts(t, pred);
        lemma_table_insert(t, t.len() as int, e.0, e.1);
        assert(t.insert(t.len() as int, e) =~= s);
        if pred(e.1) {
            assert(keys_where(table(s), pred) =~= keys_where(table(t), pred).insert(e.0));
        } else {
            assert(keys_where(table(s), pred) =~= keys_where(table(t), pred));
        }
    }
}

} // verus!
