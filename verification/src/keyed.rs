//! Keys and values stored side by side in sequences, read as a map.

use vstd::prelude::*;

verus! {

/// No key occurs twice.
pub open spec fn distinct<K>(keys: Seq<K>) -> bool {
    forall|i: int, j: int| 0 <= i < j < keys.len() ==> keys[i] != keys[j]
}

/// `k` is among the keys.
pub open spec fn has_key<K>(keys: Seq<K>, k: K) -> bool {
    exists|i: int| 0 <= i < keys.len() && keys[i] == k
}

/// An index at which `k` stands.
pub open spec fn index_of<K>(keys: Seq<K>, k: K) -> int {
    choose|i: int| 0 <= i < keys.len() && keys[i] == k
}

/// The map that sends each key to the value stored beside it.
pub open spec fn assoc<K, V>(keys: Seq<K>, vals: Seq<V>) -> Map<K, V> {
    Map::new(|k: K| has_key(keys, k), |k: K| vals[index_of(keys, k)])
}

/// A key and the value beside it are an entry of the map.
pub proof fn lemma_assoc_at<K, V>(keys: Seq<K>, vals: Seq<V>, i: int)
    requires
        distinct(keys),
        0 <= i < keys.len(),
    ensures
        has_key(keys, keys[i]),
        index_of(keys, keys[i]) == i,
        assoc(keys, vals).contains_key(keys[i]),
        assoc(keys, vals)[keys[i]] == vals[i],
{
    let p = index_of(keys, keys[i]);
    assert(0 <= p < keys.len() && keys[p] == keys[i]);
}

/// A key that is not among the keys is not in the map.
pub proof fn lemma_assoc_absent<K, V>(keys: Seq<K>, vals: Seq<V>, k: K)
    requires
        forall|i: int| 0 <= i < keys.len() ==> keys[i] != k,
    ensures
        !has_key(keys, k),
        !assoc(keys, vals).contains_key(k),
{
}

/// Storing a new key with its value inserts into the map.
pub proof fn lemma_assoc_push<K, V>(keys: Seq<K>, vals: Seq<V>, k: K, v: V)
    requires
        distinct(keys),
        keys.len() == vals.len(),
        !has_key(keys, k),
    ensures
        distinct(keys.push(k)),
        assoc(keys.push(k), vals.push(v)) == assoc(keys, vals).insert(k, v),
{
    let keys2 = keys.push(k);
    let vals2 = vals.push(v);
    let n = keys.len() as int;
    assert forall|id: K| has_key(keys2, id) <==> (has_key(keys, id) || id == k) by {
        if has_key(keys, id) {
            assert(keys2[index_of(keys, id)] == id);
        }
        if id == k {
            assert(keys2[n] == k);
        }
    }
    assert forall|id: K| has_key(keys2, id) implies vals2[index_of(keys2, id)] == assoc(
        keys,
        vals,
    ).insert(k, v)[id] by {
        let p = index_of(keys2, id);
        lemma_assoc_at(keys2, vals2, p);
        if p < n {
            lemma_assoc_at(keys, vals, p);
        }
    }
    assert(assoc(keys2, vals2) =~= assoc(keys, vals).insert(k, v));
}

/// Replacing the value beside a key updates the map at that key.
pub proof fn lemma_assoc_update<K, V>(keys: Seq<K>, vals: Seq<V>, i: int, v: V)
    requires
        distinct(keys),
        keys.len() == vals.len(),
        0 <= i < keys.len(),
    ensures
        assoc(keys, vals.update(i, v)) == assoc(keys, vals).insert(keys[i], v),
{
    let vals2 = vals.update(i, v);
    lemma_assoc_at(keys, vals, i);
    assert forall|id: K| has_key(keys, id) implies vals2[index_of(keys, id)] == assoc(
        keys,
        vals,
    ).insert(keys[i], v)[id] by {
        let p = index_of(keys, id);
        lemma_assoc_at(keys, vals, p);
    }
    assert(assoc(keys, vals2) =~= assoc(keys, vals).insert(keys[i], v));
}

/// Taking a key and its value out removes the key from the map.
pub proof fn lemma_assoc_remove<K, V>(keys: Seq<K>, vals: Seq<V>, i: int)
    requires
        distinct(keys),
        keys.len() == vals.len(),
        0 <= i < keys.len(),
    ensures
        distinct(keys.remove(i)),
        assoc(keys.remove(i), vals.remove(i)) == assoc(keys, vals).remove(keys[i]),
{
    let keys2 = keys.remove(i);
    let vals2 = vals.remove(i);
    assert forall|a: int, b: int| 0 <= a < b < keys2.len() implies keys2[a] != keys2[b] by {
        let a0 = if a < i { a } else { a + 1 };
        let b0 = if b < i { b } else { b + 1 };
        assert(keys2[a] == keys[a0] && keys2[b] == keys[b0]);
    }
    assert forall|id: K| has_key(keys2, id) <==> (has_key(keys, id) && id != keys[i]) by {
        if has_key(keys, id) && id != keys[i] {
            let p = index_of(keys, id);
            let shifted = if p < i { p } else { p - 1 };
            assert(keys2[shifted] == id);
        }
        if has_key(keys2, id) {
            let shifted = index_of(keys2, id);
            let p = if shifted < i { shifted } else { shifted + 1 };
            assert(keys[p] == id);
        }
    }
    assert forall|id: K| has_key(keys2, id) implies vals2[index_of(keys2, id)] == assoc(
        keys,
        vals,
    )[id] by {
        let shifted = index_of(keys2, id);
        let p = if shifted < i { shifted } else { shifted + 1 };
        lemma_assoc_at(keys2, vals2, shifted);
        assert(keys[p] == id);
        lemma_assoc_at(keys, vals, p);
    }
    assert(assoc(keys2, vals2) =~= assoc(keys, vals).remove(keys[i]));
}

/// A map made from distinct keys has as many entries as there are keys.
pub proof fn lemma_assoc_len<K, V>(keys: Seq<K>, vals: Seq<V>)
    requires
        distinct(keys),
        keys.len() == vals.len(),
    ensures
        assoc(keys, vals).dom().finite(),
        assoc(keys, vals).dom().len() == keys.len(),
    decreases keys.len(),
{
    if keys.len() == 0 {
        assert(assoc(keys, vals).dom() =~= Set::<K>::empty());
    } else {
        let n = keys.len() - 1;
        let k = keys[n];
        let keys0 = keys.drop_last();
        let vals0 = vals.drop_last();
        assert forall|i: int, j: int| 0 <= i < j < keys0.len() implies keys0[i] != keys0[j] by {
            assert(keys0[i] == keys[i] && keys0[j] == keys[j]);
        }
        lemma_assoc_len(keys0, vals0);
        assert forall|i: int| 0 <= i < keys0.len() implies keys0[i] != k by {
            assert(keys0[i] == keys[i]);
        }
        lemma_assoc_absent(keys0, vals0, k);
        lemma_assoc_push(keys0, vals0, k, vals[n]);
        assert(keys0.push(k) =~= keys);
        assert(vals0.push(vals[n]) =~= vals);
        assert(assoc(keys, vals).dom() =~= assoc(keys0, vals0).dom().insert(k));
    }
}

} // verus!
