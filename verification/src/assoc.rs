//! Association lists: the map model used for header tables, the server
//! context, and the per-route method tables. Insertion replaces the first
//! entry carrying the key and appends otherwise; lookup returns the first
//! entry carrying the key.

use vstd::prelude::*;

verus! {

/// First value stored under `key`, if any.
pub open spec fn assoc_lookup<K, V>(pairs: Seq<(K, V)>, key: K) -> Option<V>
    decreases pairs.len(),
{
    if pairs.len() == 0 {
        None
    } else if pairs[0].0 == key {
        Some(pairs[0].1)
    } else {
        assoc_lookup(pairs.drop_first(), key)
    }
}

/// Stores `value` under `key`: replaces the first entry carrying `key`, or
/// appends a new entry when none does.
pub open spec fn assoc_insert<K, V>(pairs: Seq<(K, V)>, key: K, value: V) -> Seq<(K, V)>
    decreases pairs.len(),
{
    if pairs.len() == 0 {
        seq![(key, value)]
    } else if pairs[0].0 == key {
        seq![(key, value)] + pairs.drop_first()
    } else {
        seq![pairs[0]] + assoc_insert(pairs.drop_first(), key, value)
    }
}

/// Looking a key up after an insertion sees the inserted value exactly for
/// that key, and is otherwise unchanged.
pub proof fn lemma_assoc_insert_lookup<K, V>(pairs: Seq<(K, V)>, key: K, value: V, q: K)
    ensures
        assoc_lookup(assoc_insert(pairs, key, value), q) == if q == key {
            Some(value)
        } else {
            assoc_lookup(pairs, q)
        },
    decreases pairs.len(),
{
    if pairs.len() == 0 {
        let ins = assoc_insert(pairs, key, value);
        assert(ins == seq![(key, value)]);
        assert(ins[0] == (key, value));
        assert(ins.drop_first() =~= Seq::<(K, V)>::empty());
        if q != key {
            assert(assoc_lookup(ins.drop_first(), q) is None);
        }
    } else if pairs[0].0 == key {
        let ins = assoc_insert(pairs, key, value);
        assert(ins[0] == (key, value));
        assert(ins.drop_first() =~= pairs.drop_first());
    } else {
        let ins = assoc_insert(pairs, key, value);
        assert(ins[0] == pairs[0]);
        assert(ins.drop_first() =~= assoc_insert(pairs.drop_first(), key, value));
        lemma_assoc_insert_lookup(pairs.drop_first(), key, value, q);
    }
}

/// When the first entry carrying `key` stands at `i`, insertion is an update
/// in place.
pub proof fn lemma_assoc_insert_is_update<K, V>(pairs: Seq<(K, V)>, key: K, value: V, i: int)
    requires
        0 <= i < pairs.len(),
        pairs[i].0 == key,
        forall|j: int| 0 <= j < i ==> (#[trigger] pairs[j]).0 != key,
    ensures
        assoc_insert(pairs, key, value) == pairs.update(i, (key, value)),
    decreases pairs.len(),
{
    if i == 0 {
        assert(assoc_insert(pairs, key, value) =~= pairs.update(0, (key, value)));
    } else {
        assert(pairs[0].0 != key);
        assert forall|j: int| 0 <= j < i - 1 implies (#[trigger] pairs.drop_first()[j]).0
            != key by {
            assert(pairs.drop_first()[j] == pairs[j + 1]);
        }
        lemma_assoc_insert_is_update(pairs.drop_first(), key, value, i - 1);
        assert(assoc_insert(pairs, key, value) =~= pairs.update(i, (key, value)));
    }
}

/// When no entry carries `key`, insertion is an append.
pub proof fn lemma_assoc_insert_is_push<K, V>(pairs: Seq<(K, V)>, key: K, value: V)
    requires
        forall|j: int| 0 <= j < pairs.len() ==> (#[trigger] pairs[j]).0 != key,
    ensures
        assoc_insert(pairs, key, value) == pairs.push((key, value)),
    decreases pairs.len(),
{
    if pairs.len() == 0 {
        assert(assoc_insert(pairs, key, value) =~= pairs.push((key, value)));
    } else {
        assert forall|j: int| 0 <= j < pairs.drop_first().len() implies (
        #[trigger] pairs.drop_first()[j]).0 != key by {
            assert(pairs.drop_first()[j] == pairs[j + 1]);
        }
        lemma_assoc_insert_is_push(pairs.drop_first(), key, value);
        assert(assoc_insert(pairs, key, value) =~= pairs.push((key, value)));
    }
}

/// When the first entry carrying `key` stands at `i`, lookup returns its
/// value.
pub proof fn lemma_assoc_lookup_at<K, V>(pairs: Seq<(K, V)>, key: K, i: int)
    requires
        0 <= i < pairs.len(),
        pairs[i].0 == key,
        forall|j: int| 0 <= j < i ==> (#[trigger] pairs[j]).0 != key,
    ensures
        assoc_lookup(pairs, key) == Some(pairs[i].1),
    decreases pairs.len(),
{
    if i > 0 {
        assert forall|j: int| 0 <= j < i - 1 implies (#[trigger] pairs.drop_first()[j]).0
            != key by {
            assert(pairs.drop_first()[j] == pairs[j + 1]);
        }
        lemma_assoc_lookup_at(pairs.drop_first(), key, i - 1);
    }
}

/// When no entry carries `key`, lookup returns nothing.
pub proof fn lemma_assoc_lookup_none<K, V>(pairs: Seq<(K, V)>, key: K)
    requires
        forall|j: int| 0 <= j < pairs.len() ==> (#[trigger] pairs[j]).0 != key,
    ensures
        assoc_lookup(pairs, key) is None,
    decreases pairs.len(),
{
    if pairs.len() > 0 {
        assert forall|j: int| 0 <= j < pairs.drop_first().len() implies (
        #[trigger] pairs.drop_first()[j]).0 != key by {
            assert(pairs.drop_first()[j] == pairs[j + 1]);
        }
        lemma_assoc_lookup_none(pairs.drop_first(), key);
    }
}

/// The views of a byte-keyed association vector.
pub open spec fn pair_views(hs: Seq<(Vec<u8>, Vec<u8>)>) -> Seq<(Seq<u8>, Seq<u8>)> {
    hs.map_values(|p: (Vec<u8>, Vec<u8>)| (p.0@, p.1@))
}

/// Looks `key` up in a byte-keyed association vector.
pub fn pairs_lookup<'a>(pairs: &'a Vec<(Vec<u8>, Vec<u8>)>, key: &[u8]) -> (r: Option<&'a Vec<u8>>)
    ensures
        match r {
            Some(v) => assoc_lookup(pair_views(pairs@), key@) == Some(v@),
            None => assoc_lookup(pair_views(pairs@), key@) is None,
        },
{
    let n = pairs.len();
    for i in 0..n
        invariant
            n == pairs@.len(),
            forall|j: int| 0 <= j < i ==> (#[trigger] pair_views(pairs@)[j]).0 != key@,
    {
        if crate::bytes::bytes_eq(pairs[i].0.as_slice(), key) {
            proof {
                lemma_assoc_lookup_at(pair_views(pairs@), key@, i as int);
            }
            return Some(&pairs[i].1);
        }
        proof {
            assert((pair_views(pairs@)[i as int]).0 != key@);
        }
    }
    proof {
        lemma_assoc_lookup_none(pair_views(pairs@), key@);
    }
    None
}

/// Stores `value` under `key` in a byte-keyed association vector.
pub fn pairs_insert(pairs: &mut Vec<(Vec<u8>, Vec<u8>)>, key: Vec<u8>, value: Vec<u8>)
    ensures
        pair_views(final(pairs)@) == assoc_insert(pair_views(old(pairs)@), key@, value@),
{
    let n = pairs.len();
    for i in 0..n
        invariant
            n == pairs@.len(),
            pairs@ == old(pairs)@,
            forall|j: int| 0 <= j < i ==> (#[trigger] pair_views(pairs@)[j]).0 != key@,
    {
        if crate::bytes::bytes_eq(pairs[i].0.as_slice(), key.as_slice()) {
            proof {
                lemma_assoc_insert_is_update(pair_views(pairs@), key@, value@, i as int);
            }
            let ghost before = pair_views(pairs@);
            pairs.remove(i);
            pairs.insert(i, (key, value));
            proof {
                assert(pair_views(pairs@) =~= before.update(i as int, (key@, value@)));
            }
            return ;
        }
        proof {
            assert((pair_views(pairs@)[i as int]).0 != key@);
        }
    }
    proof {
        lemma_assoc_insert_is_push(pair_views(pairs@), key@, value@);
    }
    let ghost before = pair_views(pairs@);
    pairs.push((key, value));
    proof {
        assert(pair_views(pairs@) =~= before.push((key@, value@)));
    }
}

} // verus!
