//! The pluggable key-to-value cache that a loader worker consults before it
//! falls back to the batch function, together with the mathematical model
//! (`Map<i64, String>`) that all cache contracts are stated over.

use std::collections::HashMap;
use vstd::prelude::*;

verus! {

broadcast use vstd::std_specs::hash::group_hash_axioms;

/// The value the cache associates with `k`, if any.
pub open spec fn opt_value(m: Map<i64, String>, k: i64) -> Option<String> {
    if m.contains_key(k) {
        Some(m[k])
    } else {
        None
    }
}

/// The cached values for `keys`, position by position.
pub open spec fn lookups(m: Map<i64, String>, keys: Seq<i64>) -> Seq<Option<String>> {
    Seq::new(keys.len(), |i: int| opt_value(m, keys[i]))
}

/// Every key of `keys` is present in the cache.
pub open spec fn all_hit(m: Map<i64, String>, keys: Seq<i64>) -> bool {
    forall|i: int| 0 <= i < keys.len() ==> m.contains_key(#[trigger] keys[i])
}

/// The subsequence of `keys` that the cache does not hold, in input order.
pub open spec fn misses(m: Map<i64, String>, keys: Seq<i64>) -> Seq<i64>
    decreases keys.len(),
{
    if keys.len() == 0 {
        Seq::empty()
    } else if m.contains_key(keys.last()) {
        misses(m, keys.drop_last())
    } else {
        misses(m, keys.drop_last()).push(keys.last())
    }
}

/// The cache after inserting each pair of `kvs` in order (later pairs win).
pub open spec fn insert_pairs(m: Map<i64, String>, kvs: Seq<(i64, String)>) -> Map<i64, String>
    decreases kvs.len(),
{
    if kvs.len() == 0 {
        m
    } else {
        insert_pairs(m, kvs.drop_last()).insert(kvs.last().0, kvs.last().1)
    }
}

/// The cache after removing every key of `keys`.
pub open spec fn remove_all(m: Map<i64, String>, keys: Seq<i64>) -> Map<i64, String>
    decreases keys.len(),
{
    if keys.len() == 0 {
        m
    } else {
        remove_all(m, keys.drop_last()).remove(keys.last())
    }
}

/// `misses` is empty exactly when every key hits.
pub proof fn lemma_misses_empty_iff_all_hit(m: Map<i64, String>, keys: Seq<i64>)
    ensures
        misses(m, keys).len() == 0 <==> all_hit(m, keys),
    decreases keys.len(),
{
    if keys.len() > 0 {
        lemma_misses_empty_iff_all_hit(m, keys.drop_last());
        assert(all_hit(m, keys) ==> all_hit(m, keys.drop_last())) by {
            if all_hit(m, keys) {
                assert forall|i: int| 0 <= i < keys.drop_last().len() implies m.contains_key(
                    #[trigger] keys.drop_last()[i],
                ) by {
                    assert(keys.drop_last()[i] == keys[i]);
                }
            }
        }
        if misses(m, keys).len() == 0 {
            assert forall|i: int| 0 <= i < keys.len() implies m.contains_key(
                #[trigger] keys[i],
            ) by {
                if i == keys.len() - 1 {
                    assert(m.contains_key(keys.last()));
                } else {
                    assert(keys.drop_last()[i] == keys[i]);
                }
            }
        }
    }
}

/// A key that `keys` holds but the cache does not is among the misses.
pub proof fn lemma_missed_key_in_misses(m: Map<i64, String>, keys: Seq<i64>, k: i64)
    requires
        keys.contains(k),
        !m.contains_key(k),
    ensures
        misses(m, keys).contains(k),
    decreases keys.len(),
{
    if keys.len() > 0 {
        if keys.last() == k {
            assert(misses(m, keys).last() == k);
        } else {
            assert(keys.drop_last().contains(k)) by {
                let i = choose|i: int| 0 <= i < keys.len() && keys[i] == k;
                assert(keys.drop_last()[i] == k);
            }
            lemma_missed_key_in_misses(m, keys.drop_last(), k);
            let j = choose|j: int|
                0 <= j < misses(m, keys.drop_last()).len() && misses(m, keys.drop_last())[j] == k;
            assert(misses(m, keys)[j] == k);
        }
    }
}

/// A key that no pair of `kvs` mentions keeps its binding across the bulk insert.
pub proof fn lemma_insert_pairs_other_key(m: Map<i64, String>, kvs: Seq<(i64, String)>, k: i64)
    requires
        forall|i: int| 0 <= i < kvs.len() ==> (#[trigger] kvs[i]).0 != k,
    ensures
        opt_value(insert_pairs(m, kvs), k) == opt_value(m, k),
    decreases kvs.len(),
{
    if kvs.len() > 0 {
        assert(kvs.last() == kvs[kvs.len() - 1]);
        assert forall|i: int| 0 <= i < kvs.drop_last().len() implies (#[trigger] kvs.drop_last()[
            i
        ]).0 != k by {
            assert(kvs.drop_last()[i] == kvs[i]);
        }
        lemma_insert_pairs_other_key(m, kvs.drop_last(), k);
    }
}

/// A key that `keys` does not hold keeps its binding across the bulk removal.
pub proof fn lemma_remove_all_other_key(m: Map<i64, String>, keys: Seq<i64>, k: i64)
    requires
        !keys.contains(k),
    ensures
        opt_value(remove_all(m, keys), k) == opt_value(m, k),
    decreases keys.len(),
{
    if keys.len() > 0 {
        assert(keys.last() != k);
        assert(!keys.drop_last().contains(k)) by {
            if keys.drop_last().contains(k) {
                let i = choose|i: int|
                    0 <= i < keys.drop_last().len() && keys.drop_last()[i] == k;
                assert(keys[i] == k);
            }
        }
        lemma_remove_all_other_key(m, keys.drop_last(), k);
    }
}

/// A key-to-value mapping a loader worker can consult and mutate. The default
/// is [`HashCache`], an unordered hash mapping; any conforming implementation
/// (an LRU, say) may stand in, provided bulk reads answer in input order.
pub trait Cache: Sized {
    /// The abstract contents of the cache.
    spec fn contents(&self) -> Map<i64, String>;

    /// The values for `keys`, position by position; `None` where a key is absent.
    fn get(&self, keys: &Vec<i64>) -> (vals: Vec<Option<String>>)
        ensures
            vals@ == lookups(self.contents(), keys@),
    ;

    /// Each requested key paired with its cached value, in input order.
    fn get_key_vals(&self, keys: &Vec<i64>) -> (kvs: Vec<(i64, Option<String>)>)
        ensures
            kvs@.len() == keys@.len(),
            forall|i: int|
                0 <= i < keys@.len() ==> #[trigger] kvs@[i] == (
                    keys@[i],
                    opt_value(self.contents(), keys@[i]),
                ),
    ;

    fn insert(&mut self, key: i64, value: String)
        ensures
            final(self).contents() == old(self).contents().insert(key, value),
    ;

    fn insert_many(&mut self, key_vals: Vec<(i64, String)>)
        ensures
            final(self).contents() == insert_pairs(old(self).contents(), key_vals@),
    ;

    fn remove(&mut self, keys: &Vec<i64>)
        ensures
            final(self).contents() == remove_all(old(self).contents(), keys@),
    ;

    fn flush(&mut self)
        ensures
            final(self).contents() == Map::<i64, String>::empty(),
    ;
}

/// The default cache: a thin adapter over `std::collections::HashMap`.
pub struct HashCache {
    map: HashMap<i64, String>,
}

impl HashCache {
    pub fn new() -> (c: HashCache)
        ensures
            c.contents() == Map::<i64, String>::empty(),
    {
        HashCache { map: HashMap::new() }
    }
}

impl Cache for HashCache {
    closed spec fn contents(&self) -> Map<i64, String> {
        self.map@
    }

    fn get(&self, keys: &Vec<i64>) -> (vals: Vec<Option<String>>) {
        let mut vals: Vec<Option<String>> = Vec::new();
        let mut i: usize = 0;
        while i < keys.len()
            invariant
                i <= keys@.len(),
                vals@.len() == i,
                forall|j: int| 0 <= j < i ==> vals@[j] == opt_value(self.contents(), keys@[j]),
            decreases keys@.len() - i,
        {
            match self.map.get(&keys[i]) {
                Some(v) => vals.push(Some(v.clone())),
                None => vals.push(None),
            }
            i = i + 1;
        }
        assert(vals@ =~= lookups(self.contents(), keys@));
        vals
    }

    fn get_key_vals(&self, keys: &Vec<i64>) -> (kvs: Vec<(i64, Option<String>)>) {
        let mut kvs: Vec<(i64, Option<String>)> = Vec::new();
        let mut i: usize = 0;
        while i < keys.len()
            invariant
                i <= keys@.len(),
                kvs@.len() == i,
                forall|j: int|
                    0 <= j < i ==> #[trigger] kvs@[j] == (
                        keys@[j],
                        opt_value(self.contents(), keys@[j]),
                    ),
            decreases keys@.len() - i,
        {
            let k = keys[i];
            match self.map.get(&k) {
                Some(v) => kvs.push((k, Some(v.clone()))),
                None => kvs.push((k, None)),
            }
            i = i + 1;
        }
        kvs
    }

    fn insert(&mut self, key: i64, value: String) {
        self.map.insert(key, value);
    }

    fn insert_many(&mut self, key_vals: Vec<(i64, String)>) {
        let ghost all = key_vals@;
        let mut key_vals = key_vals;
        let ghost m0 = self.map@;
        let ghost n: int = 0;
        while key_vals.len() > 0
            invariant
                0 <= n,
                n + key_vals@.len() == all.len(),
                key_vals@ == all.skip(n),
                self.map@ == insert_pairs(m0, all.take(n)),
            decreases key_vals@.len(),
        {
            let kv = key_vals.remove(0);
            self.map.insert(kv.0, kv.1);
            proof {
                assert(all.take(n + 1).drop_last() =~= all.take(n));
                assert(all.take(n + 1).last() == all[n]);
                n = n + 1;
            }
        }
        proof {
            assert(all.take(n) =~= all);
        }
    }

    fn remove(&mut self, keys: &Vec<i64>) {
        let ghost m0 = self.map@;
        let mut i: usize = 0;
        while i < keys.len()
            invariant
                i <= keys@.len(),
                self.map@ == remove_all(m0, keys@.take(i as int)),
            decreases keys@.len() - i,
        {
            self.map.remove(&keys[i]);
            proof {
                assert(keys@.take(i + 1).drop_last() =~= keys@.take(i as int));
                assert(keys@.take(i + 1).last() == keys@[i as int]);
            }
            i = i + 1;
        }
        proof {
            assert(keys@.take(i as int) =~= keys@);
        }
    }

    fn flush(&mut self) {
        self.map.clear();
    }
}

} // verus!
