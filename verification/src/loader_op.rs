//! The operations a loader handle sends to its worker, and the per-request
//! replies the worker sends back.

use vstd::prelude::*;

use crate::cache::insert_pairs;
use crate::cache::remove_all;

verus! {

/// A request to read one key or a list of keys.
///
/// A `One` request is answered with a single optional value, a `Many`
/// request with one optional value per key, in key order.
#[derive(Debug, PartialEq, Eq)]
pub enum LoadRequest {
    One(i64),
    Many(Vec<i64>),
}

/// The set of operations that can be sent to a loader worker.
///
/// The three categories are Load, Prime, and Clear, each with a single and
/// a many variant for convenience.
#[derive(Debug, PartialEq, Eq)]
pub enum LoaderOp {
    /// Fetch data through the cache, falling back to the batch function.
    Load(LoadRequest),
    /// Add a value to the cache that was fetched elsewhere.
    Prime(i64, String),
    PrimeMany(Vec<(i64, String)>),
    /// Remove a value from the cache so it is reloaded when next requested.
    Clear(i64),
    ClearMany(Vec<i64>),
}

/// The reply to a single [`LoadRequest`]: its shape follows the request's.
#[derive(Debug, PartialEq, Eq)]
pub enum LoadResponse {
    One(Option<String>),
    Many(Vec<Option<String>>),
}

impl LoadRequest {
    /// The requested keys, in request order.
    pub open spec fn key_seq(&self) -> Seq<i64> {
        match self {
            LoadRequest::One(k) => seq![*k],
            LoadRequest::Many(ks) => ks@,
        }
    }

    /// Whether the reply must carry one value per key rather than a single value.
    pub open spec fn is_many(&self) -> bool {
        match self {
            LoadRequest::One(_) => false,
            LoadRequest::Many(_) => true,
        }
    }

    /// The requested keys, in request order.
    pub fn keys(&self) -> (ks: Vec<i64>)
        ensures
            ks@ == self.key_seq(),
    {
        match self {
            LoadRequest::One(k) => {
                let mut v: Vec<i64> = Vec::new();
                v.push(*k);
                assert(v@ =~= self.key_seq());
                v
            },
            LoadRequest::Many(ks) => {
                let mut v: Vec<i64> = Vec::new();
                let mut i: usize = 0;
                while i < ks.len()
                    invariant
                        i <= ks@.len(),
                        v@ == ks@.take(i as int),
                    decreases ks@.len() - i,
                {
                    v.push(ks[i]);
                    proof {
                        assert(ks@.take(i + 1) =~= ks@.take(i as int).push(ks@[i as int]));
                    }
                    i = i + 1;
                }
                proof {
                    assert(ks@.take(i as int) =~= ks@);
                }
                v
            },
        }
    }
}

impl LoadResponse {
    /// The reply's shape (`true` for `Many`) and its values, position by position.
    pub open spec fn view_parts(&self) -> (bool, Seq<Option<String>>) {
        match self {
            LoadResponse::One(o) => (false, seq![*o]),
            LoadResponse::Many(vs) => (true, vs@),
        }
    }
}

/// The effect of one drained operation on the cache contents. Load
/// operations never mutate the cache during the drain.
pub open spec fn op_effect(m: Map<i64, String>, op: LoaderOp) -> Map<i64, String> {
    match op {
        LoaderOp::Load(_) => m,
        LoaderOp::Prime(k, v) => m.insert(k, v),
        LoaderOp::PrimeMany(kvs) => insert_pairs(m, kvs@),
        LoaderOp::Clear(k) => m.remove(k),
        LoaderOp::ClearMany(ks) => remove_all(m, ks@),
    }
}

/// Whether an operation primes or clears the key `k` (so its binding may change).
pub open spec fn op_touches(op: LoaderOp, k: i64) -> bool {
    match op {
        LoaderOp::Load(_) => false,
        LoaderOp::Prime(pk, _) => pk == k,
        LoaderOp::PrimeMany(kvs) => exists|i: int| 0 <= i < kvs@.len() && (#[trigger] kvs@[i]).0 == k,
        LoaderOp::Clear(ck) => ck == k,
        LoaderOp::ClearMany(ks) => ks@.contains(k),
    }
}

/// An operation that does not touch `k` leaves `k`'s binding unchanged.
pub proof fn lemma_untouched_key_unchanged(m: Map<i64, String>, op: LoaderOp, k: i64)
    requires
        !op_touches(op, k),
    ensures
        crate::cache::opt_value(op_effect(m, op), k) == crate::cache::opt_value(m, k),
{
    match op {
        LoaderOp::PrimeMany(kvs) => {
            crate::cache::lemma_insert_pairs_other_key(m, kvs@, k);
        },
        LoaderOp::ClearMany(ks) => {
            crate::cache::lemma_remove_all_other_key(m, ks@, k);
        },
        _ => {},
    }
}

} // verus!
