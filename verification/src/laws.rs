//! Frame-level laws of the coalescing engine, stated and proved over the
//! specification functions that the worker's contracts use.

use vstd::prelude::*;

use crate::cache::all_hit;
use crate::cache::misses;
use crate::cache::opt_value;
use crate::loader_op::op_touches;
use crate::loader_op::LoadRequest;
use crate::loader_op::LoaderOp;
use crate::loader_worker::count_loads;
use crate::loader_worker::drain_cache;
use crate::loader_worker::expected_resp;
use crate::loader_worker::frame_fast;
use crate::loader_worker::frame_miss_union;
use crate::loader_worker::frame_pending;

verus! {

/// Every load operation of a frame receives exactly one reply: the replies
/// sent during the drain and the replies sent after the batch call together
/// number one per drained load.
pub proof fn lemma_one_reply_per_load(m: Map<i64, String>, ops: Seq<LoaderOp>)
    ensures
        frame_fast(m, ops).len() + frame_pending(m, ops).len() == count_loads(ops),
    decreases ops.len(),
{
    if ops.len() > 0 {
        lemma_one_reply_per_load(m, ops.drop_last());
    }
}

/// A reply always carries as many values as its request has keys, and the
/// value at each position is the cached value of the key at that position.
pub proof fn lemma_reply_matches_positions(m: Map<i64, String>, req: LoadRequest)
    ensures
        expected_resp(m, req).1.len() == req.key_seq().len(),
        forall|i: int|
            0 <= i < req.key_seq().len() ==> expected_resp(m, req).1[i] == opt_value(
                m,
                req.key_seq()[i],
            ),
{
}

/// `ops[i]` is a load request that missed the cache as it stood when `ops[i]`
/// was drained.
pub open spec fn load_missed_at(m: Map<i64, String>, ops: Seq<LoaderOp>, i: int) -> bool {
    0 <= i < ops.len() && match ops[i] {
        LoaderOp::Load(req) => !all_hit(drain_cache(m, ops.take(i)), req.key_seq()),
        _ => false,
    }
}

/// The batch function runs exactly when it must: a frame defers some request
/// (and so invokes the batch function) if and only if some drained load had
/// at least one miss.
pub proof fn lemma_batch_only_on_miss(m: Map<i64, String>, ops: Seq<LoaderOp>)
    ensures
        frame_pending(m, ops).len() > 0 <==> exists|i: int| load_missed_at(m, ops, i),
    decreases ops.len(),
{
    if ops.len() > 0 {
        let prev = ops.drop_last();
        lemma_batch_only_on_miss(m, prev);
        assert(ops.take(ops.len() - 1) =~= prev);
        assert forall|i: int| 0 <= i < prev.len() implies load_missed_at(m, ops, i)
            == load_missed_at(m, prev, i) by {
            assert(ops.take(i) =~= prev.take(i));
            assert(ops[i] == prev[i]);
        }
        if frame_pending(m, ops).len() > 0 {
            if frame_pending(m, prev).len() > 0 {
                let i = choose|i: int| load_missed_at(m, prev, i);
                assert(load_missed_at(m, ops, i));
            } else {
                assert(load_missed_at(m, ops, ops.len() - 1));
            }
        }
        if exists|i: int| load_missed_at(m, ops, i) {
            let i = choose|i: int| load_missed_at(m, ops, i);
            if i < ops.len() - 1 {
                assert(load_missed_at(m, prev, i));
                assert(frame_pending(m, prev).len() > 0);
                assert(frame_pending(m, ops).len() >= frame_pending(m, prev).len());
            }
        }
    }
}

/// The binding of `k` does not change while the drained operations between
/// positions `a` and `b` neither prime nor clear it.
pub proof fn lemma_key_stable(m: Map<i64, String>, ops: Seq<LoaderOp>, k: i64, a: int, b: int)
    requires
        0 <= a <= b <= ops.len(),
        forall|l: int| a <= l < b ==> !op_touches(#[trigger] ops[l], k),
    ensures
        opt_value(drain_cache(m, ops.take(b)), k) == opt_value(drain_cache(m, ops.take(a)), k),
    decreases b - a,
{
    if a < b {
        lemma_key_stable(m, ops, k, a, b - 1);
        assert(ops.take(b).drop_last() =~= ops.take(b - 1));
        assert(ops.take(b).last() == ops[b - 1]);
        crate::loader_op::lemma_untouched_key_unchanged(
            drain_cache(m, ops.take(b - 1)),
            ops[b - 1],
            k,
        );
    }
}

/// Once a key is primed, a later load of that key in the same frame - with
/// nothing in between that primes or clears it again - is answered on the
/// fast path with exactly the primed value, and contributes no miss, so the
/// batch function is never invoked on its behalf.
pub proof fn lemma_prime_then_load(
    m: Map<i64, String>,
    ops: Seq<LoaderOp>,
    i: int,
    j: int,
    k: i64,
    v: String,
)
    requires
        0 <= i < j < ops.len(),
        ops[i] == LoaderOp::Prime(k, v),
        ops[j] == LoaderOp::Load(LoadRequest::One(k)),
        forall|l: int| i < l < j ==> !op_touches(#[trigger] ops[l], k),
    ensures
        all_hit(drain_cache(m, ops.take(j)), seq![k]),
        expected_resp(drain_cache(m, ops.take(j)), LoadRequest::One(k)) == (
            false,
            seq![Some(v)],
        ),
        misses(drain_cache(m, ops.take(j)), seq![k]) == Seq::<i64>::empty(),
{
    assert(ops.take(i + 1).drop_last() =~= ops.take(i));
    assert(ops.take(i + 1).last() == ops[i]);
    assert(opt_value(drain_cache(m, ops.take(i + 1)), k) == Some(v));
    lemma_key_stable(m, ops, k, i + 1, j);
    lemma_present_key_load(drain_cache(m, ops.take(j)), k, v);
}

/// A key the cache already holds at the start of a frame is, absent any
/// prime or clear of it earlier in the frame, answered on the fast path
/// with the held value, and contributes no miss. With the frame contract
/// this extends a prime to every later frame until the key is cleared.
pub proof fn lemma_cached_then_load(
    m: Map<i64, String>,
    ops: Seq<LoaderOp>,
    j: int,
    k: i64,
    v: String,
)
    requires
        opt_value(m, k) == Some(v),
        0 <= j < ops.len(),
        ops[j] == LoaderOp::Load(LoadRequest::One(k)),
        forall|l: int| 0 <= l < j ==> !op_touches(#[trigger] ops[l], k),
    ensures
        all_hit(drain_cache(m, ops.take(j)), seq![k]),
        expected_resp(drain_cache(m, ops.take(j)), LoadRequest::One(k)) == (
            false,
            seq![Some(v)],
        ),
        misses(drain_cache(m, ops.take(j)), seq![k]) == Seq::<i64>::empty(),
{
    assert(ops.take(0) =~= Seq::<LoaderOp>::empty());
    lemma_key_stable(m, ops, k, 0, j);
    lemma_present_key_load(drain_cache(m, ops.take(j)), k, v);
}

/// A single-key load against a cache that holds `k -> v` hits, reads `v`,
/// and misses nothing.
proof fn lemma_present_key_load(mj: Map<i64, String>, k: i64, v: String)
    requires
        opt_value(mj, k) == Some(v),
    ensures
        all_hit(mj, seq![k]),
        expected_resp(mj, LoadRequest::One(k)) == (false, seq![Some(v)]),
        misses(mj, seq![k]) == Seq::<i64>::empty(),
{
    assert forall|idx: int| 0 <= idx < seq![k].len() implies mj.contains_key(
        #[trigger] seq![k][idx],
    ) by {
        assert(seq![k][idx] == k);
    }
    assert(crate::cache::lookups(mj, seq![k]) =~= seq![Some(v)]);
    assert(seq![k].drop_last() =~= Seq::<i64>::empty());
    assert(seq![k].last() == k);
    assert(mj.contains_key(k));
    assert(misses(mj, Seq::<i64>::empty()) == Seq::<i64>::empty());
    assert(misses(mj, seq![k]) == misses(mj, seq![k].drop_last()));
}

/// Pins each reply to its request: the reply of the load drained at
/// position `j` stands, if the load fully hit, at position `idx` of the
/// frame's immediate replies, where `idx` is the number of fully hit loads
/// drained before it - and otherwise at the analogous position of the
/// deferred requests. So every load receives exactly one reply, in drain
/// order within its group.
pub proof fn lemma_load_reply_located(m: Map<i64, String>, ops: Seq<LoaderOp>, j: int)
    requires
        0 <= j < ops.len(),
        ops[j] matches LoaderOp::Load(_),
    ensures
        ({
            let mj = drain_cache(m, ops.take(j));
            match ops[j] {
                LoaderOp::Load(req) => if all_hit(mj, req.key_seq()) {
                    let idx = frame_fast(m, ops.take(j)).len();
                    idx < frame_fast(m, ops).len() && frame_fast(m, ops)[idx as int] == expected_resp(
                        mj,
                        req,
                    )
                } else {
                    let idx = frame_pending(m, ops.take(j)).len();
                    idx < frame_pending(m, ops).len() && frame_pending(m, ops)[idx as int] == req
                },
                _ => true,
            }
        }),
    decreases ops.len(),
{
    if j == ops.len() - 1 {
        assert(ops.take(j) =~= ops.drop_last());
    } else {
        let prev = ops.drop_last();
        assert(prev.take(j) =~= ops.take(j));
        assert(prev[j] == ops[j]);
        lemma_load_reply_located(m, prev, j);
    }
}

/// A miss of one drained load belongs to the frame's miss union.
pub proof fn lemma_miss_in_union(m: Map<i64, String>, ops: Seq<LoaderOp>, j: int, k: i64)
    requires
        0 <= j < ops.len(),
        ops[j] matches LoaderOp::Load(req) && misses(
            drain_cache(m, ops.take(j)),
            req.key_seq(),
        ).contains(k),
    ensures
        frame_miss_union(m, ops).contains(k),
    decreases ops.len(),
{
    if j == ops.len() - 1 {
        assert(ops.take(j) =~= ops.drop_last());
    } else {
        let prev = ops.drop_last();
        assert(prev.take(j) =~= ops.take(j));
        assert(prev[j] == ops[j]);
        lemma_miss_in_union(m, prev, j, k);
    }
}

/// After a clear of `k`, a load that asks for `k` later in the frame - with
/// nothing in between that primes `k` again - misses on `k`, so `k` appears
/// in the key set handed to the frame's batch function.
pub proof fn lemma_clear_then_load(m: Map<i64, String>, ops: Seq<LoaderOp>, i: int, j: int, k: i64)
    requires
        0 <= i < j < ops.len(),
        ops[i] == LoaderOp::Clear(k),
        ops[j] matches LoaderOp::Load(req) && req.key_seq().contains(k),
        forall|l: int| i < l < j ==> !op_touches(#[trigger] ops[l], k),
    ensures
        frame_miss_union(m, ops).contains(k),
{
    assert(ops.take(i + 1).drop_last() =~= ops.take(i));
    assert(ops.take(i + 1).last() == ops[i]);
    assert(opt_value(drain_cache(m, ops.take(i + 1)), k) == None::<String>);
    lemma_key_stable(m, ops, k, i + 1, j);
    match ops[j] {
        LoaderOp::Load(req) => {
            crate::cache::lemma_missed_key_in_misses(
                drain_cache(m, ops.take(j)),
                req.key_seq(),
                k,
            );
            lemma_miss_in_union(m, ops, j, k);
        },
        _ => {},
    }
}

/// Duplicate keys in one request read duplicate values: a reply computed
/// from any cache contents carries the same value at every position where
/// the request carries the same key.
pub proof fn lemma_duplicate_positions(m: Map<i64, String>, req: LoadRequest, a: int, b: int)
    requires
        0 <= a < req.key_seq().len(),
        0 <= b < req.key_seq().len(),
        req.key_seq()[a] == req.key_seq()[b],
    ensures
        expected_resp(m, req).1[a] == expected_resp(m, req).1[b],
{
}

} // verus!
