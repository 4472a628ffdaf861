//! The single-consumer worker at the heart of the loader: it drains queued
//! operations, applies cache mutations immediately, answers fully cached
//! load requests on the spot, coalesces the missing keys of the rest, and
//! resolves every deferred request once the batch results are in.

use vstd::prelude::*;

use crate::batch_function::BatchFunction;
use crate::cache::all_hit;
use crate::cache::insert_pairs;
use crate::cache::lookups;
use crate::cache::misses;
use crate::cache::opt_value;
use crate::cache::Cache;
use crate::loader_op::op_effect;
use crate::loader_op::LoadRequest;
use crate::loader_op::LoadResponse;
use crate::loader_op::LoaderOp;

verus! {

/// What the worker did with one drained operation: nothing to report (a
/// cache mutation), an immediate reply (a fully cached load), or a deferral
/// to the end of the frame (a load with at least one miss).
#[derive(Debug, PartialEq, Eq)]
pub enum MuxOutcome {
    NoReply,
    Reply(LoadResponse),
    Deferred,
}

/// The values `(shape, values)` a reply must carry for `req` when it is
/// answered from the cache contents `m`: one optional value per requested
/// key, position by position.
pub open spec fn expected_resp(m: Map<i64, String>, req: LoadRequest) -> (bool, Seq<
    Option<String>,
>) {
    (req.is_many(), lookups(m, req.key_seq()))
}

/// The shapes and values of a sequence of replies.
pub open spec fn resp_views(rs: Seq<LoadResponse>) -> Seq<(bool, Seq<Option<String>>)> {
    Seq::new(rs.len(), |i: int| rs[i].view_parts())
}

/// The cache contents after draining `ops` against the contents `m`, with
/// every prime and clear applied in order.
pub open spec fn drain_cache(m: Map<i64, String>, ops: Seq<LoaderOp>) -> Map<i64, String>
    decreases ops.len(),
{
    if ops.len() == 0 {
        m
    } else {
        op_effect(drain_cache(m, ops.drop_last()), ops.last())
    }
}

/// The load requests of the frame that could not be answered from the cache
/// at the moment they were drained, in drain order.
pub open spec fn frame_pending(m: Map<i64, String>, ops: Seq<LoaderOp>) -> Seq<LoadRequest>
    decreases ops.len(),
{
    if ops.len() == 0 {
        Seq::empty()
    } else {
        let p = frame_pending(m, ops.drop_last());
        match ops.last() {
            LoaderOp::Load(req) => if all_hit(drain_cache(m, ops.drop_last()), req.key_seq()) {
                p
            } else {
                p.push(req)
            },
            _ => p,
        }
    }
}

/// The keys staged for the batch function: the concatenation of every
/// deferred request's misses, in drain order, duplicates and all.
pub open spec fn frame_staged(m: Map<i64, String>, ops: Seq<LoaderOp>) -> Seq<i64>
    decreases ops.len(),
{
    if ops.len() == 0 {
        Seq::empty()
    } else {
        let s = frame_staged(m, ops.drop_last());
        match ops.last() {
            LoaderOp::Load(req) => s + misses(drain_cache(m, ops.drop_last()), req.key_seq()),
            _ => s,
        }
    }
}

/// The replies sent during the drain itself, one per fully cached load
/// request, each read from the cache contents at its own drain instant.
pub open spec fn frame_fast(m: Map<i64, String>, ops: Seq<LoaderOp>) -> Seq<(bool, Seq<
    Option<String>,
>)>
    decreases ops.len(),
{
    if ops.len() == 0 {
        Seq::empty()
    } else {
        let f = frame_fast(m, ops.drop_last());
        match ops.last() {
            LoaderOp::Load(req) => if all_hit(drain_cache(m, ops.drop_last()), req.key_seq()) {
                f.push(expected_resp(drain_cache(m, ops.drop_last()), req))
            } else {
                f
            },
            _ => f,
        }
    }
}

/// The union of the per-request miss sets of the frame, deduplicated.
pub open spec fn frame_miss_union(m: Map<i64, String>, ops: Seq<LoaderOp>) -> Set<i64>
    decreases ops.len(),
{
    if ops.len() == 0 {
        Set::empty()
    } else {
        let u = frame_miss_union(m, ops.drop_last());
        match ops.last() {
            LoaderOp::Load(req) => u + misses(
                drain_cache(m, ops.drop_last()),
                req.key_seq(),
            ).to_set(),
            _ => u,
        }
    }
}

/// How many load operations `ops` holds.
pub open spec fn count_loads(ops: Seq<LoaderOp>) -> int
    decreases ops.len(),
{
    if ops.len() == 0 {
        0int
    } else {
        count_loads(ops.drop_last()) + match ops.last() {
            LoaderOp::Load(_) => 1int,
            _ => 0int,
        }
    }
}

/// `s` is sorted in strictly increasing order (so it also has no duplicates).
pub open spec fn strictly_sorted(s: Seq<i64>) -> bool {
    forall|i: int, j: int| 0 <= i < j < s.len() ==> s[i] < s[j]
}

/// The state a loader worker carries across the operations of one execution
/// frame: the cache, the keys staged for the next batch call, and the load
/// requests deferred to the end of the frame.
pub struct LoaderWorker<C: Cache> {
    cache: C,
    keys_to_load: Vec<i64>,
    pending_request: Vec<LoadRequest>,
}

impl<C: Cache> LoaderWorker<C> {
    /// The abstract cache contents.
    pub closed spec fn cache_view(&self) -> Map<i64, String> {
        self.cache.contents()
    }

    /// The keys staged for the current frame's batch call, in arrival order.
    pub closed spec fn staged(&self) -> Seq<i64> {
        self.keys_to_load@
    }

    /// The load requests deferred to the current frame's end, in drain order.
    pub closed spec fn pending(&self) -> Seq<LoadRequest> {
        self.pending_request@
    }

    /// A fresh worker around `cache`, outside any frame: nothing staged,
    /// nothing pending.
    pub fn new(cache: C) -> (w: LoaderWorker<C>)
        ensures
            w.cache_view() == cache.contents(),
            w.staged().len() == 0,
            w.pending().len() == 0,
    {
        LoaderWorker { cache, keys_to_load: Vec::new(), pending_request: Vec::new() }
    }

    /// Whether any load request of the current frame still awaits the batch
    /// function.
    pub fn has_pending(&self) -> (b: bool)
        ensures
            b == (self.pending().len() > 0),
    {
        self.pending_request.len() > 0
    }

    /// Processes one drained operation. Primes and clears mutate the cache
    /// immediately; a load whose keys all hit the cache is answered on the
    /// spot from the cache as it stands now, and a load with at least one
    /// miss is deferred, its missing keys staged for the batch call.
    pub fn mux_op(&mut self, op: LoaderOp) -> (out: MuxOutcome)
        ensures
            match op {
                LoaderOp::Load(_) => final(self).cache_view() == old(self).cache_view(),
                LoaderOp::Prime(k, v) => final(self).cache_view() == old(self).cache_view().insert(
                    k,
                    v,
                ),
                LoaderOp::PrimeMany(kvs) => final(self).cache_view() == insert_pairs(
                    old(self).cache_view(),
                    kvs@,
                ),
                LoaderOp::Clear(k) => final(self).cache_view() == old(self).cache_view().remove(k),
                LoaderOp::ClearMany(ks) => final(self).cache_view() == crate::cache::remove_all(
                    old(self).cache_view(),
                    ks@,
                ),
            },
            match op {
                LoaderOp::Load(req) => if all_hit(old(self).cache_view(), req.key_seq()) {
                    &&& out matches MuxOutcome::Reply(r) && r.view_parts() == expected_resp(
                        old(self).cache_view(),
                        req,
                    )
                    &&& final(self).staged() == old(self).staged()
                    &&& final(self).pending() == old(self).pending()
                } else {
                    &&& out == MuxOutcome::Deferred
                    &&& final(self).staged() == old(self).staged() + misses(
                        old(self).cache_view(),
                        req.key_seq(),
                    )
                    &&& final(self).pending() == old(self).pending().push(req)
                },
                _ => {
                    &&& out == MuxOutcome::NoReply
                    &&& final(self).staged() == old(self).staged()
                    &&& final(self).pending() == old(self).pending()
                },
            },
    {
        match op {
            LoaderOp::Load(req) => {
                let ghost m0 = self.cache.contents();
                let keys = req.keys();
                let mut looked = self.cache.get_key_vals(&keys);
                let ghost looked_full = looked@;
                let mut vals: Vec<Option<String>> = Vec::new();
                let mut miss: Vec<i64> = Vec::new();
                let ghost n: int = 0;
                while looked.len() > 0
                    invariant
                        0 <= n,
                        n + looked@.len() == keys@.len(),
                        looked@ == looked_full.skip(n),
                        looked_full.len() == keys@.len(),
                        forall|j: int|
                            0 <= j < keys@.len() ==> #[trigger] looked_full[j] == (
                                keys@[j],
                                opt_value(m0, keys@[j]),
                            ),
                        vals@ == lookups(m0, keys@.take(n)),
                        miss@ == misses(m0, keys@.take(n)),
                    decreases looked@.len(),
                {
                    let kv = looked.remove(0);
                    proof {
                        assert(kv == looked_full[n]);
                    }
                    if kv.1.is_none() {
                        miss.push(kv.0);
                    }
                    vals.push(kv.1);
                    proof {
                        assert(keys@.take(n + 1).drop_last() =~= keys@.take(n));
                        assert(keys@.take(n + 1).last() == keys@[n]);
                        assert(vals@ =~= lookups(m0, keys@.take(n + 1)));
                        n = n + 1;
                    }
                }
                proof {
                    assert(keys@.take(n) =~= keys@);
                }
                if miss.len() == 0 {
                    proof {
                        crate::cache::lemma_misses_empty_iff_all_hit(m0, keys@);
                    }
                    let resp = match req {
                        LoadRequest::One(_) => {
                            let v = vals.remove(0);
                            LoadResponse::One(v)
                        },
                        LoadRequest::Many(_) => LoadResponse::Many(vals),
                    };
                    proof {
                        assert(resp.view_parts().1 =~= lookups(m0, keys@));
                    }
                    MuxOutcome::Reply(resp)
                } else {
                    proof {
                        crate::cache::lemma_misses_empty_iff_all_hit(m0, keys@);
                    }
                    self.keys_to_load.append(&mut miss);
                    self.pending_request.push(req);
                    MuxOutcome::Deferred
                }
            },
            LoaderOp::Prime(k, v) => {
                self.cache.insert(k, v);
                MuxOutcome::NoReply
            },
            LoaderOp::PrimeMany(kvs) => {
                self.cache.insert_many(kvs);
                MuxOutcome::NoReply
            },
            LoaderOp::Clear(k) => {
                let mut one: Vec<i64> = Vec::new();
                one.push(k);
                self.cache.remove(&one);
                proof {
                    assert(one@.drop_last() =~= Seq::<i64>::empty());
                    assert(one@.last() == k);
                    assert(crate::cache::remove_all(old(self).cache_view(), Seq::<i64>::empty())
                        == old(self).cache_view());
                    assert(crate::cache::remove_all(old(self).cache_view(), one@)
                        == old(self).cache_view().remove(k));
                }
                MuxOutcome::NoReply
            },
            LoaderOp::ClearMany(ks) => {
                self.cache.remove(&ks);
                MuxOutcome::NoReply
            },
        }
    }
}

/// The replies owed to the deferred requests `pend`, all read from the
/// cache contents `m` after the batch results were inserted.
pub open spec fn pending_replies(m: Map<i64, String>, pend: Seq<LoadRequest>) -> Seq<(bool, Seq<
    Option<String>,
>)> {
    Seq::new(pend.len(), |j: int| expected_resp(m, pend[j]))
}

impl<C: Cache> LoaderWorker<C> {
    /// Sorts and deduplicates the staged keys, hands them out for the batch
    /// call, and empties the accumulator: the result is the frame's unique
    /// key set in strictly increasing order.
    pub fn prepare_batch(&mut self) -> (keys: Vec<i64>)
        ensures
            final(self).cache_view() == old(self).cache_view(),
            final(self).pending() == old(self).pending(),
            final(self).staged().len() == 0,
            strictly_sorted(keys@),
            keys@.to_set() == old(self).staged().to_set(),
    {
        let mut uniq: Vec<i64> = Vec::new();
        let mut i: usize = 0;
        while i < self.keys_to_load.len()
            invariant
                i <= self.keys_to_load@.len(),
                strictly_sorted(uniq@),
                uniq@.to_set() == self.keys_to_load@.take(i as int).to_set(),
            decreases self.keys_to_load@.len() - i,
        {
            let ghost before = self.keys_to_load@.take(i as int);
            insert_unique_sorted(&mut uniq, self.keys_to_load[i]);
            proof {
                let after = self.keys_to_load@.take(i + 1);
                assert(after.drop_last() =~= before);
                assert(after.last() == self.keys_to_load@[i as int]);
                assert forall|x: i64| after.to_set().contains(x) implies before.to_set().insert(
                    self.keys_to_load@[i as int],
                ).contains(x) by {
                    let idx = choose|idx: int| 0 <= idx < after.len() && after[idx] == x;
                    if idx < i {
                        assert(before[idx] == x);
                    }
                }
                assert forall|x: i64|
                    before.to_set().insert(self.keys_to_load@[i as int]).contains(x)
                    implies after.to_set().contains(x) by {
                    if x == self.keys_to_load@[i as int] {
                        assert(after[i as int] == x);
                    } else {
                        let idx = choose|idx: int| 0 <= idx < before.len() && before[idx] == x;
                        assert(after[idx] == x);
                    }
                }
                assert(after.to_set() =~= before.to_set().insert(
                    self.keys_to_load@[i as int],
                ));
            }
            i = i + 1;
        }
        proof {
            assert(self.keys_to_load@.take(i as int) =~= self.keys_to_load@);
        }
        self.keys_to_load.clear();
        uniq
    }

    /// Finishes a frame: inserts the batch results into the cache, then
    /// answers every deferred request from the updated cache, in drain
    /// order, and empties the pending list.
    pub fn complete_load(&mut self, results: Vec<(i64, String)>) -> (replies: Vec<LoadResponse>)
        ensures
            final(self).cache_view() == insert_pairs(old(self).cache_view(), results@),
            final(self).staged() == old(self).staged(),
            final(self).pending().len() == 0,
            resp_views(replies@) == pending_replies(
                insert_pairs(old(self).cache_view(), results@),
                old(self).pending(),
            ),
    {
        self.cache.insert_many(results);
        let ghost mf = self.cache.contents();
        let ghost pend0 = self.pending_request@;
        let mut replies: Vec<LoadResponse> = Vec::new();
        let ghost n: int = 0;
        while self.pending_request.len() > 0
            invariant
                self.cache.contents() == mf,
                self.keys_to_load@ == old(self).staged(),
                0 <= n,
                n + self.pending_request@.len() == pend0.len(),
                self.pending_request@ == pend0.skip(n),
                replies@.len() == n,
                forall|j: int|
                    0 <= j < n ==> (#[trigger] replies@[j]).view_parts() == expected_resp(
                        mf,
                        pend0[j],
                    ),
            decreases self.pending_request@.len(),
        {
            let req = self.pending_request.remove(0);
            proof {
                assert(req == pend0[n]);
            }
            let keys = req.keys();
            let mut vals = self.cache.get(&keys);
            let resp = match req {
                LoadRequest::One(_) => {
                    let v = vals.remove(0);
                    LoadResponse::One(v)
                },
                LoadRequest::Many(_) => LoadResponse::Many(vals),
            };
            proof {
                assert(resp.view_parts().1 =~= lookups(mf, keys@));
            }
            replies.push(resp);
            proof {
                n = n + 1;
            }
        }
        proof {
            assert(resp_views(replies@) =~= pending_replies(mf, pend0));
        }
        replies
    }

    /// Runs the execute phase of a frame with a synchronous batch function:
    /// sorts and deduplicates the staged keys, invokes the batch function
    /// once, inserts whatever it returned into the cache, and answers every
    /// deferred request from the updated cache, in drain order.
    pub fn execute_load<F: BatchFunction>(&mut self, context: &F::Context) -> (replies: Vec<
        LoadResponse,
    >)
        ensures
            final(self).staged().len() == 0,
            final(self).pending().len() == 0,
            exists|results: Seq<(i64, String)>|
                final(self).cache_view() == insert_pairs(old(self).cache_view(), results),
            resp_views(replies@) == pending_replies(final(self).cache_view(), old(self).pending()),
    {
        let keys = self.prepare_batch();
        let results = F::load(&keys, context);
        let replies = self.complete_load(results);
        proof {
            assert(final(self).cache_view() == insert_pairs(old(self).cache_view(), results@));
        }
        replies
    }
}

/// The concatenation of two sequences holds exactly the members of both.
pub proof fn lemma_to_set_concat(a: Seq<i64>, b: Seq<i64>)
    ensures
        (a + b).to_set() == a.to_set() + b.to_set(),
{
    assert forall|x: i64| (a + b).to_set().contains(x) implies (a.to_set() + b.to_set()).contains(
        x,
    ) by {
        let i = choose|i: int| 0 <= i < (a + b).len() && (a + b)[i] == x;
        if i < a.len() {
            assert(a[i] == x);
        } else {
            assert(b[i - a.len()] == x);
        }
    }
    assert forall|x: i64| (a.to_set() + b.to_set()).contains(x) implies (a + b).to_set().contains(
        x,
    ) by {
        if a.to_set().contains(x) {
            let i = choose|i: int| 0 <= i < a.len() && a[i] == x;
            assert((a + b)[i] == x);
        } else {
            let i = choose|i: int| 0 <= i < b.len() && b[i] == x;
            assert((a + b)[a.len() + i] == x);
        }
    }
    assert((a + b).to_set() =~= a.to_set() + b.to_set());
}

/// The staged keys of a frame are, as a set, exactly the union of the
/// per-request miss sets of that frame.
pub proof fn lemma_staged_set(m: Map<i64, String>, ops: Seq<LoaderOp>)
    ensures
        frame_staged(m, ops).to_set() == frame_miss_union(m, ops),
    decreases ops.len(),
{
    if ops.len() == 0 {
        assert(frame_staged(m, ops).to_set() =~= frame_miss_union(m, ops));
    } else {
        lemma_staged_set(m, ops.drop_last());
        match ops.last() {
            LoaderOp::Load(req) => {
                lemma_to_set_concat(
                    frame_staged(m, ops.drop_last()),
                    misses(drain_cache(m, ops.drop_last()), req.key_seq()),
                );
            },
            _ => {},
        }
    }
}

/// A frame with no deferred request also stages no key: every load hit, so
/// every per-request miss list is empty.
pub proof fn lemma_no_pending_no_staged(m: Map<i64, String>, ops: Seq<LoaderOp>)
    requires
        frame_pending(m, ops).len() == 0,
    ensures
        frame_staged(m, ops).len() == 0,
    decreases ops.len(),
{
    if ops.len() > 0 {
        lemma_no_pending_no_staged(m, ops.drop_last());
        match ops.last() {
            LoaderOp::Load(req) => {
                crate::cache::lemma_misses_empty_iff_all_hit(
                    drain_cache(m, ops.drop_last()),
                    req.key_seq(),
                );
            },
            _ => {},
        }
    }
}

/// What one execution frame produced: the immediate replies of the fully
/// cached loads (in drain order), the deferred replies of the rest (in drain
/// order), and the sorted unique key set handed to the batch function, if it
/// was invoked at all.
pub struct FrameResult {
    pub immediate: Vec<LoadResponse>,
    pub deferred: Vec<LoadResponse>,
    pub batch_keys: Option<Vec<i64>>,
}

impl<C: Cache> LoaderWorker<C> {
    /// Runs one complete execution frame over the drained operations `ops`:
    /// mutations apply in order, fully cached loads are answered from the
    /// cache as it stood at their drain instant, and the batch function is
    /// invoked at most once - exactly when some drained load had a miss -
    /// with the union of the per-request miss sets, sorted and deduplicated.
    /// Every load request receives exactly one reply, position-matched to
    /// its keys.
    pub fn run_frame<F: BatchFunction>(&mut self, ops: Vec<LoaderOp>, context: &F::Context) -> (fr:
        FrameResult)
        requires
            old(self).staged().len() == 0,
            old(self).pending().len() == 0,
        ensures
            final(self).staged().len() == 0,
            final(self).pending().len() == 0,
            resp_views(fr.immediate@) == frame_fast(old(self).cache_view(), ops@),
            resp_views(fr.deferred@) == pending_replies(
                final(self).cache_view(),
                frame_pending(old(self).cache_view(), ops@),
            ),
            fr.batch_keys is Some <==> frame_pending(old(self).cache_view(), ops@).len() > 0,
            match fr.batch_keys {
                Some(bk) => strictly_sorted(bk@) && bk@.to_set() == frame_miss_union(
                    old(self).cache_view(),
                    ops@,
                ) && exists|results: Seq<(i64, String)>|
                    final(self).cache_view() == insert_pairs(
                        drain_cache(old(self).cache_view(), ops@),
                        results,
                    ),
                None => final(self).cache_view() == drain_cache(old(self).cache_view(), ops@),
            },
    {
        let ghost m0 = self.cache.contents();
        let ghost full = ops@;
        let mut ops = ops;
        let mut immediate: Vec<LoadResponse> = Vec::new();
        let ghost n: int = 0;
        while ops.len() > 0
            invariant
                0 <= n,
                n + ops@.len() == full.len(),
                ops@ == full.skip(n),
                self.cache_view() == drain_cache(m0, full.take(n)),
                self.staged() == frame_staged(m0, full.take(n)),
                self.pending() == frame_pending(m0, full.take(n)),
                resp_views(immediate@) == frame_fast(m0, full.take(n)),
            decreases ops@.len(),
        {
            let op = ops.remove(0);
            proof {
                assert(op == full[n]);
                assert(full.take(n + 1).drop_last() =~= full.take(n));
                assert(full.take(n + 1).last() == full[n]);
            }
            match self.mux_op(op) {
                MuxOutcome::Reply(r) => {
                    immediate.push(r);
                },
                MuxOutcome::Deferred => {},
                MuxOutcome::NoReply => {},
            }
            proof {
                match full[n] {
                    LoaderOp::Load(req) => {
                        if all_hit(drain_cache(m0, full.take(n)), req.key_seq()) {
                            crate::cache::lemma_misses_empty_iff_all_hit(
                                drain_cache(m0, full.take(n)),
                                req.key_seq(),
                            );
                            assert(frame_staged(m0, full.take(n + 1)) =~= frame_staged(
                                m0,
                                full.take(n),
                            ));
                        }
                    },
                    _ => {},
                }
                assert(resp_views(immediate@) =~= frame_fast(m0, full.take(n + 1)));
                n = n + 1;
            }
        }
        proof {
            assert(full.take(n) =~= full);
        }
        if self.has_pending() {
            let bk = self.prepare_batch();
            let results = F::load(&bk, context);
            let deferred = self.complete_load(results);
            proof {
                lemma_staged_set(m0, full);
                assert(final(self).cache_view() == insert_pairs(drain_cache(m0, full), results@));
            }
            FrameResult { immediate, deferred, batch_keys: Some(bk) }
        } else {
            proof {
                lemma_no_pending_no_staged(m0, full);
            }
            FrameResult { immediate, deferred: Vec::new(), batch_keys: None }
        }
    }
}

/// Inserts `k` into the strictly sorted vector `v`, keeping it strictly
/// sorted; a key already present is left alone.
fn insert_unique_sorted(v: &mut Vec<i64>, k: i64)
    requires
        strictly_sorted(old(v)@),
    ensures
        strictly_sorted(final(v)@),
        final(v)@.to_set() == old(v)@.to_set().insert(k),
{
    let mut i: usize = 0;
    while i < v.len() && v[i] < k
        invariant
            i <= v@.len(),
            forall|j: int| 0 <= j < i ==> v@[j] < k,
            *v == *old(v),
        decreases v@.len() - i,
    {
        i = i + 1;
    }
    if i < v.len() && v[i] == k {
        proof {
            assert(v@.contains(k));
            assert(v@.to_set() =~= v@.to_set().insert(k));
        }
        return ;
    }
    let ghost before = v@;
    v.insert(i, k);
    proof {
        assert forall|a: int, b: int| 0 <= a < b < v@.len() implies v@[a] < v@[b] by {
            if b < i {
                assert(v@[a] == before[a] && v@[b] == before[b]);
            } else if a < i && b == i {
                assert(v@[a] == before[a]);
            } else if a < i && b > i {
                assert(v@[a] == before[a] && v@[b] == before[b - 1]);
                if b - 1 > a {
                    assert(before[a] < before[b - 1]);
                } else {
                    assert(before[a] < k);
                    assert(i < before.len() ==> k < before[i as int]);
                }
            } else if a == i {
                assert(v@[b] == before[b - 1] && b - 1 >= i);
                assert(i < before.len() ==> k < before[i as int]);
                assert(before[i as int] <= before[b - 1]);
            } else {
                assert(v@[a] == before[a - 1] && v@[b] == before[b - 1]);
            }
        }
        assert forall|x: i64| v@.to_set().contains(x) implies before.to_set().insert(k).contains(
            x,
        ) by {
            let idx = choose|idx: int| 0 <= idx < v@.len() && v@[idx] == x;
            if idx < i {
                assert(before[idx] == x);
            } else if idx > i {
                assert(before[idx - 1] == x);
            }
        }
        assert forall|x: i64| before.to_set().insert(k).contains(x) implies v@.to_set().contains(
            x,
        ) by {
            if x == k {
                assert(v@[i as int] == k);
            } else {
                let idx = choose|idx: int| 0 <= idx < before.len() && before[idx] == x;
                if idx < i {
                    assert(v@[idx] == x);
                } else {
                    assert(v@[idx + 1] == x);
                }
            }
        }
        assert(v@.to_set() =~= before.to_set().insert(k));
    }
}

} // verus!
