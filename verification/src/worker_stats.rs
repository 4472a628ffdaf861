//! Optional counters a worker host can keep about its load traffic. All
//! sums saturate at the counter's maximum instead of overflowing, and the
//! average batch size is kept as the exact pair of a sum and a count so the
//! reporting side can divide however it likes.

use vstd::prelude::*;

verus! {

/// `a + b`, stopping at `u64::MAX` instead of wrapping.
pub open spec fn spec_sat_add(a: u64, b: u64) -> u64 {
    if a + b > u64::MAX {
        u64::MAX
    } else {
        (a + b) as u64
    }
}

fn sat_add(a: u64, b: u64) -> (r: u64)
    ensures
        r == spec_sat_add(a, b),
{
    if a <= u64::MAX - b {
        a + b
    } else {
        u64::MAX
    }
}

/// Counters for one worker's lifetime, emitted by the host on shutdown.
pub struct WorkerStats {
    /// Human readable name used to identify these stats when they are reported.
    pub tag: &'static str,
    /// Number of load operations that were received by the worker.
    pub load_requests: u64,
    /// Total number of keys that were requested for loading (not necessarily unique).
    pub items_requested: u64,
    /// Number of keys that were immediately found in the loader cache.
    pub cache_hits: u64,
    /// Number of times the worker executed its batch function.
    pub loads: u64,
    /// Total number of keys (not unique) handed to batch executions; together
    /// with `loads` this determines the average batch size exactly.
    pub total_batch_size: u64,
    /// The most keys (not unique) fetched during a single load.
    pub max_batch_size: u64,
    /// The fewest keys (not unique) fetched during a single load.
    pub min_batch_size: u64,
    /// The most unique keys fetched during a single load.
    pub max_batch_unique: u64,
    /// The fewest unique keys fetched during a single load.
    pub min_batch_unique: u64,
    /// Total number of unique items that were actually loaded.
    pub items_loaded: u64,
}

impl WorkerStats {
    pub fn new(tag: &'static str) -> (s: WorkerStats)
        ensures
            s.tag == tag,
            s.load_requests == 0,
            s.items_requested == 0,
            s.cache_hits == 0,
            s.loads == 0,
            s.total_batch_size == 0,
            s.max_batch_size == 0,
            s.min_batch_size == u64::MAX,
            s.max_batch_unique == 0,
            s.min_batch_unique == u64::MAX,
            s.items_loaded == 0,
    {
        WorkerStats {
            tag,
            load_requests: 0,
            items_requested: 0,
            cache_hits: 0,
            loads: 0,
            total_batch_size: 0,
            max_batch_size: 0,
            min_batch_size: u64::MAX,
            max_batch_unique: 0,
            min_batch_unique: u64::MAX,
            items_loaded: 0,
        }
    }

    /// One load operation arrived, asking for `items_requested` keys.
    pub fn record_load_request(&mut self, items_requested: u64)
        ensures
            *final(self) == (WorkerStats {
                load_requests: spec_sat_add(old(self).load_requests, 1),
                items_requested: spec_sat_add(old(self).items_requested, items_requested),
                ..*old(self)
            }),
    {
        self.load_requests = sat_add(self.load_requests, 1);
        self.items_requested = sat_add(self.items_requested, items_requested);
    }

    /// `hits` keys were answered straight from the cache.
    pub fn record_cache_hits(&mut self, hits: u64)
        ensures
            *final(self) == (WorkerStats {
                cache_hits: spec_sat_add(old(self).cache_hits, hits),
                ..*old(self)
            }),
    {
        self.cache_hits = sat_add(self.cache_hits, hits);
    }

    /// A batch execution began with `batch_size` staged keys (not unique).
    pub fn record_load_exec(&mut self, batch_size: u64)
        ensures
            *final(self) == (WorkerStats {
                loads: spec_sat_add(old(self).loads, 1),
                total_batch_size: spec_sat_add(old(self).total_batch_size, batch_size),
                max_batch_size: if batch_size > old(self).max_batch_size {
                    batch_size
                } else {
                    old(self).max_batch_size
                },
                min_batch_size: if batch_size < old(self).min_batch_size {
                    batch_size
                } else {
                    old(self).min_batch_size
                },
                ..*old(self)
            }),
    {
        self.loads = sat_add(self.loads, 1);
        self.total_batch_size = sat_add(self.total_batch_size, batch_size);
        if batch_size > self.max_batch_size {
            self.max_batch_size = batch_size;
        }
        if batch_size < self.min_batch_size {
            self.min_batch_size = batch_size;
        }
    }

    /// A batch execution finished: it was handed `unique_batch_size` unique
    /// keys and returned `loaded_item_count` pairs.
    pub fn record_load_exec_completed(&mut self, unique_batch_size: u64, loaded_item_count: u64)
        ensures
            *final(self) == (WorkerStats {
                items_loaded: spec_sat_add(old(self).items_loaded, loaded_item_count),
                max_batch_unique: if unique_batch_size > old(self).max_batch_unique {
                    unique_batch_size
                } else {
                    old(self).max_batch_unique
                },
                min_batch_unique: if unique_batch_size < old(self).min_batch_unique {
                    unique_batch_size
                } else {
                    old(self).min_batch_unique
                },
                ..*old(self)
            }),
    {
        self.items_loaded = sat_add(self.items_loaded, loaded_item_count);
        if unique_batch_size > self.max_batch_unique {
            self.max_batch_unique = unique_batch_size;
        }
        if unique_batch_size < self.min_batch_unique {
            self.min_batch_unique = unique_batch_size;
        }
    }
}

} // verus!
