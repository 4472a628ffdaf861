//! A batch-coalescing loader with request-scoped caching.
//!
//! Many independent code paths each request one record by key; the loader
//! coalesces all requests that race in during a single execution frame into
//! one call of a user-supplied batch function, answering fully cached
//! requests immediately and fanning the batch results back to the rest.
//!
//! The coalescing engine itself is synchronous and fully verified: the
//! worker state machine in [`loader_worker`] drains a sequence of operations,
//! applies cache mutations in order, separates cache hits from misses, and
//! resolves every load request exactly once. An asynchronous front end only
//! needs to feed it operations and perform the one batch call per frame.

pub mod batch_function;
pub mod cache;
pub mod laws;
pub mod loader_op;
pub mod loader_worker;
pub mod worker_stats;

pub use batch_function::BatchFunction;
pub use cache::Cache;
pub use cache::HashCache;
pub use loader_op::LoadRequest;
pub use loader_op::LoadResponse;
pub use loader_op::LoaderOp;
pub use loader_worker::FrameResult;
pub use loader_worker::LoaderWorker;
pub use loader_worker::MuxOutcome;
pub use worker_stats::WorkerStats;
