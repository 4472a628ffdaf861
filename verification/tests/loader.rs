use std::collections::HashMap;

use dataload_rs::BatchFunction;
use dataload_rs::HashCache;
use dataload_rs::LoadRequest;
use dataload_rs::LoadResponse;
use dataload_rs::LoaderOp;
use dataload_rs::LoaderWorker;
use dataload_rs::MuxOutcome;

struct DummyDataLoader;

impl BatchFunction for DummyDataLoader {
    type Context = HashMap<i64, String>;

    fn load(keys: &Vec<i64>, context: &HashMap<i64, String>) -> Vec<(i64, String)> {
        keys.iter().filter_map(|k| context.get(k).cloned().map(|v| (*k, v))).collect::<Vec<_>>()
    }
}

fn new_worker() -> LoaderWorker<HashCache> {
    LoaderWorker::new(HashCache::new())
}

fn fish_context() -> HashMap<i64, String> {
    let mut context = HashMap::new();
    context.insert(42, "one fish".to_owned());
    context.insert(12, "two fish".to_owned());
    context.insert(5, "red fish".to_owned());
    context.insert(8, "blue fish".to_owned());
    context
}

#[test]
fn basic_load() {
    let mut context = HashMap::new();
    context.insert(42, "Foo".to_owned());

    let mut worker = new_worker();
    let frame = worker.run_frame::<DummyDataLoader>(
        vec![LoaderOp::Load(LoadRequest::One(42))],
        &context,
    );
    assert_eq!(frame.deferred, vec![LoadResponse::One(Some("Foo".to_owned()))]);
}

#[test]
fn repeated_load() {
    let mut context = HashMap::new();
    context.insert(42, "Foo".to_owned());

    let mut worker = new_worker();
    let first = worker.run_frame::<DummyDataLoader>(
        vec![LoaderOp::Load(LoadRequest::One(42))],
        &context,
    );
    assert_eq!(first.deferred, vec![LoadResponse::One(Some("Foo".to_owned()))]);
    let second = worker.run_frame::<DummyDataLoader>(
        vec![LoaderOp::Load(LoadRequest::One(42))],
        &context,
    );
    assert_eq!(second.immediate, vec![LoadResponse::One(Some("Foo".to_owned()))]);
    // The second load is a cache hit, so the batch function ran only once.
    assert_eq!(first.batch_keys, Some(vec![42]));
    assert_eq!(second.batch_keys, None);
}

#[test]
fn basic_load_many() {
    let context = fish_context();

    let mut worker = new_worker();
    let frame = worker.run_frame::<DummyDataLoader>(
        vec![LoaderOp::Load(LoadRequest::Many(vec![5, 12, 8]))],
        &context,
    );
    assert_eq!(
        frame.deferred,
        vec![LoadResponse::Many(vec![
            Some("red fish".to_owned()),
            Some("two fish".to_owned()),
            Some("blue fish".to_owned()),
        ])]
    );
    assert_eq!(frame.batch_keys, Some(vec![5, 8, 12]));
}

#[test]
fn load_async() {
    let context = fish_context();

    // Four requests racing into the queue in one scheduler turn coalesce
    // into a single frame and a single batch call over the sorted unique
    // union of their keys.
    let mut worker = new_worker();
    let frame = worker.run_frame::<DummyDataLoader>(
        vec![
            LoaderOp::Load(LoadRequest::One(5)),
            LoaderOp::Load(LoadRequest::Many(vec![5, 42])),
            LoaderOp::Load(LoadRequest::One(99)),
            LoaderOp::Load(LoadRequest::One(12)),
        ],
        &context,
    );
    assert_eq!(frame.batch_keys, Some(vec![5, 12, 42, 99]));
    assert_eq!(frame.immediate, Vec::<LoadResponse>::new());
    assert_eq!(
        frame.deferred,
        vec![
            LoadResponse::One(Some("red fish".to_owned())),
            LoadResponse::Many(vec![
                Some("red fish".to_owned()),
                Some("one fish".to_owned()),
            ]),
            LoadResponse::One(None),
            LoadResponse::One(Some("two fish".to_owned())),
        ]
    );
}

#[test]
fn prime_bypasses_backend() {
    let context: HashMap<i64, String> = HashMap::new();

    let mut worker = new_worker();
    let frame = worker.run_frame::<DummyDataLoader>(
        vec![
            LoaderOp::Prime(1, "x".to_owned()),
            LoaderOp::Load(LoadRequest::One(1)),
        ],
        &context,
    );
    // The primed load is answered during the drain; the batch function never runs.
    assert_eq!(frame.immediate, vec![LoadResponse::One(Some("x".to_owned()))]);
    assert_eq!(frame.batch_keys, None);
    assert_eq!(frame.deferred, Vec::<LoadResponse>::new());
}

#[test]
fn clear_forces_reload() {
    let mut context = HashMap::new();
    context.insert(1, "a".to_owned());

    let mut worker = new_worker();
    let first = worker.run_frame::<DummyDataLoader>(
        vec![LoaderOp::Load(LoadRequest::One(1))],
        &context,
    );
    assert_eq!(first.deferred, vec![LoadResponse::One(Some("a".to_owned()))]);
    assert_eq!(first.batch_keys, Some(vec![1]));

    let second = worker.run_frame::<DummyDataLoader>(
        vec![
            LoaderOp::Clear(1),
            LoaderOp::Load(LoadRequest::One(1)),
        ],
        &context,
    );
    // The cleared key goes back to the batch function.
    assert_eq!(second.batch_keys, Some(vec![1]));
    assert_eq!(second.deferred, vec![LoadResponse::One(Some("a".to_owned()))]);
}

#[test]
fn duplicate_keys_read_equal_values() {
    let mut context = HashMap::new();
    context.insert(7, "seven".to_owned());

    let mut worker = new_worker();
    let frame = worker.run_frame::<DummyDataLoader>(
        vec![LoaderOp::Load(LoadRequest::Many(vec![7, 8, 7]))],
        &context,
    );
    assert_eq!(frame.batch_keys, Some(vec![7, 8]));
    match &frame.deferred[0] {
        LoadResponse::Many(vals) => {
            assert_eq!(vals.len(), 3);
            assert_eq!(vals[0], vals[2]);
            assert_eq!(vals[0], Some("seven".to_owned()));
            assert_eq!(vals[1], None);
        }
        other => panic!("expected a Many reply, got {:?}", other),
    }
}

#[test]
fn empty_load_many_is_answered_immediately() {
    let context: HashMap<i64, String> = HashMap::new();

    let mut worker = new_worker();
    let frame = worker.run_frame::<DummyDataLoader>(
        vec![LoaderOp::Load(LoadRequest::Many(vec![]))],
        &context,
    );
    assert_eq!(frame.immediate, vec![LoadResponse::Many(vec![])]);
    assert_eq!(frame.batch_keys, None);
}

#[test]
fn prime_many_and_clear_many() {
    let context: HashMap<i64, String> = HashMap::new();

    let mut worker = new_worker();
    let frame = worker.run_frame::<DummyDataLoader>(
        vec![
            LoaderOp::PrimeMany(vec![(1, "a".to_owned()), (2, "b".to_owned())]),
            LoaderOp::ClearMany(vec![2]),
            LoaderOp::Load(LoadRequest::Many(vec![1, 2])),
        ],
        &context,
    );
    // Key 1 stays primed; key 2 was cleared again and misses, so the whole
    // request is deferred and key 2 alone reaches the batch function.
    assert_eq!(frame.batch_keys, Some(vec![2]));
    assert_eq!(
        frame.deferred,
        vec![LoadResponse::Many(vec![Some("a".to_owned()), None])]
    );
}

#[test]
fn mux_op_outcomes() {
    let mut worker = new_worker();
    assert_eq!(worker.mux_op(LoaderOp::Prime(3, "z".to_owned())), MuxOutcome::NoReply);
    assert_eq!(
        worker.mux_op(LoaderOp::Load(LoadRequest::One(3))),
        MuxOutcome::Reply(LoadResponse::One(Some("z".to_owned())))
    );
    assert_eq!(worker.mux_op(LoaderOp::Load(LoadRequest::One(4))), MuxOutcome::Deferred);
    assert!(worker.has_pending());
}

#[test]
fn load_request_keys() {
    assert_eq!(LoadRequest::One(9).keys(), vec![9]);
    assert_eq!(LoadRequest::Many(vec![3, 1, 3]).keys(), vec![3, 1, 3]);
}

#[test]
fn execute_load_resolves_pending() {
    let context = fish_context();
    let mut worker = new_worker();
    assert_eq!(worker.mux_op(LoaderOp::Load(LoadRequest::One(5))), MuxOutcome::Deferred);
    assert_eq!(
        worker.mux_op(LoaderOp::Load(LoadRequest::Many(vec![12, 99]))),
        MuxOutcome::Deferred
    );
    let replies = worker.execute_load::<DummyDataLoader>(&context);
    assert_eq!(
        replies,
        vec![
            LoadResponse::One(Some("red fish".to_owned())),
            LoadResponse::Many(vec![Some("two fish".to_owned()), None]),
        ]
    );
    assert!(!worker.has_pending());
}

#[test]
fn prepare_batch_sorts_and_dedups() {
    let mut worker = new_worker();
    worker.mux_op(LoaderOp::Load(LoadRequest::Many(vec![9, 3])));
    worker.mux_op(LoaderOp::Load(LoadRequest::Many(vec![3, 7])));
    let keys = worker.prepare_batch();
    assert_eq!(keys, vec![3, 7, 9]);
    let replies = worker.complete_load(vec![(3, "three".to_owned())]);
    assert_eq!(
        replies,
        vec![
            LoadResponse::Many(vec![None, Some("three".to_owned())]),
            LoadResponse::Many(vec![Some("three".to_owned()), None]),
        ]
    );
}
