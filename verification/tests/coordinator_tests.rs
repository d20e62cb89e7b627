use record_codec::coordinator::{
    SingleWorkerPersistentStorage, WorkersPersistenceCoordinator,
};

#[test]
fn commit_coordinator_two_workers() {
    let mut coordinator = WorkersPersistenceCoordinator::new();
    // Register out of order: the list is kept sorted by worker id.
    coordinator.register_worker(SingleWorkerPersistentStorage::new(1));
    coordinator.register_worker(SingleWorkerPersistentStorage::new(0));
    assert_eq!(coordinator.workers[0].worker_id(), 0);
    assert_eq!(coordinator.workers[1].worker_id(), 1);
    assert_eq!(coordinator.global_closed_timestamp(), None);

    // W0 reports sink 0 at time 10: W1 contributes nothing yet, so the
    // watermark advances to 10 and a sweep runs.
    let sweep = coordinator.accept_finalized_timestamp(0, 0, Some(10));
    let sweep = sweep.expect("first advance");
    assert_eq!(sweep.timestamp, Some(10));
    coordinator.commit_prepared(&sweep, &vec![true, true]);
    assert_eq!(coordinator.workers[0].committed, Some(Some(10)));
    assert_eq!(coordinator.workers[1].committed, Some(Some(10)));

    // W0 reports sink 1 at 15 (finalized 10) and W1 reports sink 0 at 12:
    // the watermark stays 10, so no sweep runs.
    assert!(coordinator.accept_finalized_timestamp(0, 1, Some(15)).is_none());
    assert!(coordinator.accept_finalized_timestamp(1, 0, Some(12)).is_none());
    assert_eq!(coordinator.global_closed_timestamp(), Some(10));

    // W0 reports sink 0 at 20: its finalized time becomes 15, the
    // watermark advances to 12, and W1's prepare fails once.
    let sweep = coordinator.accept_finalized_timestamp(0, 0, Some(20)).expect("advance to 12");
    assert_eq!(sweep.timestamp, Some(12));
    coordinator.commit_prepared(&sweep, &vec![true, false]);
    assert_eq!(coordinator.workers[0].committed, Some(Some(12)));
    assert_eq!(coordinator.workers[1].committed, Some(Some(10)));

    // The next advance retries W1.
    let sweep = coordinator.accept_finalized_timestamp(1, 0, Some(13)).expect("advance to 13");
    assert_eq!(sweep.timestamp, Some(13));
    coordinator.commit_prepared(&sweep, &vec![true, true]);
    assert_eq!(coordinator.workers[0].committed, Some(Some(13)));
    assert_eq!(coordinator.workers[1].committed, Some(Some(13)));
}

#[test]
fn watermark_is_min_over_workers() {
    let mut coordinator = WorkersPersistenceCoordinator::new();
    coordinator.register_worker(SingleWorkerPersistentStorage::new(0));
    coordinator.register_worker(SingleWorkerPersistentStorage::new(1));
    coordinator.accept_finalized_timestamp(0, 0, Some(30));
    coordinator.accept_finalized_timestamp(1, 0, Some(21));
    assert_eq!(coordinator.global_closed_timestamp(), Some(21));
    // Equal finalized times give exactly that watermark.
    coordinator.accept_finalized_timestamp(1, 0, Some(30));
    assert_eq!(coordinator.global_closed_timestamp(), Some(30));
}

#[test]
fn initial_zero_watermark_is_a_no_op() {
    let mut coordinator = WorkersPersistenceCoordinator::new();
    coordinator.register_worker(SingleWorkerPersistentStorage::new(0));
    // A first report of time zero matches the initial flushed timestamp:
    // no spurious initial commit.
    assert!(coordinator.accept_finalized_timestamp(0, 0, Some(0)).is_none());
    assert_eq!(coordinator.workers[0].committed, None);
}

#[test]
fn worker_finalized_needs_every_sink() {
    let mut w = SingleWorkerPersistentStorage::new(0);
    assert_eq!(w.finalized_time_within_worker(), None);
    w.update_sink_finalized_time(1, Some(9));
    // Sink 0 exists but has not reported.
    assert_eq!(w.finalized_time_within_worker(), None);
    w.update_sink_finalized_time(0, Some(4));
    assert_eq!(w.finalized_time_within_worker(), Some(4));
}
