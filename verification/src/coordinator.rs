//! The multi-worker commit coordinator: it owns the per-worker storage
//! state, recomputes the global watermark (the minimum over workers of each
//! worker's finalized time) on every report, and decides when a
//! prepare-then-commit sweep runs. The host performs the durable work of a
//! sweep and hands the per-worker prepare outcomes back.

use vstd::prelude::*;

verus! {

/// The model of a `SingleWorkerPersistentStorage`.
#[verifier::ext_equal]
pub struct WorkerStorageS {
    pub worker_id: int,
    pub sink_times: Seq<Option<u64>>,
    pub advertised: Option<Option<u64>>,
    pub committed: Option<Option<u64>>,
}

/// One worker's persistence state, as the coordinator sees it: the
/// finalized time each of its sinks reported, the last globally finalized
/// timestamp advertised to it, and the last one committed for it.
#[derive(Debug, PartialEq, Eq)]
pub struct SingleWorkerPersistentStorage {
    pub worker_id: usize,
    pub sink_times: Vec<Option<u64>>,
    pub advertised: Option<Option<u64>>,
    pub committed: Option<Option<u64>>,
}

impl View for SingleWorkerPersistentStorage {
    type V = WorkerStorageS;

    open spec fn view(&self) -> WorkerStorageS {
        WorkerStorageS {
            worker_id: self.worker_id as int,
            sink_times: self.sink_times@,
            advertised: self.advertised,
            committed: self.committed,
        }
    }
}

/// A worker's finalized time: the minimum over its sinks once every sink
/// has reported, and nothing before (a worker with no sinks, or a sink
/// without a report, holds nothing back but contributes nothing).
pub open spec fn worker_finalized(times: Seq<Option<u64>>) -> Option<u64>
    decreases times.len(),
{
    if times.len() == 0 {
        None
    } else {
        match (times.first(), worker_finalized(times.drop_first())) {
            (Some(t), Some(rest)) => if t <= rest {
                Some(t)
            } else {
                Some(rest)
            },
            (Some(t), None) => if times.len() == 1 {
                Some(t)
            } else {
                None
            },
            _ => None,
        }
    }
}

impl SingleWorkerPersistentStorage {
    /// A fresh worker state with no sinks.
    pub fn new(worker_id: usize) -> (r: SingleWorkerPersistentStorage)
        ensures
            r@ == (WorkerStorageS {
                worker_id: worker_id as int,
                sink_times: Seq::empty(),
                advertised: None::<Option<u64>>,
                committed: None::<Option<u64>>,
            }),
    {
        let r = SingleWorkerPersistentStorage {
            worker_id,
            sink_times: Vec::new(),
            advertised: None,
            committed: None,
        };
        proof {
            assert(r@ =~= (WorkerStorageS {
                worker_id: worker_id as int,
                sink_times: Seq::empty(),
                advertised: None::<Option<u64>>,
                committed: None::<Option<u64>>,
            }));
        }
        r
    }

    /// The worker's own identifier.
    pub fn worker_id(&self) -> (r: usize)
        ensures
            r as int == self@.worker_id,
    {
        self.worker_id
    }

    /// Records the finalized time one sink reported, growing the sink table
    /// as needed.
    pub fn update_sink_finalized_time(&mut self, sink_id: usize, reported_timestamp: Option<u64>)
        requires
            sink_id < usize::MAX,
        ensures
            final(self)@.worker_id == old(self)@.worker_id,
            final(self)@.advertised == old(self)@.advertised,
            final(self)@.committed == old(self)@.committed,
            final(self)@.sink_times.len() == if sink_id + 1 > old(self)@.sink_times.len() {
                sink_id + 1
            } else {
                old(self)@.sink_times.len() as int
            },
            forall|j: int| 0 <= j < final(self)@.sink_times.len() && j != sink_id
                ==> final(self)@.sink_times[j] == (if j < old(self)@.sink_times.len() {
                old(self)@.sink_times[j]
            } else {
                None::<u64>
            }),
            final(self)@.sink_times[sink_id as int] == reported_timestamp,
    {
        let start = self.sink_times.len();
        let mut t = start;
        if start <= sink_id {
        while t <= sink_id
            invariant
                sink_id < usize::MAX,
                self@.worker_id == old(self)@.worker_id,
                self@.advertised == old(self)@.advertised,
                self@.committed == old(self)@.committed,
                t == self@.sink_times.len(),
                start == old(self)@.sink_times.len(),
                start <= t,
                t <= sink_id + 1,
                forall|j: int| 0 <= j < self@.sink_times.len()
                    ==> self@.sink_times[j] == (if j < old(self)@.sink_times.len() {
                    old(self)@.sink_times[j]
                } else {
                    None::<u64>
                }),
            decreases sink_id + 1 - t,
        {
            self.sink_times.push(None);
            t += 1;
        }
        }
        self.sink_times.set(sink_id, reported_timestamp);
    }

    /// The worker's finalized time, per `worker_finalized`.
    pub fn finalized_time_within_worker(&self) -> (r: Option<u64>)
        ensures
            r == worker_finalized(self@.sink_times),
    {
        if self.sink_times.len() == 0 {
            return None;
        }
        let n = self.sink_times.len();
        // Walk the sinks from the back, so the recursive minimum unfolds as
        // the loop advances.
        let mut k: usize = n;
        let mut acc: Option<u64> = None;
        while k > 0
            invariant
                n == self@.sink_times.len(),
                n > 0,
                k <= n,
                acc == worker_finalized(self@.sink_times.skip(k as int)),
            decreases k,
        {
            let t = self.sink_times[k - 1];
            proof {
                let suf = self@.sink_times.skip(k - 1);
                assert(suf.first() == self@.sink_times[k - 1]);
                assert(suf.drop_first() =~= self@.sink_times.skip(k as int));
                assert(suf.len() == n - (k - 1));
            }
            acc = match (t, acc) {
                (Some(tv), Some(rest)) => if tv <= rest {
                    Some(tv)
                } else {
                    Some(rest)
                },
                (Some(tv), None) => if k == n {
                    Some(tv)
                } else {
                    None
                },
                _ => None,
            };
            k -= 1;
        }
        proof {
            assert(self@.sink_times.skip(0) =~= self@.sink_times);
        }
        acc
    }

    /// Accepts a globally finalized timestamp before a sweep; the durable
    /// prepare work is the host's.
    pub fn accept_globally_finalized_timestamp(&mut self, timestamp: Option<u64>) -> (r: CommitData)
        ensures
            final(self)@ == (WorkerStorageS { advertised: Some(timestamp), ..old(self)@ }),
            r.timestamp == timestamp,
    {
        self.advertised = Some(timestamp);
        CommitData { timestamp }
    }

    /// Records a committed globally finalized timestamp after a successful
    /// prepare; the durable commit work is the host's.
    pub fn commit_globally_finalized_timestamp(&mut self, data: CommitData)
        ensures
            final(self)@ == (WorkerStorageS { committed: Some(data.timestamp), ..old(self)@ }),
    {
        self.committed = Some(data.timestamp);
    }
}

/// What one worker must make durable before its commit may run. The host
/// wraps this in its own prepare work and reports whether it succeeded.
#[derive(Clone, Copy, Debug, PartialEq, Eq, Structural)]
pub struct CommitData {
    pub timestamp: Option<u64>,
}

/// The models of the coordinator's worker list.
pub open spec fn workers_view(ws: Seq<SingleWorkerPersistentStorage>) -> Seq<WorkerStorageS> {
    ws.map_values(|w: SingleWorkerPersistentStorage| w@)
}

/// The global watermark: the minimum over workers of each worker's
/// finalized time; a worker without one contributes nothing, and with no
/// contributions there is no watermark.
pub open spec fn watermark_spec(ws: Seq<WorkerStorageS>) -> Option<u64>
    decreases ws.len(),
{
    if ws.len() == 0 {
        None
    } else {
        match (worker_finalized(ws.first().sink_times), watermark_spec(ws.drop_first())) {
            (Some(t), Some(rest)) => if t <= rest {
                Some(t)
            } else {
                Some(rest)
            },
            (Some(t), None) => Some(t),
            (None, rest) => rest,
        }
    }
}

/// Whether the worker list is sorted by worker identifier.
pub open spec fn workers_sorted(ws: Seq<WorkerStorageS>) -> bool {
    forall|i: int, j: int| 0 <= i < j < ws.len() ==> #[trigger] ws[i].worker_id
        <= #[trigger] ws[j].worker_id
}

/// The model of the coordinator.
#[verifier::ext_equal]
pub struct CoordinatorS {
    pub workers: Seq<WorkerStorageS>,
    pub last_timestamp_flushed: Option<Option<u64>>,
}

/// The process-wide commit coordinator.
#[derive(Debug, PartialEq, Eq)]
pub struct WorkersPersistenceCoordinator {
    pub workers: Vec<SingleWorkerPersistentStorage>,
    pub last_timestamp_flushed: Option<Option<u64>>,
}

impl View for WorkersPersistenceCoordinator {
    type V = CoordinatorS;

    open spec fn view(&self) -> CoordinatorS {
        CoordinatorS {
            workers: workers_view(self.workers@),
            last_timestamp_flushed: self.last_timestamp_flushed,
        }
    }
}

/// A watermark advance the host must drive: advertise, prepare each worker,
/// then commit the prepared ones through `commit_prepared`.
#[derive(Debug, PartialEq, Eq)]
pub struct FrontierCommit {
    pub timestamp: Option<u64>,
}

impl WorkersPersistenceCoordinator {
    /// A fresh coordinator. The last flushed timestamp starts at zero, not
    /// at "unknown": a first watermark of zero is a suppressed no-op, so no
    /// spurious initial commit runs.
    pub fn new() -> (r: WorkersPersistenceCoordinator)
        ensures
            r@.workers =~= Seq::<WorkerStorageS>::empty(),
            r@.last_timestamp_flushed == Some(Some(0u64)),
    {
        WorkersPersistenceCoordinator {
            workers: Vec::new(),
            last_timestamp_flushed: Some(Some(0)),
        }
    }

    /// Registers one worker's storage, keeping the list sorted by worker
    /// identifier (so worker K sits at position K once all have arrived):
    /// the new worker lands just after the last worker whose identifier
    /// does not exceed its own.
    pub fn register_worker(&mut self, persistence_manager: SingleWorkerPersistentStorage)
        requires
            workers_sorted(old(self)@.workers),
        ensures
            workers_sorted(final(self)@.workers),
            final(self)@.last_timestamp_flushed == old(self)@.last_timestamp_flushed,
            exists|pos: int|
                0 <= pos <= old(self)@.workers.len() && final(self)@.workers == old(
                    self,
                )@.workers.take(pos) + seq![persistence_manager@] + old(self)@.workers.skip(pos),
    {
        let ghost w = persistence_manager@;
        let ghost olds = old(self)@.workers;
        let n = self.workers.len();
        let w_id = persistence_manager.worker_id();
        let mut pos: usize = n;
        while pos > 0 && self.workers[pos - 1].worker_id() > w_id
            invariant
                *self == *old(self),
                n == self@.workers.len(),
                pos <= n,
                forall|j: int| pos <= j < n ==> #[trigger] self@.workers[j].worker_id
                    > w_id as int,
            decreases pos,
        {
            pos -= 1;
        }
        proof {
            assert(pos > 0 ==> self@.workers[pos - 1].worker_id <= w_id as int);
        }
        self.workers.insert(pos, persistence_manager);
        proof {
            let newv = workers_view(self.workers@);
            assert(newv =~= olds.take(pos as int) + seq![w] + olds.skip(pos as int)) by {
                assert(self.workers@ == old(self).workers@.insert(pos as int, persistence_manager));
                assert forall|j: int| 0 <= j < newv.len() implies newv[j] == (olds.take(pos as int)
                    + seq![w] + olds.skip(pos as int))[j] by {
                    assert(newv[j] == self.workers@[j]@);
                }
            }
            assert(workers_sorted(newv)) by {
                assert forall|i: int, j: int| 0 <= i < j < newv.len() implies
                    #[trigger] newv[i].worker_id <= #[trigger] newv[j].worker_id by {
                    assert(newv[i] == (if i < pos {
                        olds[i]
                    } else if i == pos {
                        w
                    } else {
                        olds[i - 1]
                    }));
                    assert(newv[j] == (if j < pos {
                        olds[j]
                    } else if j == pos {
                        w
                    } else {
                        olds[j - 1]
                    }));
                }
            }
        }
    }

    /// The global watermark over the current worker states, per
    /// `watermark_spec`.
    pub fn global_closed_timestamp(&self) -> (r: Option<u64>)
        ensures
            r == watermark_spec(self@.workers),
    {
        let n = self.workers.len();
        let mut k: usize = n;
        let mut acc: Option<u64> = None;
        while k > 0
            invariant
                n == self@.workers.len(),
                k <= n,
                acc == watermark_spec(self@.workers.skip(k as int)),
            decreases k,
        {
            proof {
                let suf = self@.workers.skip(k - 1);
                assert(suf.first() == self@.workers[k - 1]);
                assert(suf.drop_first() =~= self@.workers.skip(k as int));
                assert(self@.workers[k - 1] == self.workers@[k - 1]@);
            }
            let wt = self.workers[k - 1].finalized_time_within_worker();
            acc = match (wt, acc) {
                (Some(t), Some(rest)) => if t <= rest {
                    Some(t)
                } else {
                    Some(rest)
                },
                (Some(t), None) => Some(t),
                (None, rest) => rest,
            };
            k -= 1;
        }
        proof {
            assert(self@.workers.skip(0) =~= self@.workers);
            if n == 0 {
                assert(self@.workers.skip(0) =~= Seq::<WorkerStorageS>::empty());
            }
        }
        acc
    }

    /// Handles one report of a sink's finalized time: the named worker's
    /// sink table is updated, the watermark is recomputed and, when it
    /// differs from the last flushed one, it is recorded, advertised to
    /// every worker and handed back for the host to prepare and commit.
    #[verifier::loop_isolation(false)]
    pub fn accept_finalized_timestamp(
        &mut self,
        worker_id: usize,
        sink_id: usize,
        reported_timestamp: Option<u64>,
    ) -> (r: Option<FrontierCommit>)
        requires
            worker_id < old(self)@.workers.len(),
            sink_id < usize::MAX,
        ensures
            final(self)@.workers.len() == old(self)@.workers.len(),
            final(self)@.workers[worker_id as int].sink_times[sink_id as int]
                == reported_timestamp,
            forall|i: int| 0 <= i < old(self)@.workers.len() && i != worker_id
                ==> #[trigger] final(self)@.workers[i].sink_times == old(self)@.workers[i].sink_times,
            forall|i: int| 0 <= i < old(self)@.workers.len()
                ==> #[trigger] final(self)@.workers[i].worker_id
                == old(self)@.workers[i].worker_id && final(self)@.workers[i].committed
                == old(self)@.workers[i].committed,
            ({
                let advanced = watermark_spec(final(self)@.workers)
                    != old(self)@.last_timestamp_flushed->Some_0
                    || old(self)@.last_timestamp_flushed is None;
                if advanced {
                    &&& r == Some(
                        FrontierCommit { timestamp: watermark_spec(final(self)@.workers) },
                    )
                    &&& final(self)@.last_timestamp_flushed == Some(
                        watermark_spec(final(self)@.workers),
                    )
                    &&& forall|i: int| 0 <= i < old(self)@.workers.len()
                        ==> #[trigger] final(self)@.workers[i].advertised == Some(
                        watermark_spec(final(self)@.workers),
                    )
                } else {
                    &&& r is None
                    &&& final(self)@.last_timestamp_flushed == old(self)@.last_timestamp_flushed
                    &&& forall|i: int| 0 <= i < old(self)@.workers.len()
                        ==> #[trigger] final(self)@.workers[i].advertised
                        == old(self)@.workers[i].advertised
                }
            }),
    {
        let ghost pre = self@;
        let ghost prev = self.workers@;
        proof {
            assert(pre.workers == workers_view(prev));
        }
        let mut worker = self.workers.remove(worker_id);
        worker.update_sink_finalized_time(sink_id, reported_timestamp);
        self.workers.insert(worker_id, worker);
        proof {
            assert(self.workers@ =~= prev.update(worker_id as int, self.workers@[worker_id as int]));
            assert forall|i: int| 0 <= i < pre.workers.len() implies workers_view(self.workers@)[i]
                == (if i == worker_id {
                self.workers@[worker_id as int]@
            } else {
                pre.workers[i]
            }) by {
                assert(workers_view(self.workers@)[i] == self.workers@[i]@);
                if i != worker_id {
                    assert(self.workers@[i] == prev[i]);
                    assert(pre.workers[i] == prev[i]@);
                }
            }
        }
        let global_finalized_timestamp = self.global_closed_timestamp();
        let advance = match (&self.last_timestamp_flushed, &global_finalized_timestamp) {
            (Some(last), now) => {
                let differs = match (last, now) {
                    (Some(a), Some(b)) => *a != *b,
                    (None, None) => false,
                    _ => true,
                };
                differs
            },
            (None, _) => true,
        };
        if !advance {
            proof {
                assert forall|ii: int| 0 <= ii < pre.workers.len() && ii != worker_id implies
                    #[trigger] self@.workers[ii].sink_times == pre.workers[ii].sink_times by {
                    assert(self@.workers[ii] == pre.workers[ii]);
                }
                assert forall|ii: int| 0 <= ii < pre.workers.len() implies
                    #[trigger] self@.workers[ii].worker_id == pre.workers[ii].worker_id
                    && self@.workers[ii].committed == pre.workers[ii].committed
                    && self@.workers[ii].advertised == pre.workers[ii].advertised by {
                    if ii != worker_id {
                        assert(self@.workers[ii] == pre.workers[ii]);
                    }
                }
            }
            return None;
        }
        self.last_timestamp_flushed = Some(global_finalized_timestamp);
        let mut i: usize = 0;
        let ghost mid = self@;
        proof {
            assert(mid.workers == workers_view(self.workers@));
            assert(mid.workers.len() == pre.workers.len());
            assert forall|ii: int| 0 <= ii < pre.workers.len() && ii != worker_id implies
                #[trigger] mid.workers[ii] == pre.workers[ii] by {}
            assert(mid.workers[worker_id as int].worker_id == pre.workers[worker_id as int]
                .worker_id);
            assert(mid.workers[worker_id as int].committed == pre.workers[worker_id as int]
                .committed);
            assert(mid.workers[worker_id as int].sink_times[sink_id as int]
                == reported_timestamp);
            assert(global_finalized_timestamp == watermark_spec(mid.workers));
        }
        while i < self.workers.len()
            invariant
                self@.workers.len() == mid.workers.len(),
                self@.last_timestamp_flushed == mid.last_timestamp_flushed,
                i <= mid.workers.len(),
                forall|j: int| 0 <= j < mid.workers.len() ==> {
                    &&& #[trigger] self@.workers[j].worker_id == mid.workers[j].worker_id
                    &&& self@.workers[j].sink_times == mid.workers[j].sink_times
                    &&& self@.workers[j].committed == mid.workers[j].committed
                },
                forall|j: int| 0 <= j < i ==> #[trigger] self@.workers[j].advertised
                    == Some(global_finalized_timestamp),
                forall|j: int| i <= j < mid.workers.len()
                    ==> #[trigger] self@.workers[j].advertised
                    == mid.workers[j].advertised,
            decreases mid.workers.len() - i,
        {
            let ghost pres = workers_view(self.workers@);
            let ghost presv = self.workers@;
            proof {
                assert(pres == self@.workers);
            }
            let mut worker = self.workers.remove(i);
            let _commit_data = worker.accept_globally_finalized_timestamp(
                global_finalized_timestamp,
            );
            self.workers.insert(i, worker);
            proof {
                assert(self.workers@ =~= presv.update(i as int, self.workers@[i as int]));
                assert forall|j: int| 0 <= j < mid.workers.len() implies {
                    &&& #[trigger] self@.workers[j].worker_id == mid.workers[j].worker_id
                    &&& self@.workers[j].sink_times == mid.workers[j].sink_times
                    &&& self@.workers[j].committed == mid.workers[j].committed
                } by {
                    assert(self@.workers[j] == workers_view(self.workers@)[j]);
                    assert(workers_view(self.workers@)[j] == self.workers@[j]@);
                    if j != i {
                        assert(self.workers@[j] == presv[j]);
                        assert(pres[j] == presv[j]@);
                        assert(pres[j].worker_id == mid.workers[j].worker_id);
                    } else {
                        assert(pres[i as int].worker_id == mid.workers[i as int].worker_id);
                    }
                }
                assert forall|j: int| 0 <= j < i + 1 implies #[trigger] self@.workers[j].advertised
                    == Some(global_finalized_timestamp) by {
                    assert(self@.workers[j] == workers_view(self.workers@)[j]);
                    assert(workers_view(self.workers@)[j] == self.workers@[j]@);
                    if j != i {
                        assert(self.workers@[j] == presv[j]);
                        assert(pres[j] == presv[j]@);
                        assert(pres[j].advertised == Some(global_finalized_timestamp));
                    }
                }
                assert forall|j: int| i + 1 <= j < mid.workers.len() implies
                    #[trigger] self@.workers[j].advertised == mid.workers[j].advertised by {
                    assert(self@.workers[j] == workers_view(self.workers@)[j]);
                    assert(workers_view(self.workers@)[j] == self.workers@[j]@);
                    assert(self.workers@[j] == presv[j]);
                    assert(pres[j] == presv[j]@);
                    assert(pres[j].advertised == mid.workers[j].advertised);
                }
            }
            i += 1;
        }
        proof {
            assert(watermark_spec(self@.workers) == watermark_spec(mid.workers)) by {
                assert forall|j: int| 0 <= j < mid.workers.len() implies
                    #[trigger] self@.workers[j].sink_times == mid.workers[j].sink_times by {
                    assert(self@.workers[j].worker_id == mid.workers[j].worker_id);
                }
                lemma_watermark_same_sinks(self@.workers, mid.workers);
            }
            assert(self@.workers[worker_id as int].sink_times[sink_id as int]
                == reported_timestamp) by {
                assert(self@.workers[worker_id as int].worker_id == mid.workers[worker_id as int]
                    .worker_id);
            }
            assert forall|ii: int| 0 <= ii < pre.workers.len() && ii != worker_id implies
                #[trigger] self@.workers[ii].sink_times == pre.workers[ii].sink_times by {
                assert(self@.workers[ii].worker_id == mid.workers[ii].worker_id);
                assert(mid.workers[ii] == pre.workers[ii]);
            }
            assert forall|ii: int| 0 <= ii < pre.workers.len() implies
                #[trigger] self@.workers[ii].worker_id == pre.workers[ii].worker_id
                && self@.workers[ii].committed == pre.workers[ii].committed by {
                assert(self@.workers[ii].worker_id == mid.workers[ii].worker_id);
                if ii != worker_id {
                    assert(mid.workers[ii] == pre.workers[ii]);
                }
            }
            assert forall|ii: int| 0 <= ii < pre.workers.len() implies
                #[trigger] self@.workers[ii].advertised == Some(watermark_spec(self@.workers)) by {
                assert(self@.workers[ii].worker_id == mid.workers[ii].worker_id);
                assert(self@.workers[ii].advertised == Some(global_finalized_timestamp));
            }
        }
        Some(FrontierCommit { timestamp: global_finalized_timestamp })
    }

    /// Commits the advance for every worker whose prepare succeeded; the
    /// others stay at their previous committed timestamp and are retried by
    /// the next advance.
    #[verifier::loop_isolation(false)]
    pub fn commit_prepared(&mut self, sweep: &FrontierCommit, prepared: &Vec<bool>)
        requires
            prepared@.len() == old(self)@.workers.len(),
        ensures
            final(self)@.workers.len() == old(self)@.workers.len(),
            final(self)@.last_timestamp_flushed == old(self)@.last_timestamp_flushed,
            forall|i: int| 0 <= i < old(self)@.workers.len() ==> {
                &&& #[trigger] final(self)@.workers[i].worker_id == old(self)@.workers[i].worker_id
                &&& final(self)@.workers[i].sink_times == old(self)@.workers[i].sink_times
                &&& final(self)@.workers[i].advertised == old(self)@.workers[i].advertised
                &&& final(self)@.workers[i].committed == (if prepared@[i] {
                    Some(sweep.timestamp)
                } else {
                    old(self)@.workers[i].committed
                })
            },
    {
        let ghost pre = self@;
        let mut i: usize = 0;
        while i < self.workers.len()
            invariant
                prepared@.len() == pre.workers.len(),
                self@.workers.len() == pre.workers.len(),
                self@.last_timestamp_flushed == pre.last_timestamp_flushed,
                i <= pre.workers.len(),
                forall|j: int| 0 <= j < pre.workers.len() ==> {
                    &&& #[trigger] self@.workers[j].worker_id == pre.workers[j].worker_id
                    &&& self@.workers[j].sink_times == pre.workers[j].sink_times
                    &&& self@.workers[j].advertised == pre.workers[j].advertised
                },
                forall|j: int| 0 <= j < i ==> #[trigger] self@.workers[j].committed == (
                    if prepared@[j] {
                    Some(sweep.timestamp)
                } else {
                    pre.workers[j].committed
                }),
                forall|j: int| i <= j < pre.workers.len()
                    ==> #[trigger] self@.workers[j].committed
                    == pre.workers[j].committed,
            decreases pre.workers.len() - i,
        {
            if prepared[i] {
                let ghost pres = workers_view(self.workers@);
                let ghost presv = self.workers@;
                proof {
                    assert(pres == self@.workers);
                }
                let mut worker = self.workers.remove(i);
                worker.commit_globally_finalized_timestamp(
                    CommitData { timestamp: sweep.timestamp },
                );
                self.workers.insert(i, worker);
                proof {
                    assert(self.workers@ =~= presv.update(i as int, self.workers@[i as int]));
                    assert forall|j: int| 0 <= j < pre.workers.len() implies {
                        &&& #[trigger] self@.workers[j].worker_id == pre.workers[j].worker_id
                        &&& self@.workers[j].sink_times == pre.workers[j].sink_times
                        &&& self@.workers[j].advertised == pre.workers[j].advertised
                    } by {
                        assert(self@.workers[j] == workers_view(self.workers@)[j]);
                        assert(workers_view(self.workers@)[j] == self.workers@[j]@);
                        if j != i {
                            assert(self.workers@[j] == presv[j]);
                            assert(pres[j] == presv[j]@);
                            assert(pres[j].worker_id == pre.workers[j].worker_id);
                        } else {
                            assert(pres[i as int].worker_id == pre.workers[i as int].worker_id);
                        }
                    }
                    assert forall|j: int| 0 <= j < i + 1 implies #[trigger] self@.workers[j]
                        .committed == (if prepared@[j] {
                        Some(sweep.timestamp)
                    } else {
                        pre.workers[j].committed
                    }) by {
                        assert(self@.workers[j] == workers_view(self.workers@)[j]);
                        assert(workers_view(self.workers@)[j] == self.workers@[j]@);
                        if j != i {
                            assert(self.workers@[j] == presv[j]);
                            assert(pres[j] == presv[j]@);
                            assert(pres[j].committed == (if prepared@[j] {
                                Some(sweep.timestamp)
                            } else {
                                pre.workers[j].committed
                            }));
                        }
                    }
                    assert forall|j: int| i + 1 <= j < pre.workers.len() implies
                        #[trigger] self@.workers[j].committed == pre.workers[j].committed by {
                        assert(self@.workers[j] == workers_view(self.workers@)[j]);
                        assert(workers_view(self.workers@)[j] == self.workers@[j]@);
                        assert(self.workers@[j] == presv[j]);
                        assert(pres[j] == presv[j]@);
                        assert(pres[j].committed == pre.workers[j].committed);
                    }
                }
            }
            i += 1;
        }
    }
}


/// Workers with the same sink tables yield the same watermark.
proof fn lemma_watermark_same_sinks(a: Seq<WorkerStorageS>, b: Seq<WorkerStorageS>)
    requires
        a.len() == b.len(),
        forall|i: int| 0 <= i < a.len() ==> #[trigger] a[i].sink_times == b[i].sink_times,
    ensures
        watermark_spec(a) == watermark_spec(b),
    decreases a.len(),
{
    if a.len() > 0 {
        assert forall|i: int| 0 <= i < a.drop_first().len() implies #[trigger] a.drop_first()[i]
            .sink_times == b.drop_first()[i].sink_times by {
            assert(a.drop_first()[i] == a[i + 1]);
            assert(b.drop_first()[i] == b[i + 1]);
        }
        lemma_watermark_same_sinks(a.drop_first(), b.drop_first());
        assert(a.first().sink_times == b.first().sink_times);
    }
}

/// The watermark never exceeds any worker's finalized time.
pub proof fn lemma_watermark_lower_bound(ws: Seq<WorkerStorageS>, i: int)
    requires
        0 <= i < ws.len(),
        worker_finalized(ws[i].sink_times) is Some,
    ensures
        watermark_spec(ws) is Some,
        watermark_spec(ws)->Some_0 <= worker_finalized(ws[i].sink_times)->Some_0,
    decreases ws.len(),
{
    if i > 0 {
        assert(ws.drop_first()[i - 1] == ws[i]);
        lemma_watermark_lower_bound(ws.drop_first(), i - 1);
    }
}

/// Every worker's finalized time is at least the watermark, when every
/// worker has one.
pub proof fn lemma_watermark_is_min(ws: Seq<WorkerStorageS>)
    ensures
        watermark_spec(ws) matches Some(w) ==> exists|i: int|
            0 <= i < ws.len() && worker_finalized(#[trigger] ws[i].sink_times) == Some(w),
    decreases ws.len(),
{
    if ws.len() > 0 {
        lemma_watermark_is_min(ws.drop_first());
        if watermark_spec(ws) is Some {
            let w = watermark_spec(ws)->Some_0;
            match (worker_finalized(ws.first().sink_times), watermark_spec(ws.drop_first())) {
                (Some(t), Some(rest)) => {
                    if t <= rest {
                        assert(worker_finalized(ws[0].sink_times) == Some(w));
                    } else {
                        let i = choose|i: int|
                            0 <= i < ws.drop_first().len() && worker_finalized(
                                #[trigger] ws.drop_first()[i].sink_times,
                            ) == Some(w);
                        assert(ws.drop_first()[i] == ws[i + 1]);
                        assert(worker_finalized(ws[i + 1].sink_times) == Some(w));
                    }
                },
                (Some(t), None) => {
                    assert(worker_finalized(ws[0].sink_times) == Some(w));
                },
                (None, rest) => {
                    let i = choose|i: int|
                        0 <= i < ws.drop_first().len() && worker_finalized(
                            #[trigger] ws.drop_first()[i].sink_times,
                        ) == Some(w);
                    assert(ws.drop_first()[i] == ws[i + 1]);
                    assert(worker_finalized(ws[i + 1].sink_times) == Some(w));
                },
            }
        }
    }
}

/// The coordinator's watermark is monotone non-decreasing across a report,
/// provided the reporting worker's new finalized time (if it has one) does
/// not fall below the old watermark. A worker whose report pulls its
/// finalized time below the current watermark (for example, a worker whose
/// first sink report is older than what the others completed) makes the
/// watermark retreat; such reports are excluded here.
pub proof fn lemma_watermark_monotone(pre: Seq<WorkerStorageS>, post: Seq<WorkerStorageS>, w: int)
    requires
        pre.len() == post.len(),
        0 <= w < pre.len(),
        forall|i: int| 0 <= i < pre.len() && i != w ==> #[trigger] post[i].sink_times
            == pre[i].sink_times,
        watermark_spec(pre) matches Some(old_mark) ==> (match worker_finalized(
            post[w].sink_times,
        ) {
            Some(t) => t >= old_mark,
            None => true,
        }),
    ensures
        watermark_spec(pre) matches Some(old_mark) ==> (watermark_spec(post) matches Some(new_mark)
            ==> new_mark >= old_mark),
    decreases pre.len(),
{
    if watermark_spec(pre) is Some && watermark_spec(post) is Some {
        let old_mark = watermark_spec(pre)->Some_0;
        let new_mark = watermark_spec(post)->Some_0;
        lemma_watermark_is_min(post);
        let i = choose|i: int|
            0 <= i < post.len() && worker_finalized(#[trigger] post[i].sink_times) == Some(
                new_mark,
            );
        if i == w {
        } else {
            assert(post[i].sink_times == pre[i].sink_times);
            lemma_watermark_lower_bound(pre, i);
        }
    }
}

/// When every worker's finalized time is the same `T`, the watermark is
/// exactly `T` (within the same call that computed those times).
pub proof fn lemma_watermark_all_equal(ws: Seq<WorkerStorageS>, t: u64)
    requires
        ws.len() > 0,
        forall|i: int| 0 <= i < ws.len() ==> worker_finalized(#[trigger] ws[i].sink_times)
            == Some(t),
    ensures
        watermark_spec(ws) == Some(t),
    decreases ws.len(),
{
    assert(ws.first() == ws[0]);
    assert(worker_finalized(ws[0].sink_times) == Some(t));
    if ws.len() > 1 {
        assert forall|i: int| 0 <= i < ws.drop_first().len() implies worker_finalized(
            #[trigger] ws.drop_first()[i].sink_times,
        ) == Some(t) by {
            assert(ws.drop_first()[i] == ws[i + 1]);
        }
        lemma_watermark_all_equal(ws.drop_first(), t);
        assert(watermark_spec(ws.drop_first()) == Some(t));
    } else {
        assert(ws.drop_first().len() == 0);
        assert(watermark_spec(ws.drop_first()) is None);
    }
}

} // verus!
