//! A worker pool: a fixed set of workers draining a shared, unbounded FIFO
//! queue of jobs, with a graceful-shutdown lifecycle.
//!
//! The pool here is the sequential model of that lifecycle.  Every shared-state
//! transition of the running pool — a producer submitting a job, a worker
//! picking one up, a worker finishing one, the owner closing the queue —
//! stands as one method of [`ThreadPool`], so any interleaving of threads
//! corresponds to some sequence of these calls, and what is proved of every
//! call sequence holds of every interleaving.  The thread-and-channel harness
//! that performs the real blocking and joining lives outside the library and
//! consults this model for each decision.
//!
//! A job is carried as a tagged value rather than a closure: the pool never
//! looks inside a job, so all its guarantees are about which tags travel
//! where, and the harness maps tags back to real callables.

use vstd::prelude::*;
use vstd::multiset::Multiset;

verus! {

/// A single-invocation unit of work, represented by an opaque tag.
///
/// `faulty` marks a job whose execution will raise an internal fault; the
/// pool must confine such a fault to the one iteration that runs the job.
#[derive(Clone, Copy, Debug, PartialEq, Eq, Structural)]
pub struct Job {
    pub tag: u64,
    pub faulty: bool,
}

/// The error surfaced when a submission reaches a queue that is already
/// closed: a lifecycle misuse, reported rather than executed or swallowed.
#[derive(Clone, Copy, Debug, PartialEq, Eq, Structural)]
pub enum SubmitError {
    QueueClosed,
}

/// What one worker is doing.
///
/// `Idle` workers are between jobs (in the running pool: blocked on the
/// queue); `Executing` workers hold the one job they are running;
/// `Terminated` workers have observed the queue closed and empty and will
/// never run again.  The draining phase of a shutdown is the stretch where
/// the queue is closed but workers still move between `Idle` and `Executing`.
#[derive(Clone, Copy, Debug, PartialEq, Eq, Structural)]
pub enum WorkerStatus {
    Idle,
    Executing { job: Job },
    Terminated,
}

/// What a worker's attempt to pull work from the queue yields.
#[derive(Clone, Copy, Debug, PartialEq, Eq, Structural)]
pub enum Dequeued {
    /// The queue held a job; the worker now executes it.
    Job { job: Job },
    /// The queue is empty but still open: the worker blocks until either a
    /// submission or the close arrives.
    WouldBlock,
    /// The queue is closed and drained: the worker terminates.
    NoMoreWork,
}

/// How the execution of one job ended.
#[derive(Clone, Copy, Debug, PartialEq, Eq, Structural)]
pub enum JobOutcome {
    Completed,
    Faulted,
}

/// Whether every worker has terminated.
pub open spec fn all_terminated(workers: Seq<WorkerStatus>) -> bool {
    forall|w: int| 0 <= w < workers.len() ==> workers[w] is Terminated
}

/// The jobs currently being executed, summed over all workers.
///
/// A multiset, since two workers may hold equal jobs and no order exists
/// among in-flight work.
pub open spec fn in_flight(workers: Seq<WorkerStatus>) -> Multiset<Job>
    decreases workers.len(),
{
    if workers.len() == 0 {
        Multiset::empty()
    } else {
        in_flight(workers.drop_last()).add(status_load(workers.last()))
    }
}

/// The contribution of a single worker to the in-flight multiset.
pub open spec fn status_load(st: WorkerStatus) -> Multiset<Job> {
    match st {
        WorkerStatus::Executing { job } => Multiset::singleton(job),
        _ => Multiset::empty(),
    }
}

/// A fixed-size worker pool over one shared FIFO job queue.
///
/// `queue` is the pending work, front at index 0.  `dispatched` logs jobs in
/// the order workers picked them up, `completed` in the order their
/// executions finished.  `submitted` is the ghost log of every accepted
/// submission, in submission order.
pub struct ThreadPool {
    queue: Vec<Job>,
    closed: bool,
    workers: Vec<WorkerStatus>,
    dispatched: Vec<Job>,
    completed: Vec<Job>,
    submitted: Ghost<Seq<Job>>,
}

impl ThreadPool {
    /// The pending queue, in FIFO order.
    pub closed spec fn pending(&self) -> Seq<Job> {
        self.queue@
    }

    /// Whether the queue still accepts submissions.
    pub closed spec fn spec_closed(&self) -> bool {
        self.closed
    }

    /// The status of each worker, by worker identity.
    pub closed spec fn worker_states(&self) -> Seq<WorkerStatus> {
        self.workers@
    }

    /// Jobs in the order workers picked them up.
    pub closed spec fn dispatch_log(&self) -> Seq<Job> {
        self.dispatched@
    }

    /// Jobs in the order their executions finished.
    pub closed spec fn completion_log(&self) -> Seq<Job> {
        self.completed@
    }

    /// Every accepted submission, in submission order.
    pub closed spec fn submission_log(&self) -> Seq<Job> {
        self.submitted@
    }

    /// The pool's invariant.
    ///
    /// The queue is exactly the not-yet-dispatched tail of the submission
    /// log, so jobs are handed out in submission order and none is lost or
    /// duplicated between submission and dispatch.  Completed and in-flight
    /// jobs together are exactly the dispatched ones, so none is lost or
    /// duplicated between dispatch and completion.  Workers terminate only
    /// after the close, and once all have terminated nothing is pending.
    pub open spec fn wf(&self) -> bool {
        &&& self.submission_log() == self.dispatch_log() + self.pending()
        &&& self.completion_log().to_multiset().add(in_flight(self.worker_states()))
            =~= self.dispatch_log().to_multiset()
        &&& self.worker_states().len() >= 1
        &&& (forall|w: int|
            0 <= w < self.worker_states().len()
                && self.worker_states()[w] is Terminated ==> self.spec_closed())
        &&& (all_terminated(self.worker_states()) ==> self.pending().len() == 0)
    }

    /// Create a pool of `size` workers over one fresh, open, empty queue.
    ///
    /// A pool cannot exist with zero workers: `size == 0` is a fatal misuse
    /// and is ruled out here, so the running pool checks it and aborts before
    /// this constructor is reached.
    pub fn new(size: usize) -> (pool: ThreadPool)
        requires
            size >= 1,
        ensures
            pool.wf(),
            !pool.spec_closed(),
            pool.pending() == Seq::<Job>::empty(),
            pool.worker_states() == Seq::new(size as nat, |w: int| WorkerStatus::Idle),
            pool.dispatch_log() == Seq::<Job>::empty(),
            pool.completion_log() == Seq::<Job>::empty(),
            pool.submission_log() == Seq::<Job>::empty(),
    {
        let mut workers: Vec<WorkerStatus> = Vec::new();
        let mut w: usize = 0;
        while w < size
            invariant
                w <= size,
                workers@ == Seq::new(w as nat, |i: int| WorkerStatus::Idle),
            decreases size - w,
        {
            workers.push(WorkerStatus::Idle);
            proof {
                assert(workers@ =~= Seq::new((w + 1) as nat, |i: int| WorkerStatus::Idle));
            }
            w = w + 1;
        }
        let pool = ThreadPool {
            queue: Vec::new(),
            closed: false,
            workers,
            dispatched: Vec::new(),
            completed: Vec::new(),
            submitted: Ghost(Seq::empty()),
        };
        proof {
            assert(pool.submission_log() =~= pool.dispatch_log() + pool.pending());
            assert(in_flight(pool.worker_states()) =~= Multiset::empty()) by {
                lemma_in_flight_none(pool.worker_states());
            }
            assert(pool.completion_log().to_multiset().add(in_flight(pool.worker_states()))
                =~= pool.dispatch_log().to_multiset()) by {
                pool.completion_log().to_multiset_ensures();
            }
        }
        pool
    }
}

impl ThreadPool {
    /// Submit a job: append it to the tail of the queue.
    ///
    /// Returns at once; the job is executed later by exactly one worker.
    /// Once the queue is closed the submission is rejected with
    /// [`SubmitError::QueueClosed`] and the pool is left untouched — and
    /// those are the only two outcomes.
    pub fn execute(&mut self, job: Job) -> (r: Result<(), SubmitError>)
        requires
            old(self).wf(),
        ensures
            final(self).wf(),
            r is Err <==> old(self).spec_closed(),
            old(self).spec_closed() ==> r == Err::<(), SubmitError>(SubmitError::QueueClosed)
                && *final(self) == *old(self),
            !old(self).spec_closed() ==> r == Ok::<(), SubmitError>(())
                && final(self).pending() == old(self).pending().push(job)
                && final(self).submission_log() == old(self).submission_log().push(job),
            final(self).spec_closed() == old(self).spec_closed(),
            final(self).worker_states() == old(self).worker_states(),
            final(self).dispatch_log() == old(self).dispatch_log(),
            final(self).completion_log() == old(self).completion_log(),
    {
        if self.closed {
            Err(SubmitError::QueueClosed)
        } else {
            self.queue.push(job);
            proof {
                self.submitted@ = self.submitted@.push(job);
                assert(self.submission_log() =~= self.dispatch_log() + self.pending());
            }
            Ok(())
        }
    }

    /// Close the queue to new submissions.
    ///
    /// Jobs already queued stay and will still be drained; closing an
    /// already-closed queue changes nothing, so the operation is idempotent.
    pub fn close(&mut self)
        requires
            old(self).wf(),
        ensures
            final(self).wf(),
            final(self).spec_closed(),
            final(self).pending() == old(self).pending(),
            final(self).worker_states() == old(self).worker_states(),
            final(self).dispatch_log() == old(self).dispatch_log(),
            final(self).completion_log() == old(self).completion_log(),
            final(self).submission_log() == old(self).submission_log(),
    {
        self.closed = true;
    }

    /// One worker's attempt to pull work from the queue.
    ///
    /// With work pending, the worker receives the front job — the earliest
    /// one submitted and not yet handed out — and moves to `Executing`.  With
    /// the queue empty it either blocks (still open) or terminates (closed
    /// and drained).  No other worker and no queued job is affected.
    pub fn worker_fetch(&mut self, w: usize) -> (r: Dequeued)
        requires
            old(self).wf(),
            w < old(self).worker_states().len(),
            old(self).worker_states()[w as int] is Idle,
        ensures
            final(self).wf(),
            old(self).pending().len() > 0 ==> {
                let job = old(self).pending()[0];
                &&& r == (Dequeued::Job { job })
                &&& final(self).pending() == old(self).pending().drop_first()
                &&& final(self).dispatch_log() == old(self).dispatch_log().push(job)
                &&& final(self).worker_states() == old(self).worker_states().update(
                    w as int,
                    WorkerStatus::Executing { job },
                )
                &&& in_flight(final(self).worker_states()) =~= in_flight(
                    old(self).worker_states(),
                ).insert(job)
            },
            old(self).pending().len() == 0 && !old(self).spec_closed() ==> r
                == Dequeued::WouldBlock && *final(self) == *old(self),
            old(self).pending().len() == 0 && old(self).spec_closed() ==> {
                &&& r == Dequeued::NoMoreWork
                &&& final(self).worker_states() == old(self).worker_states().update(
                    w as int,
                    WorkerStatus::Terminated,
                )
                &&& final(self).pending() == old(self).pending()
                &&& final(self).dispatch_log() == old(self).dispatch_log()
                &&& in_flight(final(self).worker_states()) =~= in_flight(
                    old(self).worker_states(),
                )
            },
            final(self).spec_closed() == old(self).spec_closed(),
            final(self).submission_log() == old(self).submission_log(),
            final(self).completion_log() == old(self).completion_log(),
            final(self).worker_states().len() == old(self).worker_states().len(),
    {
        if self.queue.len() > 0 {
            let job = self.queue.remove(0);
            self.workers.set(w, WorkerStatus::Executing { job });
            self.dispatched.push(job);
            proof {
                let prev = *old(self);
                assert(prev.pending().drop_first() =~= self.pending());
                assert(self.submission_log() =~= self.dispatch_log() + self.pending());
                lemma_in_flight_update(
                    prev.worker_states(),
                    w as int,
                    WorkerStatus::Executing { job },
                );
                prev.dispatch_log().to_multiset_ensures();
                let c = self.completion_log().to_multiset();
                let f_new = in_flight(self.worker_states());
                let f_old = in_flight(prev.worker_states());
                let d_new = self.dispatch_log().to_multiset();
                let d_old = prev.dispatch_log().to_multiset();
                assert(f_new.add(Multiset::empty()) =~= f_old.add(Multiset::singleton(job)));
                assert(d_new =~= d_old.insert(job));
                assert forall|v: Job| c.add(f_new).count(v) == d_new.count(v) by {
                    assert(f_new.add(Multiset::<Job>::empty()).count(v) == f_new.count(v)
                        + Multiset::<Job>::empty().count(v));
                    assert(c.add(f_old).count(v) == d_old.count(v));
                    assert(d_old.insert(job).count(v) == d_old.count(v) + Multiset::singleton(
                        job,
                    ).count(v));
                }
                assert(c.add(f_new) =~= d_new);
                assert(self.worker_states()[w as int] is Executing);
                assert forall|v: Job| f_new.count(v) == f_old.insert(job).count(v) by {
                    assert(f_new.add(Multiset::<Job>::empty()).count(v) == f_new.count(v)
                        + Multiset::<Job>::empty().count(v));
                    assert(f_old.add(Multiset::<Job>::singleton(job)).count(v) == f_old.count(v)
                        + Multiset::<Job>::singleton(job).count(v));
                }
                assert(f_new =~= f_old.insert(job));
            }
            Dequeued::Job { job }
        } else if self.closed {
            self.workers.set(w, WorkerStatus::Terminated);
            proof {
                let prev = *old(self);
                lemma_in_flight_update(prev.worker_states(), w as int, WorkerStatus::Terminated);
                let c = self.completion_log().to_multiset();
                let f_new = in_flight(self.worker_states());
                let f_old = in_flight(prev.worker_states());
                let d = self.dispatch_log().to_multiset();
                assert(f_new.add(Multiset::empty()) =~= f_old.add(Multiset::empty()));
                assert forall|v: Job| c.add(f_new).count(v) == d.count(v) by {
                    assert(c.add(f_old).count(v) == d.count(v));
                    assert(f_new.add(Multiset::<Job>::empty()).count(v) == f_new.count(v)
                        + Multiset::<Job>::empty().count(v));
                    assert(f_old.add(Multiset::<Job>::empty()).count(v) == f_old.count(v)
                        + Multiset::<Job>::empty().count(v));
                }
                assert(c.add(f_new) =~= d);
                assert forall|v: Job| f_new.count(v) == f_old.count(v) by {
                    assert(f_new.add(Multiset::<Job>::empty()).count(v) == f_new.count(v)
                        + Multiset::<Job>::empty().count(v));
                    assert(f_old.add(Multiset::<Job>::empty()).count(v) == f_old.count(v)
                        + Multiset::<Job>::empty().count(v));
                }
                assert(f_new =~= f_old);
            }
            Dequeued::NoMoreWork
        } else {
            Dequeued::WouldBlock
        }
    }

    /// One worker finishing the job it was executing.
    ///
    /// The outcome reports whether the job's execution raised an internal
    /// fault; either way the fault is confined to this one iteration — the
    /// worker returns to `Idle`, ready for its next fetch, and no other part
    /// of the pool is touched.
    pub fn worker_finish(&mut self, w: usize, job: Job) -> (outcome: JobOutcome)
        requires
            old(self).wf(),
            w < old(self).worker_states().len(),
            old(self).worker_states()[w as int] == (WorkerStatus::Executing { job }),
        ensures
            final(self).wf(),
            outcome == (if job.faulty {
                JobOutcome::Faulted
            } else {
                JobOutcome::Completed
            }),
            final(self).worker_states() == old(self).worker_states().update(
                w as int,
                WorkerStatus::Idle,
            ),
            final(self).completion_log() == old(self).completion_log().push(job),
            in_flight(old(self).worker_states()) =~= in_flight(
                final(self).worker_states(),
            ).insert(job),
            final(self).pending() == old(self).pending(),
            final(self).spec_closed() == old(self).spec_closed(),
            final(self).dispatch_log() == old(self).dispatch_log(),
            final(self).submission_log() == old(self).submission_log(),
    {
        self.workers.set(w, WorkerStatus::Idle);
        self.completed.push(job);
        proof {
            let prev = *old(self);
            lemma_in_flight_update(prev.worker_states(), w as int, WorkerStatus::Idle);
            prev.completion_log().to_multiset_ensures();
            let c_old = prev.completion_log().to_multiset();
            let c_new = self.completion_log().to_multiset();
            let f_old = in_flight(prev.worker_states());
            let f_new = in_flight(self.worker_states());
            let d = self.dispatch_log().to_multiset();
            assert(f_new.add(Multiset::singleton(job)) =~= f_old.add(Multiset::empty()));
            assert(c_new =~= c_old.insert(job));
            assert forall|v: Job| c_new.add(f_new).count(v) == d.count(v) by {
                assert(c_old.add(f_old).count(v) == d.count(v));
                assert(f_new.add(Multiset::<Job>::singleton(job)).count(v) == f_new.count(v)
                    + Multiset::<Job>::singleton(job).count(v));
                assert(f_old.add(Multiset::<Job>::empty()).count(v) == f_old.count(v)
                    + Multiset::<Job>::empty().count(v));
                assert(c_old.insert(job).count(v) == c_old.count(v) + Multiset::<Job>::singleton(
                    job,
                ).count(v));
            }
            assert(c_new.add(f_new) =~= d);
            assert(self.worker_states()[w as int] is Idle);
            assert forall|v: Job| f_old.count(v) == f_new.insert(job).count(v) by {
                assert(f_new.add(Multiset::<Job>::singleton(job)).count(v) == f_new.count(v)
                    + Multiset::<Job>::singleton(job).count(v));
                assert(f_old.add(Multiset::<Job>::empty()).count(v) == f_old.count(v)
                    + Multiset::<Job>::empty().count(v));
            }
            assert(f_old =~= f_new.insert(job));
        }
        if job.faulty {
            JobOutcome::Faulted
        } else {
            JobOutcome::Completed
        }
    }

    /// Shut the pool down gracefully.
    ///
    /// In order: close the queue, let every worker finish the job it is
    /// executing, drain every job still queued, and return only once every
    /// worker has observed the queue closed and empty and terminated.  On
    /// return every job ever accepted has been executed exactly once: the
    /// completion log holds exactly the submitted jobs, none dropped, none
    /// run twice.  Termination of the drain itself is proved by the
    /// `decreases` measures, so shutdown cannot hang on an empty pool, nor on
    /// any other; a second shutdown finds nothing to do and changes nothing.
    pub fn shutdown(&mut self)
        requires
            old(self).wf(),
        ensures
            final(self).wf(),
            final(self).spec_closed(),
            all_terminated(final(self).worker_states()),
            final(self).pending().len() == 0,
            final(self).worker_states().len() == old(self).worker_states().len(),
            final(self).submission_log() == old(self).submission_log(),
            final(self).dispatch_log() == old(self).submission_log(),
            final(self).completion_log().to_multiset() =~= old(
                self,
            ).submission_log().to_multiset(),
            final(self).completion_log().len() == old(self).submission_log().len(),
            old(self).spec_closed() && all_terminated(old(self).worker_states()) ==> {
                &&& final(self).worker_states() == old(self).worker_states()
                &&& final(self).completion_log() == old(self).completion_log()
                &&& final(self).dispatch_log() == old(self).dispatch_log()
                &&& final(self).pending() == old(self).pending()
            },
    {
        let ghost sub0 = old(self).submission_log();
        let ghost was_done = old(self).spec_closed() && all_terminated(
            old(self).worker_states(),
        );
        let ghost states0 = old(self).worker_states();
        let ghost comp0 = old(self).completion_log();
        let ghost disp0 = old(self).dispatch_log();
        let ghost pend0 = old(self).pending();
        self.close();
        let n = self.workers.len();
        let mut w: usize = 0;
        while w < n
            invariant
                self.wf(),
                self.spec_closed(),
                n == self.worker_states().len(),
                w <= n,
                self.submission_log() == sub0,
                forall|i: int| 0 <= i < w ==> self.worker_states()[i] is Terminated,
                was_done ==> all_terminated(states0) && self.worker_states() == states0
                    && self.completion_log() == comp0 && self.dispatch_log() == disp0
                    && self.pending() == pend0,
            decreases n - w,
        {
            loop
                invariant
                    self.wf(),
                    self.spec_closed(),
                    n == self.worker_states().len(),
                    w < n,
                    self.submission_log() == sub0,
                    forall|i: int| 0 <= i < w ==> self.worker_states()[i] is Terminated,
                    was_done ==> all_terminated(states0) && self.worker_states() == states0
                        && self.completion_log() == comp0 && self.dispatch_log() == disp0
                        && self.pending() == pend0,
                ensures
                    self.wf(),
                    self.spec_closed(),
                    n == self.worker_states().len(),
                    w < n,
                    self.submission_log() == sub0,
                    self.worker_states()[w as int] is Terminated,
                    forall|i: int| 0 <= i < w ==> self.worker_states()[i] is Terminated,
                    was_done ==> all_terminated(states0) && self.worker_states() == states0
                        && self.completion_log() == comp0 && self.dispatch_log() == disp0
                        && self.pending() == pend0,
                decreases self.pending().len() + in_flight(self.worker_states()).len() + (
                if self.worker_states()[w as int] is Terminated {
                    0int
                } else {
                    1int
                }),
            {
                let ghost before = *self;
                let st = self.workers[w];
                match st {
                    WorkerStatus::Terminated => {
                        break ;
                    },
                    WorkerStatus::Executing { job } => {
                        proof {
                            if was_done {
                                assert(states0[w as int] is Terminated);
                            }
                        }
                        self.worker_finish(w, job);
                        proof {
                            lemma_insert_len_one(in_flight(self.worker_states()), job);
                        }
                    },
                    WorkerStatus::Idle => {
                        proof {
                            if was_done {
                                assert(states0[w as int] is Terminated);
                            }
                        }
                        match self.worker_fetch(w) {
                            Dequeued::Job { job } => {
                                proof {
                                    lemma_insert_len_one(in_flight(before.worker_states()), job);
                                }
                                self.worker_finish(w, job);
                                proof {
                                    lemma_insert_len_one(in_flight(self.worker_states()), job);
                                }
                            },
                            Dequeued::NoMoreWork => {},
                            Dequeued::WouldBlock => {
                                proof {
                                    assert(false);
                                }
                                break ;
                            },
                        }
                    },
                }
            }
            w = w + 1;
        }
        proof {
            assert(all_terminated(self.worker_states()));
            assert forall|i: int|
                0 <= i < self.worker_states().len() implies !(self.worker_states()[i]
                is Executing) by {
                assert(self.worker_states()[i] is Terminated);
            }
            lemma_in_flight_none(self.worker_states());
            let c = self.completion_log().to_multiset();
            let d = self.dispatch_log().to_multiset();
            let f = in_flight(self.worker_states());
            assert forall|v: Job| c.count(v) == d.count(v) by {
                assert(c.add(f).count(v) == c.count(v) + f.count(v));
                assert(Multiset::<Job>::empty().count(v) == 0);
            }
            assert(c =~= d);
            assert(self.pending().len() == 0);
            assert(self.dispatch_log() =~= self.dispatch_log() + self.pending());
            assert(self.dispatch_log() == self.submission_log());
            self.completion_log().to_multiset_ensures();
            self.submission_log().to_multiset_ensures();
        }
    }
}

/// Inserting one job grows a multiset by exactly one.
proof fn lemma_insert_len_one(m: Multiset<Job>, j: Job)
    ensures
        m.insert(j).len() == m.len() + 1,
{
    assert(m.add(Multiset::singleton(j)).len() == m.len() + Multiset::singleton(j).len());
}

/// Updating one worker's status moves exactly that worker's load in or out
/// of the in-flight multiset; stated symmetrically to cover every old and
/// new status at once.
proof fn lemma_in_flight_update(workers: Seq<WorkerStatus>, w: int, st: WorkerStatus)
    requires
        0 <= w < workers.len(),
    ensures
        in_flight(workers.update(w, st)).add(status_load(workers[w])) =~= in_flight(
            workers,
        ).add(status_load(st)),
    decreases workers.len(),
{
    let u = workers.update(w, st);
    let wd = workers.drop_last();
    if w == workers.len() - 1 {
        assert(u.drop_last() =~= wd);
        assert(u.last() == st);
        assert(in_flight(u) == in_flight(wd).add(status_load(st)));
        assert(workers.last() == workers[w]);
        assert(in_flight(workers) == in_flight(wd).add(status_load(workers[w])));
        lemma_add_swap(in_flight(wd), status_load(st), status_load(workers[w]));
    } else {
        assert(u.drop_last() =~= wd.update(w, st));
        assert(u.last() == workers.last());
        lemma_in_flight_update(wd, w, st);
        assert(wd[w] == workers[w]);
        assert(in_flight(u) == in_flight(wd.update(w, st)).add(status_load(workers.last())));
        lemma_add_swap(in_flight(wd.update(w, st)), status_load(workers.last()), status_load(workers[w]));
        assert(in_flight(u).add(status_load(workers[w])) =~= in_flight(wd.update(w, st)).add(
            status_load(wd[w]),
        ).add(status_load(workers.last())));
        assert(in_flight(wd.update(w, st)).add(status_load(wd[w])).add(status_load(workers.last()))
            =~= in_flight(wd).add(status_load(st)).add(status_load(workers.last())));
        lemma_add_swap(in_flight(wd), status_load(st), status_load(workers.last()));
        assert(in_flight(workers) == in_flight(wd).add(status_load(workers.last())));
    }
}

/// Adding two loads to a multiset commutes.
proof fn lemma_add_swap(a: Multiset<Job>, x: Multiset<Job>, y: Multiset<Job>)
    ensures
        a.add(x).add(y) =~= a.add(y).add(x),
{
}

impl ThreadPool {
    /// The number of workers the pool was built with.
    pub fn worker_count(&self) -> (n: usize)
        ensures
            n == self.worker_states().len(),
    {
        self.workers.len()
    }

    /// The status of the worker with identity `w`.
    pub fn worker_status(&self, w: usize) -> (st: WorkerStatus)
        requires
            w < self.worker_states().len(),
        ensures
            st == self.worker_states()[w as int],
    {
        self.workers[w]
    }

    /// Whether the queue has been closed to new submissions.
    pub fn is_closed(&self) -> (b: bool)
        ensures
            b == self.spec_closed(),
    {
        self.closed
    }

    /// How many jobs are queued and not yet picked up.
    pub fn pending_count(&self) -> (n: usize)
        ensures
            n == self.pending().len(),
    {
        self.queue.len()
    }

    /// How many job executions have finished.
    pub fn completed_count(&self) -> (n: usize)
        ensures
            n == self.completion_log().len(),
    {
        self.completed.len()
    }

    /// The `i`-th job to finish, in completion order.
    pub fn completed_job(&self, i: usize) -> (j: Job)
        requires
            i < self.completion_log().len(),
        ensures
            j == self.completion_log()[i as int],
    {
        self.completed[i]
    }

    /// How many jobs workers have picked up so far.
    pub fn dispatched_count(&self) -> (n: usize)
        ensures
            n == self.dispatch_log().len(),
    {
        self.dispatched.len()
    }

    /// The `i`-th job to be picked up, in pick-up order.
    pub fn dispatched_job(&self, i: usize) -> (j: Job)
        requires
            i < self.dispatch_log().len(),
        ensures
            j == self.dispatch_log()[i as int],
    {
        self.dispatched[i]
    }
}

/// FIFO hand-off: the jobs a well-formed pool has dispatched are the first
/// `dispatch_log().len()` submissions in submission order, and the jobs still
/// pending are the remaining submissions, also in submission order.  Jobs of
/// one producer reach workers in the order that producer submitted them,
/// since they form a subsequence of the submission order.
pub proof fn lemma_fifo(pool: &ThreadPool)
    requires
        pool.wf(),
    ensures
        pool.submission_log() == pool.dispatch_log() + pool.pending(),
        pool.dispatch_log() == pool.submission_log().take(pool.dispatch_log().len() as int),
        pool.pending() == pool.submission_log().skip(pool.dispatch_log().len() as int),
        forall|i: int|
            0 <= i < pool.pending().len() ==> pool.pending()[i] == pool.submission_log()[
                pool.dispatch_log().len() + i
            ],
{
    assert(pool.dispatch_log() =~= pool.submission_log().take(
        pool.dispatch_log().len() as int,
    ));
    assert(pool.pending() =~= pool.submission_log().skip(pool.dispatch_log().len() as int));
}

/// Exactly-once execution: once every worker of a well-formed pool has
/// terminated, the finished executions are exactly the accepted submissions —
/// the same jobs with the same multiplicities, so for `K` submissions there
/// were exactly `K` executions, none dropped and none run twice.
pub proof fn lemma_exactly_once(pool: &ThreadPool)
    requires
        pool.wf(),
        all_terminated(pool.worker_states()),
    ensures
        pool.completion_log().to_multiset() =~= pool.submission_log().to_multiset(),
        pool.completion_log().len() == pool.submission_log().len(),
{
    assert forall|i: int|
        0 <= i < pool.worker_states().len() implies !(pool.worker_states()[i] is Executing) by {
        assert(pool.worker_states()[i] is Terminated);
    }
    lemma_in_flight_none(pool.worker_states());
    let c = pool.completion_log().to_multiset();
    let d = pool.dispatch_log().to_multiset();
    let f = in_flight(pool.worker_states());
    assert forall|v: Job| c.count(v) == d.count(v) by {
        assert(c.add(f).count(v) == c.count(v) + f.count(v));
        assert(Multiset::<Job>::empty().count(v) == 0);
    }
    assert(c =~= d);
    assert(pool.pending().len() == 0);
    assert(pool.dispatch_log() =~= pool.dispatch_log() + pool.pending());
    assert(pool.dispatch_log() == pool.submission_log());
    pool.completion_log().to_multiset_ensures();
    pool.submission_log().to_multiset_ensures();
}

/// The lifecycle the thread-pool demonstration exercises, end to end: build a
/// pool of `num_threads` workers, submit `num_tasks` well-behaved jobs tagged
/// `0..num_tasks`, then shut down.  Exactly `num_tasks` executions happen.
pub fn run_to_completion(num_threads: usize, num_tasks: usize) -> (pool: ThreadPool)
    requires
        num_threads >= 1,
    ensures
        pool.wf(),
        pool.spec_closed(),
        all_terminated(pool.worker_states()),
        pool.worker_states().len() == num_threads,
        pool.submission_log().len() == num_tasks,
        pool.completion_log().len() == num_tasks,
        forall|i: int|
            0 <= i < num_tasks ==> pool.submission_log()[i] == (Job {
                tag: i as u64,
                faulty: false,
            }),
{
    let mut pool = ThreadPool::new(num_threads);
    let mut i: usize = 0;
    while i < num_tasks
        invariant
            pool.wf(),
            !pool.spec_closed(),
            i <= num_tasks,
            pool.worker_states().len() == num_threads,
            pool.submission_log().len() == i,
            forall|k: int|
                0 <= k < i ==> pool.submission_log()[k] == (Job { tag: k as u64, faulty: false }),
        decreases num_tasks - i,
    {
        let job = Job { tag: i as u64, faulty: false };
        let submitted = pool.execute(job);
        proof {
            assert(submitted is Ok);
        }
        i = i + 1;
    }
    pool.shutdown();
    pool
}

/// A pool in which no worker is executing has nothing in flight.
proof fn lemma_in_flight_none(workers: Seq<WorkerStatus>)
    requires
        forall|w: int| 0 <= w < workers.len() ==> !(workers[w] is Executing),
    ensures
        in_flight(workers) =~= Multiset::empty(),
    decreases workers.len(),
{
    if workers.len() > 0 {
        lemma_in_flight_none(workers.drop_last());
    }
}

} // verus!
