//! The worker pool: owns a fixed set of workers and the sending half of the
//! queue, dispatches submitted jobs to whichever worker receives them, and
//! tears itself down deterministically.
//!
//! The pool is a faithful state model of the running system: each worker is
//! driven through the same loop its thread runs (block on receive, run the
//! job to completion, loop; stop on the poison pill), one step at a time.
//! The contracts pin down the delivery guarantees: every submitted job is
//! run exactly once, shutdown sends exactly one stop signal per worker, and
//! teardown returns only when every worker has stopped and every job has
//! run.

use vstd::prelude::*;
use vstd::multiset::Multiset;

use crate::queue::{JobQueue, Message, PoolError, job_multiset, job_count, terminate_count,
    message_jobs};
use crate::queue::{lemma_counts_partition, lemma_append_message};

verus! {

broadcast use {
    vstd::multiset::group_multiset_axioms,
    vstd::multiset::lemma_multiset_empty_len,
    vstd::seq_lib::group_to_multiset_ensures,
};

/// One worker's position in its lifecycle.  `Idle` is blocked in receive;
/// `Running` holds the single job the worker is executing; `Terminated` is
/// absorbing: a worker that consumed the stop signal never receives again.
pub enum WorkerState<T> {
    Idle,
    Running(T),
    Terminated,
}

/// One worker: an ordinal identity bound to one thread of execution.  The
/// worker owns no state beyond its identity and its place in the lifecycle;
/// the queue it consumes from is shared and owned by the pool.
struct Worker<T> {
    id: usize,
    state: WorkerState<T>,
}

/// The job a worker state is currently running: one for `Running`, none
/// otherwise.
pub open spec fn state_jobs<T>(s: WorkerState<T>) -> Multiset<T> {
    match s {
        WorkerState::Running(j) => Multiset::empty().insert(j),
        _ => Multiset::empty(),
    }
}

/// 1 when the worker has not terminated, else 0.
pub open spec fn live_of<T>(s: WorkerState<T>) -> nat {
    if s is Terminated {
        0
    } else {
        1
    }
}

/// 1 when the worker is running a job, else 0.
pub open spec fn running_of<T>(s: WorkerState<T>) -> nat {
    if s is Running {
        1
    } else {
        0
    }
}

/// The multiset of jobs currently being run, over all workers.
pub open spec fn running_jobs<T>(ws: Seq<WorkerState<T>>) -> Multiset<T>
    decreases ws.len(),
{
    if ws.len() == 0 {
        Multiset::empty()
    } else {
        state_jobs(ws.first()).add(running_jobs(ws.drop_first()))
    }
}

/// How many workers have not terminated.
pub open spec fn live_count<T>(ws: Seq<WorkerState<T>>) -> nat
    decreases ws.len(),
{
    if ws.len() == 0 {
        0
    } else {
        live_of(ws.first()) + live_count(ws.drop_first())
    }
}

/// How many workers are running a job.
pub open spec fn running_count<T>(ws: Seq<WorkerState<T>>) -> nat
    decreases ws.len(),
{
    if ws.len() == 0 {
        0
    } else {
        running_of(ws.first()) + running_count(ws.drop_first())
    }
}

/// Changing one worker's state changes each aggregate by exactly the
/// difference of that worker's contributions.
proof fn lemma_update_state<T>(ws: Seq<WorkerState<T>>, i: int, s: WorkerState<T>)
    requires
        0 <= i < ws.len(),
    ensures
        running_jobs(ws.update(i, s)).add(state_jobs(ws[i])) == running_jobs(ws).add(
            state_jobs(s),
        ),
        live_count(ws.update(i, s)) + live_of(ws[i]) == live_count(ws) + live_of(s),
        running_count(ws.update(i, s)) + running_of(ws[i]) == running_count(ws) + running_of(s),
    decreases ws.len(),
{
    let wsu = ws.update(i, s);
    if i == 0 {
        assert(wsu.drop_first() =~= ws.drop_first());
        assert(running_jobs(wsu).add(state_jobs(ws[0])) =~= running_jobs(ws).add(state_jobs(s)));
    } else {
        let wsd = ws.drop_first();
        assert(wsu.drop_first() =~= wsd.update(i - 1, s));
        lemma_update_state(wsd, i - 1, s);
        assert(wsu.first() == ws.first());
        assert(ws[i] == wsd[i - 1]);
        assert(running_jobs(wsu) == state_jobs(ws.first()).add(running_jobs(wsd.update(i - 1, s))));
        assert(running_jobs(ws) == state_jobs(ws.first()).add(running_jobs(wsd)));
        assert forall|v: T|
            running_jobs(wsu).add(state_jobs(ws[i])).count(v) == running_jobs(ws).add(
                state_jobs(s),
            ).count(v) by {
            assert(running_jobs(wsd.update(i - 1, s)).add(state_jobs(wsd[i - 1])).count(v)
                == running_jobs(wsd).add(state_jobs(s)).count(v));
        }
        assert(running_jobs(wsu).add(state_jobs(ws[i])) =~= running_jobs(ws).add(state_jobs(s)));
    }
}

/// No worker is live exactly when every worker has terminated; then no job
/// is running either.
proof fn lemma_live_count_zero<T>(ws: Seq<WorkerState<T>>)
    ensures
        live_count(ws) == 0 <==> (forall|k: int| 0 <= k < ws.len() ==> ws[k] is Terminated),
        live_count(ws) == 0 ==> running_jobs(ws) == Multiset::<T>::empty(),
        running_count(ws) <= live_count(ws),
    decreases ws.len(),
{
    if ws.len() > 0 {
        lemma_live_count_zero(ws.drop_first());
        if live_count(ws) == 0 {
            assert forall|k: int| 0 <= k < ws.len() implies ws[k] is Terminated by {
                if k > 0 {
                    assert(ws.drop_first()[k - 1] is Terminated);
                }
            }
            assert(running_jobs(ws) =~= Multiset::<T>::empty());
        }
        if forall|k: int| 0 <= k < ws.len() ==> #[trigger] ws[k] is Terminated {
            assert forall|k: int|
                0 <= k < ws.drop_first().len() implies ws.drop_first()[k] is Terminated by {
                assert(ws.drop_first()[k] == ws[k + 1]);
            }
        }
    }
}

/// When no worker is running a job, no job is being run.
proof fn lemma_no_running<T>(ws: Seq<WorkerState<T>>)
    requires
        forall|k: int| 0 <= k < ws.len() ==> !(#[trigger] ws[k] is Running),
    ensures
        running_jobs(ws) == Multiset::<T>::empty(),
        running_count(ws) == 0,
    decreases ws.len(),
{
    if ws.len() > 0 {
        assert forall|k: int| 0 <= k < ws.drop_first().len() implies !(#[trigger] ws.drop_first()[k]
            is Running) by {
            assert(ws.drop_first()[k] == ws[k + 1]);
        }
        lemma_no_running(ws.drop_first());
        assert(running_jobs(ws) =~= Multiset::<T>::empty());
    }
}

/// No worker has terminated exactly when every worker counts as live.
proof fn lemma_live_count_full<T>(ws: Seq<WorkerState<T>>)
    requires
        forall|k: int| 0 <= k < ws.len() ==> !((#[trigger] ws[k]) is Terminated),
    ensures
        live_count(ws) == ws.len(),
    decreases ws.len(),
{
    if ws.len() > 0 {
        assert forall|k: int| 0 <= k < ws.drop_first().len() implies !((
        #[trigger] ws.drop_first()[k]) is Terminated) by {
            assert(ws.drop_first()[k] == ws[k + 1]);
        }
        lemma_live_count_full(ws.drop_first());
    }
}

/// A message sequence holds no stop signal exactly when none stands at any
/// position.
proof fn lemma_terminate_count_zero<T>(msgs: Seq<Message<T>>)
    ensures
        terminate_count(msgs) == 0 <==> (forall|k: int|
            0 <= k < msgs.len() ==> !((#[trigger] msgs[k]) is Terminate)),
    decreases msgs.len(),
{
    if msgs.len() > 0 {
        lemma_terminate_count_zero(msgs.drop_first());
        if terminate_count(msgs) == 0 {
            assert forall|k: int| 0 <= k < msgs.len() implies !((#[trigger] msgs[k]) is Terminate) by {
                if k > 0 {
                    assert(!(msgs.drop_first()[k - 1] is Terminate));
                }
            }
        }
        if forall|k: int| 0 <= k < msgs.len() ==> !((#[trigger] msgs[k]) is Terminate) {
            assert forall|k: int| 0 <= k < msgs.drop_first().len() implies !((
            #[trigger] msgs.drop_first()[k]) is Terminate) by {
                assert(msgs.drop_first()[k] == msgs[k + 1]);
            }
        }
    }
}

/// Jobs precede stop signals: once a stop signal stands in the queue,
/// everything behind it is a stop signal too.  This is how the protocol
/// guarantees that shutdown never overtakes pending work.
pub open spec fn stops_at_tail<T>(msgs: Seq<Message<T>>) -> bool {
    forall|a: int, b: int|
        0 <= a <= b < msgs.len() && (#[trigger] msgs[a]) is Terminate ==> (#[trigger] msgs[b])
            is Terminate
}

/// When jobs precede stop signals and a stop signal stands at the head, the
/// queue holds no job at all.
proof fn lemma_stops_only<T>(msgs: Seq<Message<T>>)
    requires
        stops_at_tail(msgs),
        msgs.len() > 0,
        msgs.first() is Terminate,
    ensures
        job_count(msgs) == 0,
    decreases msgs.len(),
{
    let rest = msgs.drop_first();
    if rest.len() > 0 {
        assert(msgs[1] is Terminate);
        assert(rest.first() == msgs[1]);
        assert forall|a: int, b: int|
            0 <= a <= b < rest.len() && (#[trigger] rest[a]) is Terminate implies (
        #[trigger] rest[b]) is Terminate by {
            assert(rest[a] == msgs[a + 1]);
            assert(rest[b] == msgs[b + 1]);
        }
        lemma_stops_only(rest);
    } else {
        assert(job_count(rest) == 0);
    }
    assert(job_count(msgs) == job_count(rest));
}

/// The fixed-size worker pool.  It owns its workers exclusively and the
/// sending half of the queue; the receiving half is shared by the workers.
///
/// A pool is created once with a fixed worker count, accepts `execute` calls
/// until it is torn down, and is torn down exactly once: teardown sends one
/// stop signal per worker and returns only after every worker has exited.
pub struct ThreadPool<T> {
    workers: Vec<Worker<T>>,
    queue: JobQueue<T>,
    torn_down: bool,
    completed: Vec<T>,
    submitted: Ghost<Seq<T>>,
}

impl<T> ThreadPool<T> {
    /// How many workers the pool owns; fixed at construction.
    pub closed spec fn size(self) -> nat {
        self.workers@.len()
    }

    /// The lifecycle state of each worker, in worker order.
    pub closed spec fn worker_states(self) -> Seq<WorkerState<T>> {
        self.workers@.map(|k: int, w: Worker<T>| w.state)
    }

    /// The messages enqueued and not yet received, head first.
    pub closed spec fn pending(self) -> Seq<Message<T>> {
        self.queue.messages()
    }

    /// The jobs that have been run to completion, in completion order.
    pub closed spec fn completed_jobs(self) -> Seq<T> {
        self.completed@
    }

    /// Every job ever accepted by `execute`, in submission order.
    pub closed spec fn submitted_jobs(self) -> Seq<T> {
        self.submitted@
    }

    /// Whether the pool has been torn down.
    pub closed spec fn is_torn_down(self) -> bool {
        self.torn_down
    }

    /// Conservation of jobs: every accepted job is either already completed,
    /// being run by exactly one worker, or still queued — and nothing else
    /// is.  The queue duplicates nothing and loses nothing.
    pub open spec fn accounted(self) -> bool {
        self.completed_jobs().to_multiset().add(running_jobs(self.worker_states())).add(
            job_multiset(self.pending()),
        ) == self.submitted_jobs().to_multiset()
    }

    /// Internal ties between the private parts: each worker carries its
    /// ordinal identity, and the queue is closed exactly when the pool has
    /// been torn down.
    pub closed spec fn inv(self) -> bool {
        &&& forall|k: int| 0 <= k < self.workers@.len() ==> (#[trigger] self.workers@[k].id) == k
        &&& self.queue.is_closed() == self.torn_down
    }

    /// Well-formedness: what holds of the pool between any two calls.
    /// Before teardown no stop signal is pending and no worker has stopped;
    /// after teardown the queue has been drained and every worker has
    /// stopped.  In either case every accepted job is accounted for.
    pub open spec fn wf(self) -> bool {
        &&& self.inv()
        &&& self.size() >= 1
        &&& self.accounted()
        &&& if self.is_torn_down() {
            &&& self.pending().len() == 0
            &&& forall|k: int|
                0 <= k < self.size() ==> (#[trigger] self.worker_states()[k]) is Terminated
        } else {
            &&& terminate_count(self.pending()) == 0
            &&& forall|k: int|
                0 <= k < self.size() ==> !((#[trigger] self.worker_states()[k]) is Terminated)
        }
    }

    /// Create a pool of `size` workers, every one idle, with an empty queue.
    /// Requesting zero workers is a programming error, excluded here; the
    /// checked entry point is `construct`.
    pub fn new(size: usize) -> (pool: ThreadPool<T>)
        requires
            crate::valid_pool_size(size),
        ensures
            pool.wf(),
            pool.size() == size,
            !pool.is_torn_down(),
            pool.submitted_jobs() == Seq::<T>::empty(),
            pool.completed_jobs() == Seq::<T>::empty(),
            pool.pending() == Seq::<Message<T>>::empty(),
            forall|k: int| 0 <= k < size ==> (#[trigger] pool.worker_states()[k]) is Idle,
    {
        let mut workers: Vec<Worker<T>> = Vec::new();
        let mut id: usize = 0;
        while id < size
            invariant
                id <= size,
                workers@.len() == id,
                forall|k: int|
                    0 <= k < id ==> (#[trigger] workers@[k]).id == k && workers@[k].state is Idle,
            decreases size - id,
        {
            workers.push(Worker { id, state: WorkerState::Idle });
            id = id + 1;
        }
        let pool = ThreadPool {
            workers,
            queue: JobQueue::new(),
            torn_down: false,
            completed: Vec::new(),
            submitted: Ghost(Seq::empty()),
        };
        proof {
            assert forall|k: int| 0 <= k < size implies (#[trigger] pool.worker_states()[k])
                is Idle by {
                assert(pool.worker_states()[k] == pool.workers@[k].state);
            }
            lemma_no_running(pool.worker_states());
            assert(pool.completed_jobs().to_multiset() =~= Multiset::<T>::empty());
            assert(pool.submitted_jobs().to_multiset() =~= Multiset::<T>::empty());
            assert(pool.accounted()) by {
                assert(pool.completed_jobs().to_multiset().add(
                    running_jobs(pool.worker_states()),
                ).add(job_multiset(pool.pending())) =~= Multiset::<T>::empty());
            }
        }
        pool
    }

    /// Submit one job.  The job is wrapped as a queue message and appended
    /// at the tail; the call never waits for a worker.  It succeeds exactly
    /// when the pool has not been torn down; afterwards the job is reported
    /// back as undeliverable, never dropped silently and never run.
    pub fn execute(&mut self, job: T) -> (r: Result<(), PoolError>)
        requires
            old(self).wf(),
        ensures
            final(self).wf(),
            old(self).is_torn_down() ==> r == Result::<(), PoolError>::Err(PoolError::Shutdown)
                && *final(self) == *old(self),
            !old(self).is_torn_down() ==> {
                &&& r == Result::<(), PoolError>::Ok(())
                &&& final(self).submitted_jobs() == old(self).submitted_jobs().push(job)
                &&& final(self).pending() == old(self).pending().push(Message::NewJob(job))
                &&& final(self).completed_jobs() == old(self).completed_jobs()
                &&& final(self).worker_states() == old(self).worker_states()
                &&& final(self).size() == old(self).size()
                &&& !final(self).is_torn_down()
            },
    {
        let ghost jv = job;
        match self.queue.enqueue(Message::NewJob(job)) {
            Ok(_) => {
                self.submitted = Ghost(self.submitted@.push(jv));
                proof {
                    lemma_append_message(old(self).pending(), Message::NewJob(jv));
                    assert(self.submitted_jobs().to_multiset() == old(
                        self,
                    ).submitted_jobs().to_multiset().insert(jv));
                    assert(self.accounted()) by {
                        assert(self.completed_jobs().to_multiset().add(
                            running_jobs(self.worker_states()),
                        ).add(job_multiset(self.pending())) =~= self.submitted_jobs().to_multiset());
                    }
                }
                Ok(())
            },
            Err(e) => Err(e),
        }
    }

    /// The receive step of the worker loop, structurally: worker `i` takes
    /// the head message if there is one, and moves to `Running` on a job or
    /// to `Terminated` on the stop signal.
    fn step_receive(&mut self, i: usize)
        requires
            i < old(self).workers@.len(),
            old(self).workers@[i as int].state is Idle,
        ensures
            final(self).torn_down == old(self).torn_down,
            final(self).completed == old(self).completed,
            final(self).submitted == old(self).submitted,
            final(self).queue.is_closed() == old(self).queue.is_closed(),
            old(self).queue.messages().len() == 0 ==> *final(self) == *old(self),
            old(self).queue.messages().len() > 0 ==> {
                &&& final(self).queue.messages() == old(self).queue.messages().drop_first()
                &&& final(self).workers@ == old(self).workers@.update(i as int, (Worker {
                    id: old(self).workers@[i as int].id,
                    state: match old(self).queue.messages().first() {
                        Message::NewJob(j) => WorkerState::Running(j),
                        Message::Terminate => WorkerState::Terminated,
                    },
                }))
            },
    {
        match self.queue.receive() {
            None => {},
            Some(m) => {
                let w = self.workers.remove(i);
                let state = match m {
                    Message::NewJob(j) => WorkerState::Running(j),
                    Message::Terminate => WorkerState::Terminated,
                };
                self.workers.insert(i, Worker { id: w.id, state });
                proof {
                    assert(self.workers@ =~= old(self).workers@.update(i as int, (Worker {
                        id: old(self).workers@[i as int].id,
                        state: match old(self).queue.messages().first() {
                            Message::NewJob(j) => WorkerState::Running(j),
                            Message::Terminate => WorkerState::Terminated,
                        },
                    })));
                }
            },
        }
    }

    /// The completion step of the worker loop, structurally: worker `i`
    /// finishes the job it is running, appends it to the completion log, and
    /// goes back to waiting.
    fn step_complete(&mut self, i: usize)
        requires
            i < old(self).workers@.len(),
            old(self).workers@[i as int].state is Running,
        ensures
            final(self).torn_down == old(self).torn_down,
            final(self).submitted == old(self).submitted,
            final(self).queue == old(self).queue,
            (old(self).workers@[i as int].state matches WorkerState::Running(j) ==> {
                &&& final(self).completed@ == old(self).completed@.push(j)
                &&& final(self).workers@ == old(self).workers@.update(i as int, (Worker {
                    id: old(self).workers@[i as int].id,
                    state: WorkerState::Idle,
                }))
            }),
    {
        let w = self.workers.remove(i);
        match w.state {
            WorkerState::Running(job) => {
                self.completed.push(job);
                self.workers.insert(i, Worker { id: w.id, state: WorkerState::Idle });
                proof {
                    assert(self.workers@ =~= old(self).workers@.update(i as int, (Worker {
                        id: old(self).workers@[i as int].id,
                        state: WorkerState::Idle,
                    })));
                }
            },
            other => {
                self.workers.insert(i, Worker { id: w.id, state: other });
                proof {
                    assert(self.workers@ =~= old(self).workers@);
                }
            },
        }
    }

    /// One idle worker receives the next message, if any.  Exactly one
    /// worker takes each message: the head message leaves the queue in the
    /// same call that hands it to worker `i`, so no other worker can observe
    /// it.  In a well-formed pool a pending message is always a job, so the
    /// worker moves to `Running`; the stop signal is consumed only inside
    /// `teardown`.
    pub fn worker_receive(&mut self, i: usize)
        requires
            old(self).wf(),
            i < old(self).size(),
            old(self).worker_states()[i as int] is Idle,
        ensures
            final(self).wf(),
            final(self).size() == old(self).size(),
            final(self).submitted_jobs() == old(self).submitted_jobs(),
            final(self).completed_jobs() == old(self).completed_jobs(),
            final(self).is_torn_down() == old(self).is_torn_down(),
            old(self).pending().len() == 0 ==> *final(self) == *old(self),
            old(self).pending().len() > 0 ==> {
                &&& old(self).pending().first() is NewJob
                &&& final(self).pending() == old(self).pending().drop_first()
                &&& final(self).worker_states() == old(self).worker_states().update(
                    i as int,
                    (match old(self).pending().first() {
                        Message::NewJob(j) => WorkerState::Running(j),
                        Message::Terminate => WorkerState::Terminated,
                    }),
                )
            },
    {
        proof {
            if old(self).pending().len() > 0 {
                assert(!old(self).is_torn_down());
                assert(old(self).pending().first() is NewJob) by {
                    assert(terminate_count(old(self).pending()) == 0);
                }
            }
        }
        self.step_receive(i);
        proof {
            if old(self).pending().len() > 0 {
                let states0 = old(self).worker_states();
                let j = old(self).pending().first()->NewJob_0;
                let w1 = (Worker {
                    id: old(self).workers@[i as int].id,
                    state: WorkerState::<T>::Running(j),
                });
                assert(self.workers@ == old(self).workers@.update(i as int, w1));
                assert(self.worker_states() =~= states0.update(
                    i as int,
                    WorkerState::<T>::Running(j),
                )) by {
                    assert forall|k: int| 0 <= k < self.workers@.len() implies
                        self.worker_states()[k] == states0.update(
                        i as int,
                        WorkerState::<T>::Running(j),
                    )[k] by {
                        assert(self.worker_states()[k] == self.workers@[k].state);
                        assert(states0[k] == old(self).workers@[k].state);
                    }
                }
                lemma_update_state(states0, i as int, WorkerState::<T>::Running(j));
                assert(self.accounted()) by {
                    assert(job_multiset(old(self).pending()) == Multiset::empty().insert(j).add(
                        job_multiset(self.pending()),
                    ));
                    assert forall|v: T|
                        self.completed_jobs().to_multiset().add(
                            running_jobs(self.worker_states()),
                        ).add(job_multiset(self.pending())).count(v) == self.submitted_jobs().to_multiset().count(
                        v,
                    ) by {
                        assert(running_jobs(self.worker_states()).add(state_jobs(states0[i as int])).count(
                            v,
                        ) == running_jobs(states0).add(
                            state_jobs(WorkerState::<T>::Running(j)),
                        ).count(v));
                    }
                    assert(self.completed_jobs().to_multiset().add(
                        running_jobs(self.worker_states()),
                    ).add(job_multiset(self.pending())) =~= self.submitted_jobs().to_multiset());
                }
                assert forall|k: int| 0 <= k < self.size() implies !((
                #[trigger] self.worker_states()[k]) is Terminated) by {}
                assert forall|k: int| 0 <= k < self.workers@.len() implies (
                #[trigger] self.workers@[k].id) == k by {}
            }
        }
    }

    /// One running worker finishes its job: the job is appended to the
    /// completion log — it has now been run exactly once — and the worker
    /// goes back to waiting for the next message.
    pub fn complete_job(&mut self, i: usize)
        requires
            old(self).wf(),
            i < old(self).size(),
            old(self).worker_states()[i as int] is Running,
        ensures
            final(self).wf(),
            final(self).size() == old(self).size(),
            final(self).submitted_jobs() == old(self).submitted_jobs(),
            final(self).pending() == old(self).pending(),
            final(self).is_torn_down() == old(self).is_torn_down(),
            final(self).worker_states() == old(self).worker_states().update(
                i as int,
                WorkerState::<T>::Idle,
            ),
            (old(self).worker_states()[i as int] matches WorkerState::Running(j) ==> final(self).completed_jobs()
                == old(self).completed_jobs().push(j)),
    {
        self.step_complete(i);
        proof {
            let states0 = old(self).worker_states();
            let j = states0[i as int]->Running_0;
            assert(!old(self).is_torn_down());
            assert(self.worker_states() =~= states0.update(i as int, WorkerState::<T>::Idle)) by {
                assert forall|k: int| 0 <= k < self.workers@.len() implies self.worker_states()[k]
                    == states0.update(i as int, WorkerState::<T>::Idle)[k] by {
                    assert(self.worker_states()[k] == self.workers@[k].state);
                    assert(states0[k] == old(self).workers@[k].state);
                }
            }
            lemma_update_state(states0, i as int, WorkerState::<T>::Idle);
            assert(self.accounted()) by {
                assert(self.completed_jobs().to_multiset() == old(self).completed_jobs().to_multiset().insert(j));
                assert forall|v: T|
                    self.completed_jobs().to_multiset().add(running_jobs(self.worker_states())).add(
                        job_multiset(self.pending()),
                    ).count(v) == self.submitted_jobs().to_multiset().count(v) by {
                    assert(running_jobs(self.worker_states()).add(state_jobs(states0[i as int])).count(
                        v,
                    ) == running_jobs(states0).add(state_jobs(WorkerState::<T>::Idle)).count(v));
                }
                assert(self.completed_jobs().to_multiset().add(
                    running_jobs(self.worker_states()),
                ).add(job_multiset(self.pending())) =~= self.submitted_jobs().to_multiset());
            }
            assert forall|k: int| 0 <= k < self.size() implies !((
            #[trigger] self.worker_states()[k]) is Terminated) by {}
            assert forall|k: int| 0 <= k < self.workers@.len() implies (
            #[trigger] self.workers@[k].id) == k by {}
        }
    }

    /// Find a worker that has not terminated, if any remains.
    fn find_live(&self) -> (r: Option<usize>)
        ensures
            r is None ==> live_count(self.worker_states()) == 0,
            (r matches Some(i) ==> i < self.workers@.len() && !(self.worker_states()[i as int]
                is Terminated)),
    {
        let n = self.workers.len();
        let mut k: usize = 0;
        while k < n
            invariant
                k <= n,
                n == self.workers@.len(),
                forall|t: int| 0 <= t < k ==> (#[trigger] self.worker_states()[t]) is Terminated,
            decreases n - k,
        {
            let live = !matches!(&self.workers[k].state, WorkerState::Terminated);
            proof {
                assert(self.worker_states()[k as int] == self.workers@[k as int].state);
            }
            if live {
                return Some(k);
            }
            k = k + 1;
        }
        proof {
            lemma_live_count_zero(self.worker_states());
        }
        None
    }

    /// Whether worker `i` is in the middle of running a job.
    pub fn worker_running(&self, i: usize) -> (r: bool)
        requires
            i < self.size(),
        ensures
            r == (self.worker_states()[i as int] is Running),
    {
        proof {
            assert(self.worker_states()[i as int] == self.workers@[i as int].state);
        }
        matches!(&self.workers[i].state, WorkerState::Running(_))
    }

    /// Whether worker `i` has consumed its stop signal and exited.
    pub fn worker_terminated(&self, i: usize) -> (r: bool)
        requires
            i < self.size(),
        ensures
            r == (self.worker_states()[i as int] is Terminated),
    {
        proof {
            assert(self.worker_states()[i as int] == self.workers@[i as int].state);
        }
        matches!(&self.workers[i].state, WorkerState::Terminated)
    }

    /// How many workers the pool owns.
    pub fn worker_count(&self) -> (n: usize)
        ensures
            n == self.size(),
    {
        self.workers.len()
    }

    /// The jobs that have been run to completion, in completion order.
    pub fn completed_log(&self) -> (log: &Vec<T>)
        ensures
            log@ == self.completed_jobs(),
    {
        &self.completed
    }

    /// How many messages are waiting in the queue.
    pub fn pending_count(&self) -> (n: usize)
        ensures
            n == self.pending().len(),
    {
        self.queue.len()
    }

    /// Whether the pool has been torn down.
    pub fn is_shut_down(&self) -> (b: bool)
        ensures
            b == self.is_torn_down(),
    {
        self.torn_down
    }

    /// Tear the pool down: enqueue exactly one stop signal per worker, then
    /// wait until every worker has finished whatever it was doing, drained
    /// the pending jobs, and consumed its stop signal.  The call returns
    /// only when every worker has stopped and every accepted job has been
    /// run exactly once — and it always returns, even with no job pending,
    /// because jobs precede stop signals in the queue and each stop signal
    /// stops exactly one worker.  Tearing down an already-torn-down pool is
    /// reported as an error, not repeated and not deadlocked.
    pub fn teardown(&mut self) -> (r: Result<(), PoolError>)
        requires
            old(self).wf(),
        ensures
            final(self).wf(),
            old(self).is_torn_down() ==> r == Result::<(), PoolError>::Err(PoolError::Shutdown)
                && *final(self) == *old(self),
            !old(self).is_torn_down() ==> {
                &&& r == Result::<(), PoolError>::Ok(())
                &&& final(self).is_torn_down()
                &&& final(self).size() == old(self).size()
                &&& final(self).submitted_jobs() == old(self).submitted_jobs()
                &&& final(self).pending().len() == 0
                &&& forall|k: int|
                    0 <= k < final(self).size() ==> (#[trigger] final(self).worker_states()[k])
                        is Terminated
                &&& final(self).completed_jobs().to_multiset() == old(
                    self,
                ).submitted_jobs().to_multiset()
                &&& final(self).completed_jobs().len() == old(self).submitted_jobs().len()
            },
    {
        if self.torn_down {
            return Err(PoolError::Shutdown);
        }
        let n = self.workers.len();
        proof {
            lemma_terminate_count_zero(old(self).pending());
            lemma_live_count_full(old(self).worker_states());
        }
        // One stop signal per worker, behind all pending jobs.
        let mut k: usize = 0;
        while k < n
            invariant
                k <= n,
                n == self.workers@.len(),
                self.workers == old(self).workers,
                self.completed == old(self).completed,
                self.submitted == old(self).submitted,
                self.torn_down == false,
                !self.queue.is_closed(),
                old(self).wf(),
                !old(self).is_torn_down(),
                job_multiset(self.pending()) == job_multiset(old(self).pending()),
                job_count(self.pending()) == job_count(old(self).pending()),
                terminate_count(self.pending()) == k,
                stops_at_tail(self.pending()),
            decreases n - k,
        {
            let ghost before = self.pending();
            let _ = self.queue.enqueue(Message::Terminate);
            proof {
                lemma_append_message(before, Message::Terminate::<T>);
                assert(stops_at_tail(self.pending())) by {
                    assert forall|a: int, b: int|
                        0 <= a <= b < self.pending().len() && (#[trigger] self.pending()[a])
                            is Terminate implies (#[trigger] self.pending()[b]) is Terminate by {
                        if b < before.len() {
                            assert(self.pending()[a] == before[a]);
                            assert(self.pending()[b] == before[b]);
                        } else {
                            assert(self.pending()[b] == Message::Terminate::<T>);
                        }
                    }
                }
            }
            k = k + 1;
        }
        // Drain: every live worker finishes its job, takes the remaining
        // jobs, and finally consumes its own stop signal.
        proof {
            assert(self.accounted()) by {
                assert(self.completed_jobs().to_multiset().add(
                    running_jobs(self.worker_states()),
                ).add(job_multiset(self.pending())) =~= self.submitted_jobs().to_multiset());
            }
            assert(live_count(self.worker_states()) == n);
        }
        loop
            invariant
                n >= 1,
                n == self.workers@.len(),
                forall|t: int| 0 <= t < self.workers@.len() ==> (#[trigger] self.workers@[t].id) == t,
                self.torn_down == false,
                !self.queue.is_closed(),
                self.submitted == old(self).submitted,
                self.accounted(),
                stops_at_tail(self.pending()),
                terminate_count(self.pending()) == live_count(self.worker_states()),
                job_count(self.pending()) > 0 ==> live_count(self.worker_states()) == n,
            ensures
                n == self.workers@.len(),
                forall|t: int| 0 <= t < self.workers@.len() ==> (#[trigger] self.workers@[t].id) == t,
                self.torn_down == false,
                !self.queue.is_closed(),
                self.submitted == old(self).submitted,
                self.accounted(),
                terminate_count(self.pending()) == 0,
                job_count(self.pending()) > 0 ==> live_count(self.worker_states()) == n,
                live_count(self.worker_states()) == 0,
            decreases 2 * self.pending().len() + running_count(self.worker_states()) + live_count(
                self.worker_states(),
            ),
        {
            let pick = self.find_live();
            match pick {
                None => {
                    break ;
                },
                Some(i) => {
                    let ghost states0 = self.worker_states();
                    let ghost msgs0 = self.pending();
                    let ghost completed0 = self.completed_jobs();
                    if self.worker_running(i) {
                        let ghost j = states0[i as int]->Running_0;
                        self.step_complete(i);
                        proof {
                            assert(self.worker_states() =~= states0.update(
                                i as int,
                                WorkerState::<T>::Idle,
                            )) by {
                                assert forall|t: int| 0 <= t < self.workers@.len() implies
                                    self.worker_states()[t] == states0.update(
                                    i as int,
                                    WorkerState::<T>::Idle,
                                )[t] by {
                                    assert(self.worker_states()[t] == self.workers@[t].state);
                                }
                            }
                            lemma_update_state(states0, i as int, WorkerState::<T>::Idle);
                            assert(self.accounted()) by {
                                assert(self.completed_jobs().to_multiset()
                                    == completed0.to_multiset().insert(j));
                                assert forall|v: T|
                                    self.completed_jobs().to_multiset().add(
                                        running_jobs(self.worker_states()),
                                    ).add(job_multiset(self.pending())).count(v)
                                        == self.submitted_jobs().to_multiset().count(v) by {
                                    assert(running_jobs(self.worker_states()).add(
                                        state_jobs(states0[i as int]),
                                    ).count(v) == running_jobs(states0).add(
                                        state_jobs(WorkerState::<T>::Idle),
                                    ).count(v));
                                }
                                assert(self.completed_jobs().to_multiset().add(
                                    running_jobs(self.worker_states()),
                                ).add(job_multiset(self.pending()))
                                    =~= self.submitted_jobs().to_multiset());
                            }
                        }
                    } else {
                        proof {
                            lemma_live_count_zero(states0);
                            assert(live_count(states0) > 0);
                            lemma_counts_partition(msgs0);
                            assert(msgs0.len() > 0);
                        }
                        self.step_receive(i);
                        proof {
                            let m = msgs0.first();
                            let ghost s1 = match m {
                                Message::NewJob(j) => WorkerState::<T>::Running(j),
                                Message::Terminate => WorkerState::<T>::Terminated,
                            };
                            assert(self.worker_states() =~= states0.update(i as int, s1)) by {
                                assert forall|t: int| 0 <= t < self.workers@.len() implies
                                    self.worker_states()[t] == states0.update(i as int, s1)[t] by {
                                    assert(self.worker_states()[t] == self.workers@[t].state);
                                }
                            }
                            lemma_update_state(states0, i as int, s1);
                            assert(stops_at_tail(self.pending())) by {
                                assert forall|a: int, b: int|
                                    0 <= a <= b < self.pending().len() && (
                                    #[trigger] self.pending()[a]) is Terminate implies (
                                    #[trigger] self.pending()[b]) is Terminate by {
                                    assert(self.pending()[a] == msgs0[a + 1]);
                                    assert(self.pending()[b] == msgs0[b + 1]);
                                }
                            }
                            if m is Terminate {
                                lemma_stops_only(msgs0);
                            }
                            assert(self.accounted()) by {
                                assert(job_multiset(msgs0) == message_jobs(m).add(
                                    job_multiset(self.pending()),
                                ));
                                assert forall|v: T|
                                    self.completed_jobs().to_multiset().add(
                                        running_jobs(self.worker_states()),
                                    ).add(job_multiset(self.pending())).count(v)
                                        == self.submitted_jobs().to_multiset().count(v) by {
                                    assert(running_jobs(self.worker_states()).add(
                                        state_jobs(states0[i as int]),
                                    ).count(v) == running_jobs(states0).add(state_jobs(s1)).count(
                                        v,
                                    ));
                                }
                                assert(self.completed_jobs().to_multiset().add(
                                    running_jobs(self.worker_states()),
                                ).add(job_multiset(self.pending()))
                                    =~= self.submitted_jobs().to_multiset());
                            }
                        }
                    }
                },
            }
        }
        proof {
            lemma_live_count_zero(self.worker_states());
            lemma_counts_partition(self.pending());
            assert(self.pending().len() == 0);
            assert(self.completed_jobs().to_multiset() == self.submitted_jobs().to_multiset()) by {
                assert(job_multiset(self.pending()) =~= Multiset::<T>::empty());
                assert(self.completed_jobs().to_multiset() =~= self.completed_jobs().to_multiset().add(
                    running_jobs(self.worker_states()),
                ).add(job_multiset(self.pending())));
            }
        }
        self.queue.close();
        self.torn_down = true;
        proof {
            assert(self.completed_jobs().len() == self.completed_jobs().to_multiset().len());
            assert(self.submitted_jobs().len() == self.submitted_jobs().to_multiset().len());
        }
        Ok(())
    }

    /// The checked constructor: rejects a zero-size request with an error,
    /// before any worker exists, and otherwise hands back a fresh pool.
    pub fn construct(size: usize) -> (r: Result<ThreadPool<T>, PoolError>)
        ensures
            size == 0 <==> r is Err,
            (match r {
                Ok(pool) => {
                    &&& pool.wf()
                    &&& pool.size() == size
                    &&& !pool.is_torn_down()
                    &&& pool.submitted_jobs() == Seq::<T>::empty()
                    &&& pool.completed_jobs() == Seq::<T>::empty()
                    &&& pool.pending() == Seq::<Message<T>>::empty()
                    &&& forall|k: int| 0 <= k < size ==> (#[trigger] pool.worker_states()[k]) is Idle
                },
                Err(e) => e == PoolError::ZeroSize,
            }),
    {
        if size == 0 {
            Err(PoolError::ZeroSize)
        } else {
            Ok(Self::new(size))
        }
    }
}

/// The in-flight jobs are exactly as many as the running workers, and
/// never more than there are workers.
proof fn lemma_running_jobs_len<T>(ws: Seq<WorkerState<T>>)
    ensures
        running_jobs(ws).len() == running_count(ws),
        live_count(ws) <= ws.len(),
    decreases ws.len(),
{
    if ws.len() > 0 {
        lemma_running_jobs_len(ws.drop_first());
    }
}

/// Law: each worker runs at most one job at a time, so the jobs in flight
/// across the whole pool never outnumber the workers still live, at any
/// well-formed state.
pub proof fn lemma_one_job_per_worker<T>(pool: ThreadPool<T>)
    requires
        pool.wf(),
    ensures
        running_jobs(pool.worker_states()).len() <= live_count(pool.worker_states()),
        live_count(pool.worker_states()) <= pool.size(),
{
    lemma_running_jobs_len(pool.worker_states());
    lemma_live_count_zero(pool.worker_states());
}

/// Law: the pool never duplicates work.  At any well-formed state, a job
/// value stands in the completion log at most as often as it was submitted,
/// whatever interleaving of submissions, receives, completions and teardown
/// led there.
pub proof fn lemma_no_duplicate_execution<T>(pool: ThreadPool<T>, j: T)
    requires
        pool.wf(),
    ensures
        pool.completed_jobs().to_multiset().count(j) <= pool.submitted_jobs().to_multiset().count(
            j,
        ),
{
}

/// Law: when the submitted jobs are pairwise distinct, no job is ever run
/// twice across the whole pool — the completion log holds no duplicate, at
/// any well-formed state.
pub proof fn lemma_distinct_jobs_run_once<T>(pool: ThreadPool<T>)
    requires
        pool.wf(),
        pool.submitted_jobs().no_duplicates(),
    ensures
        pool.completed_jobs().no_duplicates(),
{
    pool.submitted_jobs().lemma_multiset_has_no_duplicates();
    assert forall|x: T| pool.completed_jobs().to_multiset().contains(x) implies
        pool.completed_jobs().to_multiset().count(x) == 1 by {
        lemma_no_duplicate_execution(pool, x);
        assert(pool.submitted_jobs().to_multiset().count(x) >= 1);
        assert(pool.submitted_jobs().to_multiset().contains(x));
    }
    pool.completed_jobs().lemma_multiset_has_no_duplicates_conv();
}

/// Law: every job completed so far was really submitted, and after teardown
/// the completion log is, as a multiset, exactly the submitted jobs: each
/// enqueued job was received by one worker and run exactly once.
pub proof fn lemma_exactly_once_after_teardown<T>(pool: ThreadPool<T>)
    requires
        pool.wf(),
        pool.is_torn_down(),
    ensures
        pool.completed_jobs().to_multiset() == pool.submitted_jobs().to_multiset(),
        pool.completed_jobs().len() == pool.submitted_jobs().len(),
{
    lemma_live_count_zero(pool.worker_states());
    assert(live_count(pool.worker_states()) == 0);
    assert(pool.completed_jobs().to_multiset() == pool.submitted_jobs().to_multiset()) by {
        assert(job_multiset(pool.pending()) =~= Multiset::<T>::empty());
        assert(pool.completed_jobs().to_multiset() =~= pool.completed_jobs().to_multiset().add(
            running_jobs(pool.worker_states()),
        ).add(job_multiset(pool.pending())));
    }
    assert(pool.completed_jobs().len() == pool.completed_jobs().to_multiset().len());
    assert(pool.submitted_jobs().len() == pool.submitted_jobs().to_multiset().len());
}

} // verus!
