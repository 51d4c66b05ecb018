//! The job queue: the ordered channel that carries jobs and shutdown signals
//! from submitters to workers.
//!
//! The queue is the single transport between the pool and its workers.  It
//! carries `Message` values: either one unit of work or the out-of-band stop
//! signal.  Enqueue appends at the tail; receive removes from the head, so
//! delivery order matches enqueue order.  Once the queue is closed (all
//! consumers are gone), enqueue reports an error instead of dropping the
//! message silently.

use vstd::prelude::*;
use vstd::multiset::Multiset;

verus! {

/// The only payload type ever placed on the queue: one unit of work, or the
/// poison pill that tells a worker to stop.
pub enum Message<T> {
    /// One submitted job, to be run exactly once by whichever worker
    /// receives it.
    NewJob(T),
    /// The out-of-band stop signal; the worker that receives it exits its
    /// loop and never receives again.
    Terminate,
}

/// Errors the pool and its queue report to callers.
#[derive(Clone, Copy, Debug, PartialEq, Eq, Structural)]
pub enum PoolError {
    /// A pool with zero workers was requested.
    ZeroSize,
    /// The pool has been torn down; no consumer remains to take the message.
    Shutdown,
}

/// The jobs carried by one message: one job for `NewJob`, none for
/// `Terminate`.
pub open spec fn message_jobs<T>(m: Message<T>) -> Multiset<T> {
    match m {
        Message::NewJob(j) => Multiset::empty().insert(j),
        Message::Terminate => Multiset::empty(),
    }
}

/// The multiset of jobs carried by a sequence of messages.
pub open spec fn job_multiset<T>(msgs: Seq<Message<T>>) -> Multiset<T>
    decreases msgs.len(),
{
    if msgs.len() == 0 {
        Multiset::empty()
    } else {
        message_jobs(msgs.first()).add(job_multiset(msgs.drop_first()))
    }
}

/// How many `NewJob` messages a sequence of messages holds.
pub open spec fn job_count<T>(msgs: Seq<Message<T>>) -> nat
    decreases msgs.len(),
{
    if msgs.len() == 0 {
        0
    } else {
        (if msgs.first() is NewJob {
            1nat
        } else {
            0nat
        }) + job_count(msgs.drop_first())
    }
}

/// How many `Terminate` messages a sequence of messages holds.
pub open spec fn terminate_count<T>(msgs: Seq<Message<T>>) -> nat
    decreases msgs.len(),
{
    if msgs.len() == 0 {
        0
    } else {
        (if msgs.first() is Terminate {
            1nat
        } else {
            0nat
        }) + terminate_count(msgs.drop_first())
    }
}

/// Every message is either a job or a stop signal, so the two counts
/// partition the sequence.
pub proof fn lemma_counts_partition<T>(msgs: Seq<Message<T>>)
    ensures
        job_count(msgs) + terminate_count(msgs) == msgs.len(),
    decreases msgs.len(),
{
    if msgs.len() > 0 {
        lemma_counts_partition(msgs.drop_first());
    }
}

/// Appending a message at the tail adds exactly its contribution to the job
/// multiset and to both counts.
pub proof fn lemma_append_message<T>(msgs: Seq<Message<T>>, m: Message<T>)
    ensures
        job_multiset(msgs.push(m)) == job_multiset(msgs).add(message_jobs(m)),
        job_count(msgs.push(m)) == job_count(msgs) + (if m is NewJob {
            1nat
        } else {
            0nat
        }),
        terminate_count(msgs.push(m)) == terminate_count(msgs) + (if m is Terminate {
            1nat
        } else {
            0nat
        }),
    decreases msgs.len(),
{
    if msgs.len() == 0 {
        assert(msgs.push(m).drop_first() =~= msgs);
        assert(job_multiset(msgs.push(m)) =~= job_multiset(msgs).add(message_jobs(m)));
    } else {
        assert(msgs.push(m).drop_first() =~= msgs.drop_first().push(m));
        lemma_append_message(msgs.drop_first(), m);
        assert(job_multiset(msgs.push(m)) =~= job_multiset(msgs).add(message_jobs(m)));
    }
}

/// The single-producer / multi-consumer channel, modelled as the sequence of
/// messages that have been enqueued and not yet received.  The mutual
/// exclusion that guards the real receiving endpoint is reflected here by
/// `receive` taking the whole queue exclusively: two workers can never
/// observe and remove the same head message.
pub struct JobQueue<T> {
    items: Vec<Message<T>>,
    closed: bool,
}

impl<T> JobQueue<T> {
    /// The messages currently in transit, head first.
    pub closed spec fn messages(self) -> Seq<Message<T>> {
        self.items@
    }

    /// Whether every consumer is gone, so that nothing enqueued now would
    /// ever be received.
    pub closed spec fn is_closed(self) -> bool {
        self.closed
    }

    /// An empty, open queue.
    pub fn new() -> (q: JobQueue<T>)
        ensures
            q.messages() == Seq::<Message<T>>::empty(),
            !q.is_closed(),
    {
        JobQueue { items: Vec::new(), closed: false }
    }

    /// Append one message at the tail.  Never blocks; fails exactly when the
    /// queue is closed, and then leaves the queue unchanged and reports the
    /// message as undeliverable rather than dropping it silently.
    pub fn enqueue(&mut self, m: Message<T>) -> (r: Result<(), PoolError>)
        ensures
            old(self).is_closed() ==> r == Result::<(), PoolError>::Err(PoolError::Shutdown)
                && *final(self) == *old(self),
            !old(self).is_closed() ==> r == Result::<(), PoolError>::Ok(())
                && final(self).messages() == old(self).messages().push(m)
                && !final(self).is_closed(),
    {
        if self.closed {
            Err(PoolError::Shutdown)
        } else {
            self.items.push(m);
            Ok(())
        }
    }

    /// Remove and return the head message, or report that the queue is
    /// empty.  In the running pool a worker blocks instead of seeing `None`;
    /// the model returns so that a caller can drive the workers explicitly.
    pub fn receive(&mut self) -> (r: Option<Message<T>>)
        ensures
            old(self).messages().len() == 0 ==> r is None && *final(self) == *old(self),
            old(self).messages().len() > 0 ==> r == Some(old(self).messages().first())
                && final(self).messages() == old(self).messages().drop_first()
                && final(self).is_closed() == old(self).is_closed(),
    {
        if self.items.len() == 0 {
            None
        } else {
            let m = self.items.remove(0);
            assert(old(self).messages().remove(0) =~= old(self).messages().drop_first());
            Some(m)
        }
    }

    /// How many messages are in transit.
    pub fn len(&self) -> (n: usize)
        ensures
            n == self.messages().len(),
    {
        self.items.len()
    }

    /// Mark the queue closed: no consumer remains, so every later enqueue
    /// fails.
    pub fn close(&mut self)
        ensures
            final(self).is_closed(),
            final(self).messages() == old(self).messages(),
    {
        self.closed = true;
    }
}

} // verus!
