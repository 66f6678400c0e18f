//! The dispatcher's work queue: requests are accepted while the queue is
//! open and served strictly in arrival order, one at a time.
//!
//! The owning worker drains the queue and runs each request to completion
//! before taking the next, so the chunk streams of two requests can never
//! interleave; [`lemma_serial_execution_no_interleaving`] states that of the
//! resulting schedule.

use vstd::prelude::*;

use crate::error::GenerationError;

verus! {

/// The mathematical state of a dispatcher queue.
#[verifier::ext_equal]
pub ghost struct DispatcherModel<T> {
    /// Pending requests, oldest first.
    pub queue: Seq<T>,
    /// Whether the queue has been closed to new requests.
    pub closed: bool,
}

/// A FIFO work queue with explicit shutdown.
pub struct Dispatcher<T> {
    queue: Vec<T>,
    closed: bool,
}

impl<T> View for Dispatcher<T> {
    type V = DispatcherModel<T>;

    closed spec fn view(&self) -> DispatcherModel<T> {
        DispatcherModel { queue: self.queue@, closed: self.closed }
    }
}

impl<T> Dispatcher<T> {
    /// An open, empty queue.
    pub fn new() -> (d: Dispatcher<T>)
        ensures
            d@.queue.len() == 0,
            !d@.closed,
    {
        Dispatcher { queue: Vec::new(), closed: false }
    }

    /// Enqueue a request. It is rejected with
    /// [`GenerationError::ModelStopped`] exactly when the queue has been
    /// closed; otherwise it joins the back of the queue.
    pub fn submit(&mut self, task: T) -> (r: Result<(), GenerationError>)
        ensures
            old(self)@.closed ==> {
                &&& r == Result::<(), GenerationError>::Err(GenerationError::ModelStopped)
                &&& final(self)@ == old(self)@
            },
            !old(self)@.closed ==> {
                &&& r is Ok
                &&& final(self)@.queue == old(self)@.queue.push(task)
                &&& !final(self)@.closed
            },
    {
        if self.closed {
            return Err(GenerationError::ModelStopped);
        }
        self.queue.push(task);
        Ok(())
    }

    /// Close the queue: no request is accepted after this.
    pub fn close(&mut self)
        ensures
            final(self)@.closed,
            final(self)@.queue == old(self)@.queue,
    {
        self.closed = true;
    }

    /// Whether the queue has been closed.
    pub fn is_closed(&self) -> (r: bool)
        ensures
            r == self@.closed,
    {
        self.closed
    }

    /// How many requests are waiting.
    pub fn pending(&self) -> (n: usize)
        ensures
            n == self@.queue.len(),
    {
        self.queue.len()
    }

    /// Take the oldest pending request, if any: strict FIFO order.
    pub fn take_next(&mut self) -> (r: Option<T>)
        ensures
            final(self)@.closed == old(self)@.closed,
            old(self)@.queue.len() == 0 ==> {
                &&& r is None
                &&& final(self)@ == old(self)@
            },
            old(self)@.queue.len() > 0 ==> {
                &&& (match r {
                    Option::Some(t) => t == old(self)@.queue[0],
                    Option::None => false,
                })
                &&& final(self)@.queue == old(self)@.queue.drop_first()
            },
    {
        if self.queue.len() == 0 {
            return Option::None;
        }
        let t = self.queue.remove(0);
        proof {
            assert(self@.queue =~= old(self)@.queue.drop_first());
        }
        Option::Some(t)
    }
}

/// Chunks of one request, each tagged with that request's queue position.
pub open spec fn tag_chunks(idx: int, chunks: Seq<Seq<char>>) -> Seq<(int, Seq<char>)> {
    chunks.map_values(|c: Seq<char>| (idx, c))
}

/// The output schedule of a worker that serves requests one at a time in
/// queue order: all chunks of request `idx`, then all chunks of the next.
pub open spec fn serial_schedule(outputs: Seq<Seq<Seq<char>>>, idx: int) -> Seq<(int, Seq<char>)>
    decreases outputs.len(),
{
    if outputs.len() == 0 {
        Seq::empty()
    } else {
        tag_chunks(idx, outputs[0]) + serial_schedule(outputs.drop_first(), idx + 1)
    }
}

/// Every tag in a serial schedule is at least the starting index.
proof fn lemma_serial_schedule_tags(outputs: Seq<Seq<Seq<char>>>, idx: int)
    ensures
        forall|k: int|
            0 <= k < serial_schedule(outputs, idx).len() ==> (#[trigger] serial_schedule(
                outputs,
                idx,
            )[k]).0 >= idx,
    decreases outputs.len(),
{
    if outputs.len() > 0 {
        let head = tag_chunks(idx, outputs[0]);
        let rest = serial_schedule(outputs.drop_first(), idx + 1);
        lemma_serial_schedule_tags(outputs.drop_first(), idx + 1);
        assert forall|k: int| 0 <= k < serial_schedule(outputs, idx).len() implies (
        #[trigger] serial_schedule(outputs, idx)[k]).0 >= idx by {
            if k < head.len() {
                assert(serial_schedule(outputs, idx)[k] == head[k]);
                assert(head[k].0 == idx);
            } else {
                assert(serial_schedule(outputs, idx)[k] == rest[k - head.len()]);
            }
        }
    }
}

/// Serial execution never interleaves requests: in the schedule, every chunk
/// of an earlier request precedes every chunk of a later one, so the tags
/// are non-decreasing.
pub proof fn lemma_serial_execution_no_interleaving(outputs: Seq<Seq<Seq<char>>>, idx: int)
    ensures
        forall|a: int, b: int|
            0 <= a <= b < serial_schedule(outputs, idx).len() ==> (#[trigger] serial_schedule(
                outputs,
                idx,
            )[a]).0 <= (#[trigger] serial_schedule(outputs, idx)[b]).0,
    decreases outputs.len(),
{
    if outputs.len() > 0 {
        let head = tag_chunks(idx, outputs[0]);
        let rest = serial_schedule(outputs.drop_first(), idx + 1);
        lemma_serial_execution_no_interleaving(outputs.drop_first(), idx + 1);
        lemma_serial_schedule_tags(outputs.drop_first(), idx + 1);
        assert forall|a: int, b: int|
            0 <= a <= b < serial_schedule(outputs, idx).len() implies (#[trigger] serial_schedule(
            outputs,
            idx,
        )[a]).0 <= (#[trigger] serial_schedule(outputs, idx)[b]).0 by {
            let s = serial_schedule(outputs, idx);
            if a < head.len() {
                assert(s[a].0 == idx);
                if b < head.len() {
                    assert(s[b].0 == idx);
                } else {
                    assert(s[b] == rest[b - head.len()]);
                    assert(rest[b - head.len()].0 >= idx + 1);
                }
            } else {
                assert(s[a] == rest[a - head.len()]);
                assert(s[b] == rest[b - head.len()]);
            }
        }
    }
}

} // verus!
