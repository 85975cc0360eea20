//! The task queue of directories pending expansion, together with the
//! in-flight counter that detects quiescence.
//!
//! The counter is incremented when a task is enqueued and decremented only
//! when a worker has finished expanding it, after all child enqueues that
//! the task caused.  An empty queue alone therefore never looks like
//! completion while some worker may still add work: the traversal is over
//! exactly when the counter reaches zero, which also forces the queue empty.

use vstd::prelude::*;

verus! {

/// A queue of pending directory tasks with an in-flight counter and a
/// closed flag.
pub struct TaskQueue {
    items: Vec<String>,
    in_flight: u128,
    closed: bool,
}

impl TaskQueue {
    /// The pending tasks, newest last.
    pub closed spec fn tasks(self) -> Seq<Seq<char>> {
        self.items.deep_view()
    }

    /// How many tasks have been enqueued but not yet marked done: the tasks
    /// still queued plus those a worker is currently expanding.
    pub closed spec fn in_flight(self) -> nat {
        self.in_flight as nat
    }

    /// Whether the queue has been closed by the termination detector.
    pub closed spec fn is_closed(self) -> bool {
        self.closed
    }

    /// Every queued task is still in flight, and a closed queue is quiescent.
    pub closed spec fn wf(self) -> bool {
        &&& self.tasks().len() <= self.in_flight()
        &&& (self.closed ==> self.in_flight == 0)
    }

    /// A fresh, open, quiescent queue.
    pub fn new() -> (q: TaskQueue)
        ensures
            q.wf(),
            q.tasks() == Seq::<Seq<char>>::empty(),
            q.in_flight() == 0,
            !q.is_closed(),
    {
        let q = TaskQueue { items: Vec::new(), in_flight: 0, closed: false };
        proof {
            assert(q.tasks() =~= Seq::<Seq<char>>::empty());
        }
        q
    }

    /// Accounts for a new task and then makes it visible to consumers.
    pub fn enqueue(&mut self, path: String)
        requires
            old(self).wf(),
            !old(self).is_closed(),
            old(self).in_flight() < u128::MAX,
        ensures
            final(self).wf(),
            !final(self).is_closed(),
            final(self).tasks() == old(self).tasks().push(path@),
            final(self).in_flight() == old(self).in_flight() + 1,
    {
        self.in_flight = self.in_flight + 1;
        self.items.push(path);
        proof {
            assert(self.tasks() =~= old(self).tasks().push(path@));
        }
    }

    /// Hands one pending task to a worker, if any is queued.  The task stays
    /// in flight until the worker calls `mark_done`.
    pub fn dequeue(&mut self) -> (t: Option<String>)
        requires
            old(self).wf(),
        ensures
            final(self).wf(),
            final(self).in_flight() == old(self).in_flight(),
            final(self).is_closed() == old(self).is_closed(),
            match t {
                Some(p) => {
                    &&& old(self).tasks().len() > 0
                    &&& p@ == old(self).tasks().last()
                    &&& final(self).tasks() == old(self).tasks().drop_last()
                },
                None => {
                    &&& old(self).tasks().len() == 0
                    &&& final(self).tasks() == old(self).tasks()
                },
            },
    {
        let t = self.items.pop();
        proof {
            if old(self).items@.len() > 0 {
                assert(self.tasks() =~= old(self).tasks().drop_last());
            } else {
                assert(self.tasks() =~= old(self).tasks());
            }
        }
        t
    }

    /// Called by a worker exactly once per task it finished expanding, after
    /// all child enqueues that the task caused.
    pub fn mark_done(&mut self)
        requires
            old(self).wf(),
            old(self).in_flight() > old(self).tasks().len(),
        ensures
            final(self).wf(),
            final(self).tasks() == old(self).tasks(),
            final(self).is_closed() == old(self).is_closed(),
            final(self).in_flight() == old(self).in_flight() - 1,
    {
        self.in_flight = self.in_flight - 1;
    }

    /// The termination condition: no task is queued and none is being
    /// expanded.  Zero in flight forces the queue empty, so this single
    /// check is the whole stopping rule.
    pub fn is_quiescent(&self) -> (b: bool)
        requires
            self.wf(),
        ensures
            b == (self.in_flight() == 0),
            b ==> self.tasks().len() == 0,
    {
        self.in_flight == 0
    }

    /// Closes a quiescent queue: no further task will be handed out.
    pub fn close(&mut self)
        requires
            old(self).wf(),
            old(self).in_flight() == 0,
        ensures
            final(self).wf(),
            final(self).is_closed(),
            final(self).tasks() == old(self).tasks(),
            final(self).in_flight() == 0,
    {
        self.closed = true;
    }

    /// How many tasks are pending in the queue.
    pub fn pending(&self) -> (n: usize)
        ensures
            n == self.tasks().len(),
    {
        self.items.len()
    }

    /// How many tasks are in flight.
    pub fn active(&self) -> (n: u128)
        ensures
            n == self.in_flight(),
    {
        self.in_flight
    }

    /// Whether the queue has been closed.
    pub fn has_closed(&self) -> (b: bool)
        ensures
            b == self.is_closed(),
    {
        self.closed
    }
}

} // verus!
