//! Condition variables: a queue of waiting tasks and nothing else. A signal
//! that finds nobody waiting is lost.

use crate::mutex::Mutex;
use crate::table::ResourceTable;
use std::collections::VecDeque;
use vstd::prelude::*;

verus! {

/// A condition variable. Its view is the queue of waiting tasks, the one
/// that came first in front.
pub struct Condvar {
    pub wait_queue: VecDeque<usize>,
}

impl View for Condvar {
    type V = Seq<usize>;

    open spec fn view(&self) -> Seq<usize> {
        self.wait_queue@
    }
}

/// The task that a signal makes runnable: the one in front of the queue.
pub open spec fn signalled(queue: Seq<usize>) -> Option<usize> {
    if queue.len() > 0 {
        Some(queue[0])
    } else {
        None
    }
}

/// The queue after a signal.
pub open spec fn after_signal(queue: Seq<usize>) -> Seq<usize> {
    if queue.len() > 0 {
        queue.drop_first()
    } else {
        queue
    }
}

impl Condvar {
    /// A condition variable on which nobody waits.
    pub fn new() -> (condvar: Self)
        ensures
            condvar@ == Seq::<usize>::empty(),
    {
        Condvar { wait_queue: VecDeque::new() }
    }

    /// Makes the task that has waited longest runnable, if any waits.
    pub fn signal(&mut self) -> (woken: Option<usize>)
        ensures
            woken == signalled(old(self)@),
            final(self)@ == after_signal(old(self)@),
    {
        self.wait_queue.pop_front()
    }

    /// Task `tid` gives `mutex` up and joins the queue; it has to block
    /// next, and to take the mutex again by itself once it runs. Returns the
    /// task that the mutex was handed to.
    pub fn wait<M: Mutex>(&mut self, mutex: &mut M, table: &mut ResourceTable, tid: usize) -> (woken:
        Option<usize>)
        requires
            old(mutex)@.unlock_permitted(old(table)@, tid as int),
        ensures
            woken == old(mutex)@.woken(),
            final(mutex)@ == old(mutex)@.after_unlock(),
            final(table)@ == old(mutex)@.table_after_unlock(old(table)@, tid as int),
            final(self)@ == old(self)@.push(tid),
    {
        let woken = mutex.unlock(table, tid);
        self.wait_queue.push_back(tid);
        woken
    }
}

} // verus!
