//! Counting semaphores. The count may go below zero: it then tells how many
//! tasks wait.

use crate::mutex::Admission;
use crate::table::{ResourceTable, TableView};
use std::collections::VecDeque;
use vstd::prelude::*;

verus! {

/// The mathematical content of a semaphore.
pub struct SemaphoreView {
    /// The column of the semaphore in the resource table of its process.
    pub id: int,
    pub count: int,
    /// The waiting tasks, the one that came first in front.
    pub queue: Seq<usize>,
}

impl SemaphoreView {
    /// A semaphore that was just made with `count` units.
    pub open spec fn fresh(count: int, id: int) -> SemaphoreView {
        SemaphoreView { id, count, queue: Seq::empty() }
    }

    /// A count below zero is the number of waiting tasks; nobody waits on a
    /// count of zero or more.
    pub open spec fn wf(self) -> bool {
        self.queue.len() == if self.count < 0 {
            -self.count
        } else {
            0
        }
    }

    /// What a task that calls `down` is told.
    pub open spec fn admission(self) -> Admission {
        if self.count >= 1 {
            Admission::Granted
        } else {
            Admission::Blocked
        }
    }

    /// The semaphore after task `tid` called `down`: one unit less, and
    /// `tid` at the back of the queue if there was none to take.
    pub open spec fn after_down(self, tid: usize) -> SemaphoreView {
        if self.count >= 1 {
            SemaphoreView { count: self.count - 1, ..self }
        } else {
            SemaphoreView { count: self.count - 1, queue: self.queue.push(tid), ..self }
        }
    }

    /// The table after task `tid` called `down`: a unit that was there is
    /// granted to `tid`.
    pub open spec fn table_after_down(self, table: TableView, tid: int) -> TableView {
        if self.count >= 1 {
            table.granted(tid, self.id)
        } else {
            table
        }
    }

    /// The task that `up` makes runnable: the one in front of the queue, if
    /// the count says that somebody waits.
    pub open spec fn woken(self) -> Option<usize> {
        if self.count < 0 && self.queue.len() > 0 {
            Some(self.queue[0])
        } else {
            None
        }
    }

    /// The semaphore after `up`: one unit more, which goes to the task in
    /// front of the queue if somebody waits.
    pub open spec fn after_up(self) -> SemaphoreView {
        if self.woken() is Some {
            SemaphoreView { count: self.count + 1, queue: self.queue.drop_first(), ..self }
        } else {
            SemaphoreView { count: self.count + 1, ..self }
        }
    }

    /// The table after task `tid` called `up`: `tid` gives one unit back,
    /// whether or not it held one. The task that the unit goes to is not
    /// booked as its holder, and that task's request stays on record.
    pub open spec fn table_after_up(self, table: TableView, tid: int) -> TableView {
        table.released(tid, self.id)
    }

    /// Task `tid` may call `down`: the count has room, and where the call
    /// writes to the table, the entries exist and have room.
    pub open spec fn down_permitted(self, table: TableView, tid: int) -> bool {
        &&& self.count > isize::MIN
        &&& self.count >= 1 ==> {
            &&& table.wf()
            &&& 0 <= tid < table.tasks()
            &&& 0 <= self.id < table.resources()
            &&& table.allocation[tid][self.id] < isize::MAX
            &&& table.need[tid][self.id] > isize::MIN
            &&& table.available[self.id] > isize::MIN
        }
    }

    /// Task `tid` may call `up`: the count has room, the table entries
    /// exist and have room.
    pub open spec fn up_permitted(self, table: TableView, tid: int) -> bool {
        &&& self.count < isize::MAX
        &&& table.wf()
        &&& 0 <= tid < table.tasks()
        &&& 0 <= self.id < table.resources()
        &&& table.allocation[tid][self.id] > isize::MIN
        &&& table.available[self.id] < isize::MAX
    }
}

/// The state of a semaphore.
pub struct SemaphoreInner {
    pub count: isize,
    pub wait_queue: VecDeque<usize>,
}

/// A counting semaphore whose waiters are served first come, first served.
pub struct Semaphore {
    pub inner: SemaphoreInner,
    pub id: isize,
}

impl View for Semaphore {
    type V = SemaphoreView;

    open spec fn view(&self) -> SemaphoreView {
        SemaphoreView {
            id: self.id as int,
            count: self.inner.count as int,
            queue: self.inner.wait_queue@,
        }
    }
}

impl Semaphore {
    /// A semaphore of `res_count` units on which nobody waits.
    pub fn new(res_count: usize, id: isize) -> (semaphore: Self)
        requires
            res_count <= isize::MAX,
        ensures
            semaphore@ == SemaphoreView::fresh(res_count as int, id as int),
            semaphore@.wf(),
    {
        Semaphore {
            inner: SemaphoreInner { count: res_count as isize, wait_queue: VecDeque::new() },
            id,
        }
    }

    /// Task `tid` gives a unit back. Returns the task to make runnable,
    /// which holds that unit from now on.
    pub fn up(&mut self, table: &mut ResourceTable, tid: usize) -> (woken: Option<usize>)
        requires
            old(self)@.up_permitted(old(table)@, tid as int),
        ensures
            woken == old(self)@.woken(),
            final(self)@ == old(self)@.after_up(),
            final(table)@ == old(self)@.table_after_up(old(table)@, tid as int),
            old(self)@.wf() ==> final(self)@.wf(),
    {
        self.inner.count += 1;
        let woken = if self.inner.count <= 0 {
            self.inner.wait_queue.pop_front()
        } else {
            None
        };
        table.release(tid, self.id as usize);
        woken
    }

    /// Task `tid` asks for a unit.
    pub fn down(&mut self, table: &mut ResourceTable, tid: usize) -> (admission: Admission)
        requires
            old(self)@.down_permitted(old(table)@, tid as int),
        ensures
            admission == old(self)@.admission(),
            final(self)@ == old(self)@.after_down(tid),
            final(table)@ == old(self)@.table_after_down(old(table)@, tid as int),
            old(self)@.wf() ==> final(self)@.wf(),
    {
        self.inner.count -= 1;
        if self.inner.count < 0 {
            self.inner.wait_queue.push_back(tid);
            Admission::Blocked
        } else {
            table.grant(tid, self.id as usize);
            Admission::Granted
        }
    }
}

} // verus!
