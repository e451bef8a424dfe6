//! Mutual exclusion in two disciplines: a spinning mutex, whose contenders
//! yield and try again, and a blocking mutex, whose contenders wait in a
//! queue and are handed the mutex in the order of their arrival.

use crate::table::{ResourceTable, TableView};
use std::collections::VecDeque;
use vstd::prelude::*;

verus! {

/// What a task that asked for a resource has to do next.
#[derive(Clone, Copy, Debug, PartialEq, Eq, Structural)]
pub enum Admission {
    /// The task holds the resource and goes on.
    Granted,
    /// The resource is taken: the task gives up its time slice and asks again.
    Retry,
    /// The task was queued: it blocks, and holds the resource when it is
    /// made runnable again.
    Blocked,
}

/// The mathematical content of a mutex.
pub struct MutexView {
    /// Whether contenders wait in a queue rather than spin.
    pub blocking: bool,
    /// The column of the mutex in the resource table of its process.
    pub id: int,
    pub locked: bool,
    /// The waiting tasks, the one that came first in front.
    pub queue: Seq<usize>,
}

impl MutexView {
    /// A mutex that was just made.
    pub open spec fn fresh(blocking: bool, id: int) -> MutexView {
        MutexView { blocking, id, locked: false, queue: Seq::empty() }
    }

    /// What a task that calls `lock` is told.
    pub open spec fn admission(self) -> Admission {
        if !self.locked {
            Admission::Granted
        } else if self.blocking {
            Admission::Blocked
        } else {
            Admission::Retry
        }
    }

    /// The mutex after task `tid` called `lock`: taken if it was free;
    /// else, if it is a blocking mutex, with `tid` at the back of the queue.
    pub open spec fn after_lock(self, tid: usize) -> MutexView {
        if !self.locked {
            MutexView { locked: true, ..self }
        } else if self.blocking {
            MutexView { queue: self.queue.push(tid), ..self }
        } else {
            self
        }
    }

    /// The table after task `tid` called `lock`: a blocking mutex that was
    /// free is granted to `tid`.
    pub open spec fn table_after_lock(self, table: TableView, tid: int) -> TableView {
        if self.blocking && !self.locked {
            table.granted(tid, self.id)
        } else {
            table
        }
    }

    /// The task that `unlock` makes runnable: the one in front of the queue.
    pub open spec fn woken(self) -> Option<usize> {
        if self.blocking && self.queue.len() > 0 {
            Some(self.queue[0])
        } else {
            None
        }
    }

    /// The mutex after `unlock`: handed to the task in front of the queue
    /// without ever reading as free, or free if nobody waits.
    pub open spec fn after_unlock(self) -> MutexView {
        if self.woken() is Some {
            MutexView { queue: self.queue.drop_first(), ..self }
        } else {
            MutexView { locked: false, ..self }
        }
    }

    /// The table after task `tid` called `unlock`: a blocking mutex is
    /// given back by `tid`, whether or not it is handed on. The task that
    /// it is handed to is not booked as its holder, and that task's request
    /// stays on record.
    pub open spec fn table_after_unlock(self, table: TableView, tid: int) -> TableView {
        if self.blocking {
            table.released(tid, self.id)
        } else {
            table
        }
    }

    /// Task `tid` may call `lock`: where the call writes to the table, the
    /// entries exist and the machine integers have room.
    pub open spec fn lock_permitted(self, table: TableView, tid: int) -> bool {
        self.blocking && !self.locked ==> {
            &&& table.wf()
            &&& 0 <= tid < table.tasks()
            &&& 0 <= self.id < table.resources()
            &&& table.allocation[tid][self.id] < isize::MAX
            &&& table.need[tid][self.id] > isize::MIN
            &&& table.available[self.id] > isize::MIN
        }
    }

    /// Task `tid` may call `unlock`: a blocking mutex must be locked, its
    /// table entries exist and the machine integers have room.
    pub open spec fn unlock_permitted(self, table: TableView, tid: int) -> bool {
        self.blocking ==> {
            &&& self.locked
            &&& table.wf()
            &&& 0 <= tid < table.tasks()
            &&& 0 <= self.id < table.resources()
            &&& table.allocation[tid][self.id] > isize::MIN
            &&& table.available[self.id] < isize::MAX
        }
    }
}

/// The two operations that every mutex offers.
pub trait Mutex: View<V = MutexView> {
    /// Task `tid` asks for the mutex.
    fn lock(&mut self, table: &mut ResourceTable, tid: usize) -> (admission: Admission)
        requires
            old(self)@.lock_permitted(old(table)@, tid as int),
        ensures
            admission == old(self)@.admission(),
            final(self)@ == old(self)@.after_lock(tid),
            final(table)@ == old(self)@.table_after_lock(old(table)@, tid as int),
    ;

    /// Task `tid` gives the mutex up. Returns the task to make runnable,
    /// which holds the mutex from now on.
    fn unlock(&mut self, table: &mut ResourceTable, tid: usize) -> (woken: Option<usize>)
        requires
            old(self)@.unlock_permitted(old(table)@, tid as int),
        ensures
            woken == old(self)@.woken(),
            final(self)@ == old(self)@.after_unlock(),
            final(table)@ == old(self)@.table_after_unlock(old(table)@, tid as int),
    ;
}

/// A mutex whose contenders spin: no queue, no order among them.
pub struct MutexSpin {
    pub locked: bool,
    pub id: isize,
}

impl View for MutexSpin {
    type V = MutexView;

    open spec fn view(&self) -> MutexView {
        MutexView { blocking: false, id: self.id as int, locked: self.locked, queue: Seq::empty() }
    }
}

impl MutexSpin {
    /// A free spinning mutex.
    pub fn new(id: isize) -> (mutex: Self)
        ensures
            mutex@ == MutexView::fresh(false, id as int),
    {
        MutexSpin { locked: false, id }
    }
}

impl Mutex for MutexSpin {
    fn lock(&mut self, table: &mut ResourceTable, tid: usize) -> (admission: Admission) {
        if self.locked {
            Admission::Retry
        } else {
            self.locked = true;
            Admission::Granted
        }
    }

    fn unlock(&mut self, table: &mut ResourceTable, tid: usize) -> (woken: Option<usize>) {
        self.locked = false;
        None
    }
}

/// The state of a blocking mutex.
pub struct MutexBlockingInner {
    pub locked: bool,
    pub wait_queue: VecDeque<usize>,
}

/// A mutex whose contenders block and are served first come, first served.
pub struct MutexBlocking {
    pub inner: MutexBlockingInner,
    pub id: isize,
}

impl View for MutexBlocking {
    type V = MutexView;

    open spec fn view(&self) -> MutexView {
        MutexView {
            blocking: true,
            id: self.id as int,
            locked: self.inner.locked,
            queue: self.inner.wait_queue@,
        }
    }
}

impl MutexBlocking {
    /// A free blocking mutex on which nobody waits.
    pub fn new(id: isize) -> (mutex: Self)
        ensures
            mutex@ == MutexView::fresh(true, id as int),
    {
        MutexBlocking { inner: MutexBlockingInner { locked: false, wait_queue: VecDeque::new() }, id }
    }
}

impl Mutex for MutexBlocking {
    fn lock(&mut self, table: &mut ResourceTable, tid: usize) -> (admission: Admission) {
        if self.inner.locked {
            self.inner.wait_queue.push_back(tid);
            Admission::Blocked
        } else {
            table.grant(tid, self.id as usize);
            self.inner.locked = true;
            Admission::Granted
        }
    }

    fn unlock(&mut self, table: &mut ResourceTable, tid: usize) -> (woken: Option<usize>) {
        let woken = self.inner.wait_queue.pop_front();
        if woken.is_none() {
            self.inner.locked = false;
        }
        table.release(tid, self.id as usize);
        woken
    }
}

/// A mutex of either discipline.
pub enum MutexKind {
    Spin(MutexSpin),
    Blocking(MutexBlocking),
}

impl View for MutexKind {
    type V = MutexView;

    open spec fn view(&self) -> MutexView {
        match self {
            MutexKind::Spin(mutex) => mutex@,
            MutexKind::Blocking(mutex) => mutex@,
        }
    }
}

impl Mutex for MutexKind {
    fn lock(&mut self, table: &mut ResourceTable, tid: usize) -> (admission: Admission) {
        match self {
            MutexKind::Spin(mutex) => mutex.lock(table, tid),
            MutexKind::Blocking(mutex) => mutex.lock(table, tid),
        }
    }

    fn unlock(&mut self, table: &mut ResourceTable, tid: usize) -> (woken: Option<usize>) {
        match self {
            MutexKind::Spin(mutex) => mutex.unlock(table, tid),
            MutexKind::Blocking(mutex) => mutex.unlock(table, tid),
        }
    }
}

} // verus!
