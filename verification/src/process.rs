//! What one process owns for synchronisation: its mutexes, semaphores and
//! condition variables, each kind in a list of slots, the resource tables
//! of the mutexes and of the semaphores, and the switch of the deadlock
//! detector.

use crate::condvar::{after_signal, signalled, Condvar};
use crate::mutex::{Admission, Mutex, MutexKind, MutexView};
use crate::semaphore::{Semaphore, SemaphoreView};
use crate::table::{ResourceTable, TableView};
use vstd::prelude::*;

verus! {

/// The mathematical content of a process's synchronisation state. A slot
/// that holds `None` is free for the next primitive of its kind.
pub struct ProcessView {
    pub mutexes: Seq<Option<MutexView>>,
    pub semaphores: Seq<Option<SemaphoreView>>,
    pub condvars: Seq<Option<Seq<usize>>>,
    pub mutex_table: TableView,
    pub semaphore_table: TableView,
    pub detect: bool,
}

/// `id` is the lowest free slot of `slots`, or their number if none is free.
pub open spec fn is_first_free<T>(slots: Seq<Option<T>>, id: int) -> bool {
    &&& 0 <= id <= slots.len()
    &&& id < slots.len() ==> slots[id] is None
    &&& forall|j: int| 0 <= j < id ==> (#[trigger] slots[j]) is Some
}

/// `slots` with `item` in slot `id`, which is one of them or the next.
pub open spec fn with_slot<T>(slots: Seq<Option<T>>, id: int, item: T) -> Seq<Option<T>> {
    if id < slots.len() {
        slots.update(id, Some(item))
    } else {
        slots.push(Some(item))
    }
}

/// `table` with a column `id` that reads as just made with `units` units.
pub open spec fn with_column(table: TableView, id: int, units: int) -> TableView {
    if id < table.resources() {
        table.cleared(id, units)
    } else {
        table.with_resource(units)
    }
}

impl ProcessView {
    /// A process without tasks or primitives, the detector switched off.
    pub open spec fn empty() -> ProcessView {
        ProcessView {
            mutexes: Seq::empty(),
            semaphores: Seq::empty(),
            condvars: Seq::empty(),
            mutex_table: TableView::empty(),
            semaphore_table: TableView::empty(),
            detect: false,
        }
    }

    /// Number of tasks that the tables know.
    pub open spec fn tasks(self) -> nat {
        self.mutex_table.tasks()
    }

    /// The tables have a row for every task and a column for every slot,
    /// every primitive knows the slot it is in, and the slots can be
    /// numbered by a signed machine integer.
    pub open spec fn wf(self) -> bool {
        &&& self.mutex_table.wf()
        &&& self.semaphore_table.wf()
        &&& self.mutex_table.tasks() == self.semaphore_table.tasks()
        &&& self.mutex_table.resources() == self.mutexes.len()
        &&& self.semaphore_table.resources() == self.semaphores.len()
        &&& self.mutexes.len() <= isize::MAX
        &&& self.semaphores.len() <= isize::MAX
        &&& self.condvars.len() <= isize::MAX
        &&& forall|i: int|
            0 <= i < self.mutexes.len() && (#[trigger] self.mutexes[i]) is Some ==> self.mutexes[i]->0.id
                == i
        &&& forall|i: int|
            0 <= i < self.semaphores.len() && (#[trigger] self.semaphores[i]) is Some
                ==> self.semaphores[i]->0.id == i
    }

    /// Slot `id` holds a mutex.
    pub open spec fn has_mutex(self, id: int) -> bool {
        0 <= id < self.mutexes.len() && self.mutexes[id] is Some
    }

    /// Slot `id` holds a semaphore.
    pub open spec fn has_semaphore(self, id: int) -> bool {
        0 <= id < self.semaphores.len() && self.semaphores[id] is Some
    }

    /// Slot `id` holds a condition variable.
    pub open spec fn has_condvar(self, id: int) -> bool {
        0 <= id < self.condvars.len() && self.condvars[id] is Some
    }

    /// The mutex in slot `id`.
    pub open spec fn mutex(self, id: int) -> MutexView {
        self.mutexes[id]->0
    }

    /// The semaphore in slot `id`.
    pub open spec fn semaphore(self, id: int) -> SemaphoreView {
        self.semaphores[id]->0
    }

    /// The queue of the condition variable in slot `id`.
    pub open spec fn condvar(self, id: int) -> Seq<usize> {
        self.condvars[id]->0
    }

    /// The process with one more task, which holds and needs nothing.
    pub open spec fn with_task(self) -> ProcessView {
        ProcessView {
            mutex_table: self.mutex_table.with_task(),
            semaphore_table: self.semaphore_table.with_task(),
            ..self
        }
    }

    /// The process with a new mutex in slot `id`.
    pub open spec fn with_mutex(self, id: int, blocking: bool) -> ProcessView {
        ProcessView {
            mutexes: with_slot(self.mutexes, id, MutexView::fresh(blocking, id)),
            mutex_table: with_column(self.mutex_table, id, 1),
            ..self
        }
    }

    /// The process with a new semaphore of `count` units in slot `id`.
    pub open spec fn with_semaphore(self, id: int, count: int) -> ProcessView {
        ProcessView {
            semaphores: with_slot(self.semaphores, id, SemaphoreView::fresh(count, id)),
            semaphore_table: with_column(self.semaphore_table, id, count),
            ..self
        }
    }

    /// The process with a new condition variable in slot `id`.
    pub open spec fn with_condvar(self, id: int) -> ProcessView {
        ProcessView { condvars: with_slot(self.condvars, id, Seq::<usize>::empty()), ..self }
    }

    /// The process with slot `id` of the mutexes free again.
    pub open spec fn without_mutex(self, id: int) -> ProcessView {
        ProcessView { mutexes: self.mutexes.update(id, None), ..self }
    }

    /// The process with slot `id` of the semaphores free again.
    pub open spec fn without_semaphore(self, id: int) -> ProcessView {
        ProcessView { semaphores: self.semaphores.update(id, None), ..self }
    }

    /// The process with slot `id` of the condition variables free again.
    pub open spec fn without_condvar(self, id: int) -> ProcessView {
        ProcessView { condvars: self.condvars.update(id, None), ..self }
    }

    /// The process after task `tid` called `lock` on mutex `id`.
    pub open spec fn after_mutex_lock(self, tid: usize, id: int) -> ProcessView {
        ProcessView {
            mutexes: self.mutexes.update(id, Some(self.mutex(id).after_lock(tid))),
            mutex_table: self.mutex(id).table_after_lock(self.mutex_table, tid as int),
            ..self
        }
    }

    /// The process after task `tid` called `unlock` on mutex `id`.
    pub open spec fn after_mutex_unlock(self, tid: usize, id: int) -> ProcessView {
        ProcessView {
            mutexes: self.mutexes.update(id, Some(self.mutex(id).after_unlock())),
            mutex_table: self.mutex(id).table_after_unlock(self.mutex_table, tid as int),
            ..self
        }
    }

    /// The process after task `tid` called `down` on semaphore `id`.
    pub open spec fn after_semaphore_down(self, tid: usize, id: int) -> ProcessView {
        ProcessView {
            semaphores: self.semaphores.update(id, Some(self.semaphore(id).after_down(tid))),
            semaphore_table: self.semaphore(id).table_after_down(self.semaphore_table, tid as int),
            ..self
        }
    }

    /// The process after task `tid` called `up` on semaphore `id`.
    pub open spec fn after_semaphore_up(self, tid: usize, id: int) -> ProcessView {
        ProcessView {
            semaphores: self.semaphores.update(id, Some(self.semaphore(id).after_up())),
            semaphore_table: self.semaphore(id).table_after_up(self.semaphore_table, tid as int),
            ..self
        }
    }

    /// The process after a signal on condition variable `id`.
    pub open spec fn after_condvar_signal(self, id: int) -> ProcessView {
        ProcessView {
            condvars: self.condvars.update(id, Some(after_signal(self.condvar(id)))),
            ..self
        }
    }

    /// The process after task `tid` gave up mutex `mutex_id` to wait on
    /// condition variable `id`.
    pub open spec fn after_condvar_wait(self, tid: usize, id: int, mutex_id: int) -> ProcessView {
        ProcessView {
            condvars: self.condvars.update(id, Some(self.condvar(id).push(tid))),
            ..self.after_mutex_unlock(tid, mutex_id)
        }
    }
}

/// The synchronisation state of one process.
pub struct ProcessSync {
    pub mutex_list: Vec<Option<MutexKind>>,
    pub semaphore_list: Vec<Option<Semaphore>>,
    pub condvar_list: Vec<Option<Condvar>>,
    pub mutex_table: ResourceTable,
    pub semaphore_table: ResourceTable,
    pub enable_deadlock_detect: bool,
}

/// The views of the primitives in a list of slots.
pub open spec fn slot_views<T: View>(slots: Seq<Option<T>>) -> Seq<Option<T::V>> {
    Seq::new(
        slots.len(),
        |i: int|
            match slots[i] {
                Some(item) => Some(item@),
                None => None,
            },
    )
}

impl View for ProcessSync {
    type V = ProcessView;

    open spec fn view(&self) -> ProcessView {
        ProcessView {
            mutexes: slot_views(self.mutex_list@),
            semaphores: slot_views(self.semaphore_list@),
            condvars: slot_views(self.condvar_list@),
            mutex_table: self.mutex_table@,
            semaphore_table: self.semaphore_table@,
            detect: self.enable_deadlock_detect,
        }
    }
}

/// The lowest free slot of `slots`, or their number if none is free.
pub fn first_free<T>(slots: &Vec<Option<T>>) -> (id: usize)
    ensures
        is_first_free(slots@, id as int),
{
    let mut id: usize = 0;
    while id < slots.len()
        invariant
            id <= slots@.len(),
            forall|j: int| 0 <= j < id ==> (#[trigger] slots@[j]) is Some,
        decreases slots@.len() - id,
    {
        if slots[id].is_none() {
            return id;
        }
        id += 1;
    }
    id
}

impl ProcessSync {
    /// A process without tasks or primitives, the detector switched off.
    pub fn new() -> (process: Self)
        ensures
            process@ == ProcessView::empty(),
            process@.wf(),
    {
        let process = ProcessSync {
            mutex_list: Vec::new(),
            semaphore_list: Vec::new(),
            condvar_list: Vec::new(),
            mutex_table: ResourceTable::new(),
            semaphore_table: ResourceTable::new(),
            enable_deadlock_detect: false,
        };
        assert(process@.mutexes =~= Seq::empty());
        assert(process@.semaphores =~= Seq::empty());
        assert(process@.condvars =~= Seq::empty());
        process
    }

    /// Gives the tables a row for a new task and returns its number.
    pub fn add_task(&mut self) -> (tid: usize)
        requires
            old(self)@.wf(),
        ensures
            tid == old(self)@.tasks(),
            final(self)@ == old(self)@.with_task(),
            final(self)@.wf(),
    {
        let tid = self.mutex_table.tasks();
        self.mutex_table.add_task();
        self.semaphore_table.add_task();
        tid
    }

    /// Task `tid` asks for mutex `id`.
    pub fn mutex_lock(&mut self, tid: usize, id: usize) -> (admission: Admission)
        requires
            old(self)@.wf(),
            old(self)@.has_mutex(id as int),
            old(self)@.mutex(id as int).lock_permitted(old(self)@.mutex_table, tid as int),
        ensures
            admission == old(self)@.mutex(id as int).admission(),
            final(self)@ == old(self)@.after_mutex_lock(tid, id as int),
            final(self)@.wf(),
    {
        let admission = match &mut self.mutex_list[id] {
            Some(mutex) => mutex.lock(&mut self.mutex_table, tid),
            None => Admission::Retry,
        };
        assert(self@.mutexes =~= old(self)@.after_mutex_lock(tid, id as int).mutexes);
        admission
    }

    /// Task `tid` gives mutex `id` up. Returns the task to make runnable.
    pub fn mutex_unlock(&mut self, tid: usize, id: usize) -> (woken: Option<usize>)
        requires
            old(self)@.wf(),
            old(self)@.has_mutex(id as int),
            old(self)@.mutex(id as int).unlock_permitted(old(self)@.mutex_table, tid as int),
        ensures
            woken == old(self)@.mutex(id as int).woken(),
            final(self)@ == old(self)@.after_mutex_unlock(tid, id as int),
            final(self)@.wf(),
    {
        let woken = match &mut self.mutex_list[id] {
            Some(mutex) => mutex.unlock(&mut self.mutex_table, tid),
            None => None,
        };
        assert(self@.mutexes =~= old(self)@.after_mutex_unlock(tid, id as int).mutexes);
        woken
    }

    /// Task `tid` asks for a unit of semaphore `id`.
    pub fn semaphore_down(&mut self, tid: usize, id: usize) -> (admission: Admission)
        requires
            old(self)@.wf(),
            old(self)@.has_semaphore(id as int),
            old(self)@.semaphore(id as int).down_permitted(old(self)@.semaphore_table, tid as int),
        ensures
            admission == old(self)@.semaphore(id as int).admission(),
            final(self)@ == old(self)@.after_semaphore_down(tid, id as int),
            final(self)@.wf(),
    {
        let admission = match &mut self.semaphore_list[id] {
            Some(semaphore) => semaphore.down(&mut self.semaphore_table, tid),
            None => Admission::Retry,
        };
        assert(self@.semaphores =~= old(self)@.after_semaphore_down(tid, id as int).semaphores);
        admission
    }

    /// Task `tid` gives a unit of semaphore `id` back. Returns the task to
    /// make runnable.
    pub fn semaphore_up(&mut self, tid: usize, id: usize) -> (woken: Option<usize>)
        requires
            old(self)@.wf(),
            old(self)@.has_semaphore(id as int),
            old(self)@.semaphore(id as int).up_permitted(old(self)@.semaphore_table, tid as int),
        ensures
            woken == old(self)@.semaphore(id as int).woken(),
            final(self)@ == old(self)@.after_semaphore_up(tid, id as int),
            final(self)@.wf(),
    {
        let woken = match &mut self.semaphore_list[id] {
            Some(semaphore) => semaphore.up(&mut self.semaphore_table, tid),
            None => None,
        };
        assert(self@.semaphores =~= old(self)@.after_semaphore_up(tid, id as int).semaphores);
        woken
    }

    /// Makes the task that has waited longest on condition variable `id`
    /// runnable, if any waits.
    pub fn condvar_signal(&mut self, id: usize) -> (woken: Option<usize>)
        requires
            old(self)@.has_condvar(id as int),
        ensures
            woken == signalled(old(self)@.condvar(id as int)),
            final(self)@ == old(self)@.after_condvar_signal(id as int),
            old(self)@.wf() ==> final(self)@.wf(),
    {
        let woken = match &mut self.condvar_list[id] {
            Some(condvar) => condvar.signal(),
            None => None,
        };
        assert(self@.condvars =~= old(self)@.after_condvar_signal(id as int).condvars);
        woken
    }

    /// Task `tid` gives mutex `mutex_id` up and joins the queue of
    /// condition variable `id`. Returns the task that the mutex was handed
    /// to.
    pub fn condvar_wait(&mut self, tid: usize, id: usize, mutex_id: usize) -> (woken: Option<usize>)
        requires
            old(self)@.wf(),
            old(self)@.has_condvar(id as int),
            old(self)@.has_mutex(mutex_id as int),
            old(self)@.mutex(mutex_id as int).unlock_permitted(old(self)@.mutex_table, tid as int),
        ensures
            woken == old(self)@.mutex(mutex_id as int).woken(),
            final(self)@ == old(self)@.after_condvar_wait(tid, id as int, mutex_id as int),
            final(self)@.wf(),
    {
        let woken = match (&mut self.condvar_list[id], &mut self.mutex_list[mutex_id]) {
            (Some(condvar), Some(mutex)) => condvar.wait(mutex, &mut self.mutex_table, tid),
            _ => None,
        };
        assert(self@.mutexes =~= old(self)@.after_condvar_wait(
            tid,
            id as int,
            mutex_id as int,
        ).mutexes);
        assert(self@.condvars =~= old(self)@.after_condvar_wait(
            tid,
            id as int,
            mutex_id as int,
        ).condvars);
        woken
    }

    /// Frees slot `id` of the mutexes for the next mutex. The slot's column
    /// of the table stays as it is until the slot is used again.
    pub fn release_mutex(&mut self, id: usize)
        requires
            id < old(self)@.mutexes.len(),
        ensures
            final(self)@ == old(self)@.without_mutex(id as int),
            old(self)@.wf() ==> final(self)@.wf(),
    {
        self.mutex_list[id] = None;
        assert(self@.mutexes =~= old(self)@.without_mutex(id as int).mutexes);
    }

    /// Frees slot `id` of the semaphores for the next semaphore. The slot's
    /// column of the table stays as it is until the slot is used again.
    pub fn release_semaphore(&mut self, id: usize)
        requires
            id < old(self)@.semaphores.len(),
        ensures
            final(self)@ == old(self)@.without_semaphore(id as int),
            old(self)@.wf() ==> final(self)@.wf(),
    {
        self.semaphore_list[id] = None;
        assert(self@.semaphores =~= old(self)@.without_semaphore(id as int).semaphores);
    }

    /// Frees slot `id` of the condition variables for the next one.
    pub fn release_condvar(&mut self, id: usize)
        requires
            id < old(self)@.condvars.len(),
        ensures
            final(self)@ == old(self)@.without_condvar(id as int),
            old(self)@.wf() ==> final(self)@.wf(),
    {
        self.condvar_list[id] = None;
        assert(self@.condvars =~= old(self)@.without_condvar(id as int).condvars);
    }
}

/// A slot that was freed reads as new once it is used again. Free slot
/// `freed` of the mutexes and make a mutex: it lands in the lowest free
/// slot, which is `freed` or one below it, and that slot's column of the
/// table reads as one free mutex that no task holds or needs, which is
/// what the column of a slot added at the end reads.
pub proof fn lemma_mutex_slot_reused(process: ProcessView, freed: int, id: int, blocking: bool)
    requires
        process.wf(),
        0 <= freed < process.mutexes.len(),
        is_first_free(process.without_mutex(freed).mutexes, id),
    ensures
        id <= freed,
        process.without_mutex(freed).with_mutex(id, blocking).mutex(id) == MutexView::fresh(
            blocking,
            id,
        ),
        process.without_mutex(freed).with_mutex(id, blocking).mutex_table.pristine(id, 1),
        process.mutex_table.with_resource(1).pristine(process.mutex_table.resources() as int, 1),
        process.without_mutex(freed).with_mutex(id, blocking).wf(),
{
    if id > freed {
        assert(process.without_mutex(freed).mutexes[freed] is Some);
    }
}

/// A slot that was freed reads as new once it is used again. Free slot
/// `freed` of the semaphores and make a semaphore of `count` units: it
/// lands in the lowest free slot, which is `freed` or one below it, and
/// that slot's column of the table reads as `count` free units that no
/// task holds or needs, which is what the column of a slot added at the
/// end reads.
pub proof fn lemma_semaphore_slot_reused(process: ProcessView, freed: int, id: int, count: int)
    requires
        process.wf(),
        0 <= freed < process.semaphores.len(),
        is_first_free(process.without_semaphore(freed).semaphores, id),
    ensures
        id <= freed,
        process.without_semaphore(freed).with_semaphore(id, count).semaphore(id)
            == SemaphoreView::fresh(count, id),
        process.without_semaphore(freed).with_semaphore(id, count).semaphore_table.pristine(
            id,
            count,
        ),
        process.semaphore_table.with_resource(count).pristine(
            process.semaphore_table.resources() as int,
            count,
        ),
        process.without_semaphore(freed).with_semaphore(id, count).wf(),
{
    if id > freed {
        assert(process.without_semaphore(freed).semaphores[freed] is Some);
    }
}

} // verus!
