//! The system calls of synchronisation. Each is one step of the calling
//! task: it changes the state of the process and tells the scheduler what
//! to do with the caller and which task to make runnable.

use crate::condvar::{signalled, Condvar};
use crate::mutex::{Admission, MutexBlocking, MutexKind, MutexSpin};
use crate::process::{first_free, is_first_free, ProcessSync, ProcessView};
use crate::semaphore::Semaphore;
use vstd::prelude::*;

verus! {

/// The result of a request that the deadlock detector turned down.
pub const DEADLOCK: isize = -0xDEAD;

/// What the scheduler has to do with the calling task after a call.
#[derive(Clone, Copy, Debug, PartialEq, Eq, Structural)]
pub enum Suspend {
    /// The task runs on.
    No,
    /// The task gives up its time slice and then asks for the mutex again
    /// with [`ProcessSync::mutex_lock`].
    Yield,
    /// The task blocks until another task's call names it in `wake`.
    Block,
    /// The task blocks until the clock reads `expire_ms`.
    Sleep { expire_ms: usize },
}

/// What a system call hands back.
#[derive(Clone, Copy, Debug, PartialEq, Eq)]
pub struct Outcome {
    /// The result that the caller sees, once it runs again.
    pub code: isize,
    /// The task to make runnable, if any.
    pub wake: Option<usize>,
    pub suspend: Suspend,
}

/// What a task has to do after it was told `admission`.
pub open spec fn suspension(admission: Admission) -> Suspend {
    match admission {
        Admission::Granted => Suspend::No,
        Admission::Retry => Suspend::Yield,
        Admission::Blocked => Suspend::Block,
    }
}

impl ProcessView {
    /// With the detector on, granting task `tid` one more unit of mutex
    /// `id` would leave the mutex table unsafe.
    pub open spec fn mutex_denied(self, tid: int, id: int) -> bool {
        self.detect && !self.mutex_table.requested(tid, id).is_safe()
    }

    /// With the detector on, granting task `tid` one more unit of
    /// semaphore `id` would leave the semaphore table unsafe.
    pub open spec fn semaphore_denied(self, tid: int, id: int) -> bool {
        self.detect && !self.semaphore_table.requested(tid, id).is_safe()
    }

    /// The process with the request of task `tid` for mutex `id` on record.
    pub open spec fn mutex_requested(self, tid: int, id: int) -> ProcessView {
        ProcessView { mutex_table: self.mutex_table.requested(tid, id), ..self }
    }

    /// The process with the request of task `tid` for semaphore `id` on
    /// record.
    pub open spec fn semaphore_requested(self, tid: int, id: int) -> ProcessView {
        ProcessView { semaphore_table: self.semaphore_table.requested(tid, id), ..self }
    }

    /// The process after `sys_mutex_lock`: as it was if the request is
    /// turned down; else with the request on record and then passed to the
    /// mutex.
    pub open spec fn after_sys_mutex_lock(self, tid: usize, id: int) -> ProcessView {
        if self.mutex_denied(tid as int, id) {
            self
        } else {
            self.mutex_requested(tid as int, id).after_mutex_lock(tid, id)
        }
    }

    /// The process after `sys_semaphore_down`: as it was if the request is
    /// turned down; else with the request on record and then passed to the
    /// semaphore.
    pub open spec fn after_sys_semaphore_down(self, tid: usize, id: int) -> ProcessView {
        if self.semaphore_denied(tid as int, id) {
            self
        } else {
            self.semaphore_requested(tid as int, id).after_semaphore_down(tid, id)
        }
    }
}

/// Puts the calling task to sleep for `ms` milliseconds from `now_ms`.
pub fn sys_sleep(now_ms: usize, ms: usize) -> (outcome: Outcome)
    requires
        now_ms + ms <= usize::MAX,
    ensures
        outcome.code == 0,
        outcome.wake is None,
        outcome.suspend == (Suspend::Sleep { expire_ms: (now_ms + ms) as usize }),
{
    Outcome { code: 0, wake: None, suspend: Suspend::Sleep { expire_ms: now_ms + ms } }
}

/// Makes a mutex, blocking or spinning, in the lowest free slot and returns
/// the slot's number. The slot's column of the mutex table reads as one
/// free mutex that nobody holds or needs, whether the slot is new or was
/// used before.
pub fn sys_mutex_create(process: &mut ProcessSync, blocking: bool) -> (id: isize)
    requires
        old(process)@.wf(),
        is_first_free(old(process)@.mutexes, old(process)@.mutexes.len() as int) ==> old(
            process,
        )@.mutexes.len() < isize::MAX,
    ensures
        is_first_free(old(process)@.mutexes, id as int),
        final(process)@ == old(process)@.with_mutex(id as int, blocking),
        final(process)@.wf(),
        final(process)@.mutex_table.pristine(id as int, 1),
{
    let id = first_free(&process.mutex_list);
    let mutex = if !blocking {
        MutexKind::Spin(MutexSpin::new(id as isize))
    } else {
        MutexKind::Blocking(MutexBlocking::new(id as isize))
    };
    if id < process.mutex_list.len() {
        process.mutex_table.clear(id, 1);
        process.mutex_list[id] = Some(mutex);
    } else {
        process.mutex_list.push(Some(mutex));
        process.mutex_table.add_resource(1);
    }
    assert(process@.mutexes =~= old(process)@.with_mutex(id as int, blocking).mutexes);
    id as isize
}

/// Task `tid` asks for mutex `mutex_id`. The request goes on record and,
/// with the detector on, is checked first: a request that would leave the
/// mutex table unsafe is turned down with `DEADLOCK` and taken off the
/// record again, so that the process is as it was. Any other request
/// reaches the mutex.
pub fn sys_mutex_lock(process: &mut ProcessSync, tid: usize, mutex_id: usize) -> (outcome: Outcome)
    requires
        old(process)@.wf(),
        old(process)@.has_mutex(mutex_id as int),
        tid < old(process)@.tasks(),
        old(process)@.mutex_table.need[tid as int][mutex_id as int] < isize::MAX,
        !old(process)@.mutex_denied(tid as int, mutex_id as int) ==> old(process)@.mutex(
            mutex_id as int,
        ).lock_permitted(
            old(process)@.mutex_table.requested(tid as int, mutex_id as int),
            tid as int,
        ),
    ensures
        final(process)@.wf(),
        outcome.wake is None,
        final(process)@ == old(process)@.after_sys_mutex_lock(tid, mutex_id as int),
        old(process)@.mutex_denied(tid as int, mutex_id as int) ==> {
            &&& outcome.code == DEADLOCK
            &&& outcome.suspend == Suspend::No
        },
        !old(process)@.mutex_denied(tid as int, mutex_id as int) ==> {
            &&& outcome.code == 0
            &&& outcome.suspend == suspension(old(process)@.mutex(mutex_id as int).admission())
        },
{
    process.mutex_table.request(tid, mutex_id);
    if process.enable_deadlock_detect && !process.mutex_table.is_safe() {
        process.mutex_table.withdraw(tid, mutex_id);
        proof {
            old(process)@.mutex_table.lemma_withdraw_undoes_request(tid as int, mutex_id as int);
        }
        return Outcome { code: DEADLOCK, wake: None, suspend: Suspend::No };
    }
    let admission = process.mutex_lock(tid, mutex_id);
    Outcome { code: 0, wake: None, suspend: suspend_for(admission) }
}

/// What the calling task has to do after it was told `admission`.
pub fn suspend_for(admission: Admission) -> (suspend: Suspend)
    ensures
        suspend == suspension(admission),
{
    match admission {
        Admission::Granted => Suspend::No,
        Admission::Retry => Suspend::Yield,
        Admission::Blocked => Suspend::Block,
    }
}

/// Task `tid` gives mutex `mutex_id` up. A blocking mutex with waiters
/// goes to the one that has waited longest, who is to be made runnable.
pub fn sys_mutex_unlock(process: &mut ProcessSync, tid: usize, mutex_id: usize) -> (outcome: Outcome)
    requires
        old(process)@.wf(),
        old(process)@.has_mutex(mutex_id as int),
        old(process)@.mutex(mutex_id as int).unlock_permitted(
            old(process)@.mutex_table,
            tid as int,
        ),
    ensures
        final(process)@.wf(),
        outcome.code == 0,
        outcome.wake == old(process)@.mutex(mutex_id as int).woken(),
        outcome.suspend == Suspend::No,
        final(process)@ == old(process)@.after_mutex_unlock(tid, mutex_id as int),
{
    let woken = process.mutex_unlock(tid, mutex_id);
    Outcome { code: 0, wake: woken, suspend: Suspend::No }
}

/// Makes a semaphore of `res_count` units in the lowest free slot and
/// returns the slot's number. The slot's column of the semaphore table
/// reads as `res_count` free units that nobody holds or needs, whether the
/// slot is new or was used before.
pub fn sys_semaphore_create(process: &mut ProcessSync, res_count: usize) -> (id: isize)
    requires
        old(process)@.wf(),
        res_count <= isize::MAX,
        is_first_free(old(process)@.semaphores, old(process)@.semaphores.len() as int) ==> old(
            process,
        )@.semaphores.len() < isize::MAX,
    ensures
        is_first_free(old(process)@.semaphores, id as int),
        final(process)@ == old(process)@.with_semaphore(id as int, res_count as int),
        final(process)@.wf(),
        final(process)@.semaphore_table.pristine(id as int, res_count as int),
{
    let id = first_free(&process.semaphore_list);
    let semaphore = Semaphore::new(res_count, id as isize);
    if id < process.semaphore_list.len() {
        process.semaphore_table.clear(id, res_count as isize);
        process.semaphore_list[id] = Some(semaphore);
    } else {
        process.semaphore_list.push(Some(semaphore));
        process.semaphore_table.add_resource(res_count as isize);
    }
    assert(process@.semaphores =~= old(process)@.with_semaphore(
        id as int,
        res_count as int,
    ).semaphores);
    id as isize
}

/// Task `tid` gives a unit of semaphore `sem_id` back. If tasks wait, the
/// unit goes to the one that has waited longest, who is to be made runnable.
pub fn sys_semaphore_up(process: &mut ProcessSync, tid: usize, sem_id: usize) -> (outcome: Outcome)
    requires
        old(process)@.wf(),
        old(process)@.has_semaphore(sem_id as int),
        old(process)@.semaphore(sem_id as int).up_permitted(
            old(process)@.semaphore_table,
            tid as int,
        ),
    ensures
        final(process)@.wf(),
        outcome.code == 0,
        outcome.wake == old(process)@.semaphore(sem_id as int).woken(),
        outcome.suspend == Suspend::No,
        final(process)@ == old(process)@.after_semaphore_up(tid, sem_id as int),
{
    let woken = process.semaphore_up(tid, sem_id);
    Outcome { code: 0, wake: woken, suspend: Suspend::No }
}

/// Task `tid` asks for a unit of semaphore `sem_id`. The request goes on
/// record and, with the detector on, is checked first: a request that
/// would leave the semaphore table unsafe is turned down with `DEADLOCK`
/// and taken off the record again, so that the process is as it was. Any
/// other request reaches the semaphore.
pub fn sys_semaphore_down(process: &mut ProcessSync, tid: usize, sem_id: usize) -> (outcome: Outcome)
    requires
        old(process)@.wf(),
        old(process)@.has_semaphore(sem_id as int),
        tid < old(process)@.tasks(),
        old(process)@.semaphore_table.need[tid as int][sem_id as int] < isize::MAX,
        !old(process)@.semaphore_denied(tid as int, sem_id as int) ==> old(process)@.semaphore(
            sem_id as int,
        ).down_permitted(
            old(process)@.semaphore_table.requested(tid as int, sem_id as int),
            tid as int,
        ),
    ensures
        final(process)@.wf(),
        outcome.wake is None,
        final(process)@ == old(process)@.after_sys_semaphore_down(tid, sem_id as int),
        old(process)@.semaphore_denied(tid as int, sem_id as int) ==> {
            &&& outcome.code == DEADLOCK
            &&& outcome.suspend == Suspend::No
        },
        !old(process)@.semaphore_denied(tid as int, sem_id as int) ==> {
            &&& outcome.code == 0
            &&& outcome.suspend == suspension(old(process)@.semaphore(sem_id as int).admission())
        },
{
    process.semaphore_table.request(tid, sem_id);
    if process.enable_deadlock_detect && !process.semaphore_table.is_safe() {
        process.semaphore_table.withdraw(tid, sem_id);
        proof {
            old(process)@.semaphore_table.lemma_withdraw_undoes_request(tid as int, sem_id as int);
        }
        return Outcome { code: DEADLOCK, wake: None, suspend: Suspend::No };
    }
    let admission = process.semaphore_down(tid, sem_id);
    Outcome { code: 0, wake: None, suspend: suspend_for(admission) }
}

/// Makes a condition variable in the lowest free slot and returns the
/// slot's number.
pub fn sys_condvar_create(process: &mut ProcessSync, _arg: usize) -> (id: isize)
    requires
        old(process)@.wf(),
        is_first_free(old(process)@.condvars, old(process)@.condvars.len() as int) ==> old(
            process,
        )@.condvars.len() < isize::MAX,
    ensures
        is_first_free(old(process)@.condvars, id as int),
        final(process)@ == old(process)@.with_condvar(id as int),
        final(process)@.wf(),
{
    let id = first_free(&process.condvar_list);
    if id < process.condvar_list.len() {
        process.condvar_list[id] = Some(Condvar::new());
    } else {
        process.condvar_list.push(Some(Condvar::new()));
    }
    assert(process@.condvars =~= old(process)@.with_condvar(id as int).condvars);
    id as isize
}

/// Makes the task that has waited longest on condition variable
/// `condvar_id` runnable. A signal that finds nobody waiting is lost.
pub fn sys_condvar_signal(process: &mut ProcessSync, condvar_id: usize) -> (outcome: Outcome)
    requires
        old(process)@.has_condvar(condvar_id as int),
    ensures
        old(process)@.wf() ==> final(process)@.wf(),
        outcome.code == 0,
        outcome.wake == signalled(old(process)@.condvar(condvar_id as int)),
        outcome.suspend == Suspend::No,
        final(process)@ == old(process)@.after_condvar_signal(condvar_id as int),
{
    let woken = process.condvar_signal(condvar_id);
    Outcome { code: 0, wake: woken, suspend: Suspend::No }
}

/// Task `tid` gives mutex `mutex_id` up and waits on condition variable
/// `condvar_id`. Once it runs again it has to take the mutex by itself.
pub fn sys_condvar_wait(
    process: &mut ProcessSync,
    tid: usize,
    condvar_id: usize,
    mutex_id: usize,
) -> (outcome: Outcome)
    requires
        old(process)@.wf(),
        old(process)@.has_condvar(condvar_id as int),
        old(process)@.has_mutex(mutex_id as int),
        old(process)@.mutex(mutex_id as int).unlock_permitted(
            old(process)@.mutex_table,
            tid as int,
        ),
    ensures
        final(process)@.wf(),
        outcome.code == 0,
        outcome.wake == old(process)@.mutex(mutex_id as int).woken(),
        outcome.suspend == Suspend::Block,
        final(process)@ == old(process)@.after_condvar_wait(
            tid,
            condvar_id as int,
            mutex_id as int,
        ),
{
    let woken = process.condvar_wait(tid, condvar_id, mutex_id);
    Outcome { code: 0, wake: woken, suspend: Suspend::Block }
}

/// Switches the deadlock detector on (1) or off (0). Any other argument
/// changes nothing and returns -1.
pub fn sys_enable_deadlock_detect(process: &mut ProcessSync, enabled: usize) -> (code: isize)
    ensures
        enabled <= 1 ==> code == 0 && final(process)@ == (ProcessView {
            detect: enabled == 1,
            ..old(process)@
        }),
        enabled > 1 ==> code == -1 && final(process)@ == old(process)@,
{
    match enabled {
        1 => {
            process.enable_deadlock_detect = true;
            0
        },
        0 => {
            process.enable_deadlock_detect = false;
            0
        },
        _ => -1,
    }
}

} // verus!
