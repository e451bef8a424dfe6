//! What holds of a mutex or a semaphore after any sequence of calls:
//! mutual exclusion, service in the order of arrival, and the balance of a
//! semaphore's count.

use crate::mutex::{Admission, MutexView};
use crate::process::ProcessView;
use crate::semaphore::SemaphoreView;
use vstd::prelude::*;

verus! {

/// One call on a mutex, with the task that makes it.
pub enum MutexCall {
    Lock(usize),
    Unlock(usize),
}

/// A mutex together with what its calls so far have brought about.
pub struct MutexHistory {
    pub mutex: MutexView,
    /// The tasks that see themselves as holder: `lock` granted them the
    /// mutex, or an `unlock` handed it to them, and they have not called
    /// `unlock` since.
    pub holders: Set<usize>,
    /// The tasks that had to wait, in the order in which they queued.
    pub arrived: Seq<usize>,
    /// The waiting tasks that were handed the mutex, in the order in which
    /// that happened.
    pub served: Seq<usize>,
}

impl MutexHistory {
    /// The history of a mutex that nobody holds: the tasks in its queue
    /// have arrived, none was served.
    pub open spec fn begin(mutex: MutexView) -> MutexHistory {
        MutexHistory {
            mutex,
            holders: Set::empty(),
            arrived: mutex.queue,
            served: Seq::empty(),
        }
    }

    /// The history after one more call.
    pub open spec fn step(self, call: MutexCall) -> MutexHistory {
        match call {
            MutexCall::Lock(tid) => MutexHistory {
                mutex: self.mutex.after_lock(tid),
                holders: if self.mutex.admission() == Admission::Granted {
                    self.holders.insert(tid)
                } else {
                    self.holders
                },
                arrived: if self.mutex.admission() == Admission::Blocked {
                    self.arrived.push(tid)
                } else {
                    self.arrived
                },
                served: self.served,
            },
            MutexCall::Unlock(tid) => MutexHistory {
                mutex: self.mutex.after_unlock(),
                holders: match self.mutex.woken() {
                    Some(next) => self.holders.remove(tid).insert(next),
                    None => self.holders.remove(tid),
                },
                arrived: self.arrived,
                served: match self.mutex.woken() {
                    Some(next) => self.served.push(next),
                    None => self.served,
                },
            },
        }
    }

    /// The history after `calls`, the first of them first.
    pub open spec fn run(self, calls: Seq<MutexCall>) -> MutexHistory
        decreases calls.len(),
    {
        if calls.len() == 0 {
            self
        } else {
            self.run(calls.drop_last()).step(calls.last())
        }
    }

    /// Every `unlock` among `calls` comes from a task that holds the mutex
    /// at that moment.
    pub open spec fn orderly(self, calls: Seq<MutexCall>) -> bool {
        forall|k: int|
            0 <= k < calls.len() ==> match #[trigger] calls[k] {
                MutexCall::Unlock(tid) => self.run(calls.take(k)).holders.contains(tid),
                MutexCall::Lock(_) => true,
            }
    }

    /// At most one task holds the mutex, and one does exactly when the
    /// mutex is locked.
    pub open spec fn exclusive(self) -> bool {
        &&& forall|a: usize, b: usize| self.holders.contains(a) && self.holders.contains(b) ==> a == b
        &&& self.mutex.locked <==> exists|a: usize| self.holders.contains(a)
    }
}

/// Mutual exclusion. Start from a free mutex and let tasks call `lock` and
/// `unlock` in any order and number, a task calling `unlock` only while it
/// holds the mutex. Then at every moment at most one task holds the mutex,
/// and every `unlock` finds the mutex locked.
pub proof fn lemma_mutual_exclusion(mutex: MutexView, calls: Seq<MutexCall>)
    requires
        !mutex.locked,
        MutexHistory::begin(mutex).orderly(calls),
    ensures
        MutexHistory::begin(mutex).run(calls).exclusive(),
        forall|k: int|
            0 <= k <= calls.len() ==> (#[trigger] MutexHistory::begin(mutex).run(
                calls.take(k),
            )).exclusive(),
        forall|k: int|
            0 <= k < calls.len() && (#[trigger] calls[k]) is Unlock ==> MutexHistory::begin(mutex).run(
                calls.take(k),
            ).mutex.locked,
    decreases calls.len(),
{
    let begin = MutexHistory::begin(mutex);
    if calls.len() == 0 {
        assert forall|k: int| 0 <= k <= calls.len() implies (#[trigger] begin.run(
            calls.take(k),
        )).exclusive() by {
            assert(calls.take(k) =~= calls);
        }
    } else {
        let before = calls.drop_last();
        assert forall|k: int| 0 <= k < before.len() implies match #[trigger] before[k] {
            MutexCall::Unlock(tid) => begin.run(before.take(k)).holders.contains(tid),
            MutexCall::Lock(_) => true,
        } by {
            assert(before.take(k) =~= calls.take(k));
            assert(before[k] == calls[k]);
        }
        lemma_mutual_exclusion(mutex, before);
        let past = begin.run(before);
        let now = past.step(calls.last());
        assert(calls.take(calls.len() - 1) =~= before);
        assert(calls[calls.len() - 1] == calls.last());
        match calls.last() {
            MutexCall::Lock(tid) => {
                if past.mutex.admission() == Admission::Granted {
                    assert(now.holders.contains(tid));
                } else {
                    let a = choose|a: usize| past.holders.contains(a);
                    assert(now.holders.contains(a));
                }
            },
            MutexCall::Unlock(tid) => {
                assert(past.holders.contains(tid));
                match past.mutex.woken() {
                    Some(next) => {
                        assert(now.holders.contains(next));
                    },
                    None => {},
                }
            },
        }
        assert(now.exclusive());
        assert forall|k: int| 0 <= k <= calls.len() implies (#[trigger] begin.run(
            calls.take(k),
        )).exclusive() by {
            if k < calls.len() {
                assert(before.take(k) =~= calls.take(k));
            } else {
                assert(calls.take(k) =~= calls);
            }
        }
        assert forall|k: int| 0 <= k < calls.len() && (#[trigger] calls[k]) is Unlock implies begin.run(
            calls.take(k),
        ).mutex.locked by {
            if k < before.len() {
                assert(before.take(k) =~= calls.take(k));
                assert(before[k] == calls[k]);
            }
        }
    }
}

/// First come, first served. Whatever calls are made on a mutex, the tasks
/// that were handed the mutex, followed by those that still wait, are the
/// tasks that had to wait, in the order in which they queued: of two
/// waiting tasks, the one that queued first is served first.
pub proof fn lemma_first_come_first_served(mutex: MutexView, calls: Seq<MutexCall>)
    ensures
        MutexHistory::begin(mutex).run(calls).arrived == MutexHistory::begin(mutex).run(calls).served
            + MutexHistory::begin(mutex).run(calls).mutex.queue,
        forall|i: int|
            0 <= i < MutexHistory::begin(mutex).run(calls).served.len() ==> MutexHistory::begin(
                mutex,
            ).run(calls).served[i] == MutexHistory::begin(mutex).run(calls).arrived[i],
    decreases calls.len(),
{
    let begin = MutexHistory::begin(mutex);
    if calls.len() == 0 {
        assert(begin.arrived =~= begin.served + begin.mutex.queue);
    } else {
        lemma_first_come_first_served(mutex, calls.drop_last());
        let past = begin.run(calls.drop_last());
        let now = past.step(calls.last());
        assert(now.arrived =~= now.served + now.mutex.queue);
    }
}

/// Calls only add to what has arrived and to what was served: the order
/// of both is the order of time.
pub proof fn lemma_history_grows(mutex: MutexView, calls: Seq<MutexCall>, k: int)
    requires
        0 <= k <= calls.len(),
    ensures
        MutexHistory::begin(mutex).run(calls.take(k)).arrived.is_prefix_of(
            MutexHistory::begin(mutex).run(calls).arrived,
        ),
        MutexHistory::begin(mutex).run(calls.take(k)).served.is_prefix_of(
            MutexHistory::begin(mutex).run(calls).served,
        ),
    decreases calls.len(),
{
    if k == calls.len() {
        assert(calls.take(k) =~= calls);
    } else {
        assert(calls.drop_last().take(k) =~= calls.take(k));
        lemma_history_grows(mutex, calls.drop_last(), k);
    }
}

impl ProcessView {
    /// The process after the system calls `calls` on mutex `id`, the first
    /// of them first.
    pub open spec fn after_mutex_calls(self, id: int, calls: Seq<MutexCall>) -> ProcessView
        decreases calls.len(),
    {
        if calls.len() == 0 {
            self
        } else {
            let past = self.after_mutex_calls(id, calls.drop_last());
            match calls.last() {
                MutexCall::Lock(tid) => past.after_sys_mutex_lock(tid, id),
                MutexCall::Unlock(tid) => past.after_mutex_unlock(tid, id),
            }
        }
    }
}

/// With the detector off, the system calls on a mutex reach the mutex one
/// for one: after any of them the mutex of the process is the mutex of the
/// history of those calls. So mutual exclusion and service in the order of
/// arrival hold of the system calls as they hold of the mutex.
pub proof fn lemma_detector_off_calls_reach_mutex(process: ProcessView, id: int, calls: Seq<MutexCall>)
    requires
        !process.detect,
        process.has_mutex(id),
    ensures
        !process.after_mutex_calls(id, calls).detect,
        process.after_mutex_calls(id, calls).has_mutex(id),
        process.after_mutex_calls(id, calls).mutex(id) == MutexHistory::begin(process.mutex(id)).run(
            calls,
        ).mutex,
    decreases calls.len(),
{
    if calls.len() > 0 {
        lemma_detector_off_calls_reach_mutex(process, id, calls.drop_last());
    }
}

/// One call on a semaphore; `Down` names the task that makes it.
pub enum SemaphoreCall {
    Up,
    Down(usize),
}

/// Number of `Up` calls among `calls`.
pub open spec fn ups(calls: Seq<SemaphoreCall>) -> nat
    decreases calls.len(),
{
    if calls.len() == 0 {
        0
    } else if calls.last() is Up {
        ups(calls.drop_last()) + 1
    } else {
        ups(calls.drop_last())
    }
}

/// Number of `Down` calls among `calls`.
pub open spec fn downs(calls: Seq<SemaphoreCall>) -> nat
    decreases calls.len(),
{
    if calls.len() == 0 {
        0
    } else if calls.last() is Down {
        downs(calls.drop_last()) + 1
    } else {
        downs(calls.drop_last())
    }
}

impl SemaphoreView {
    /// The semaphore after one more call.
    pub open spec fn step(self, call: SemaphoreCall) -> SemaphoreView {
        match call {
            SemaphoreCall::Up => self.after_up(),
            SemaphoreCall::Down(tid) => self.after_down(tid),
        }
    }

    /// The semaphore after `calls`, the first of them first.
    pub open spec fn run(self, calls: Seq<SemaphoreCall>) -> SemaphoreView
        decreases calls.len(),
    {
        if calls.len() == 0 {
            self
        } else {
            self.run(calls.drop_last()).step(calls.last())
        }
    }
}

/// The balance of a semaphore. After any calls the count is what it was,
/// plus the number of `up` calls, minus the number of `down` calls. A
/// semaphore that was well formed stays so: the tasks whose `down` has not
/// been granted yet are as many as the count is below zero, so the count
/// is zero or more exactly when every `down` has been granted.
pub proof fn lemma_semaphore_balance(semaphore: SemaphoreView, calls: Seq<SemaphoreCall>)
    ensures
        semaphore.run(calls).count == semaphore.count + ups(calls) - downs(calls),
        semaphore.run(calls).id == semaphore.id,
        semaphore.wf() ==> semaphore.run(calls).wf(),
        semaphore.wf() ==> (semaphore.run(calls).queue.len() == 0 <==> semaphore.run(calls).count >= 0),
    decreases calls.len(),
{
    if calls.len() > 0 {
        lemma_semaphore_balance(semaphore, calls.drop_last());
    }
}

} // verus!
