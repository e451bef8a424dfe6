use ksync::mutex::MutexKind;
use ksync::process::ProcessSync;
use ksync::syscall::{
    sys_enable_deadlock_detect, sys_mutex_create, sys_mutex_lock, sys_mutex_unlock,
    sys_semaphore_create, sys_semaphore_down, sys_semaphore_up, Suspend, DEADLOCK,
};

fn locked(process: &ProcessSync, id: usize) -> bool {
    match process.mutex_list[id].as_ref().unwrap() {
        MutexKind::Spin(mutex) => mutex.locked,
        MutexKind::Blocking(mutex) => mutex.inner.locked,
    }
}

fn waiters(process: &ProcessSync, id: usize) -> Vec<usize> {
    match process.mutex_list[id].as_ref().unwrap() {
        MutexKind::Spin(_) => Vec::new(),
        MutexKind::Blocking(mutex) => mutex.inner.wait_queue.iter().copied().collect(),
    }
}

#[test]
fn blocking_mutex_is_handed_to_the_waiter() {
    let mut process = ProcessSync::new();
    let t1 = process.add_task();
    let t2 = process.add_task();
    let t3 = process.add_task();
    assert_eq!(sys_mutex_create(&mut process, true), 0);
    assert_eq!(process.mutex_table.available, vec![1]);

    let first = sys_mutex_lock(&mut process, t1, 0);
    assert_eq!(first.code, 0);
    assert_eq!(first.suspend, Suspend::No);
    assert_eq!(first.wake, None);
    assert_eq!(process.mutex_table.available, vec![0]);
    assert_eq!(process.mutex_table.allocation[t1], vec![1]);
    assert_eq!(process.mutex_table.need[t1], vec![0]);
    assert!(locked(&process, 0));

    let second = sys_mutex_lock(&mut process, t2, 0);
    assert_eq!(second.code, 0);
    assert_eq!(second.suspend, Suspend::Block);
    assert_eq!(waiters(&process, 0), vec![t2]);
    assert_eq!(process.mutex_table.need[t2], vec![1]);

    let release = sys_mutex_unlock(&mut process, t1, 0);
    assert_eq!(release.code, 0);
    assert_eq!(release.wake, Some(t2));
    assert_eq!(release.suspend, Suspend::No);
    assert!(locked(&process, 0));
    assert!(waiters(&process, 0).is_empty());
    assert_eq!(process.mutex_table.allocation[t1], vec![0]);
    assert_eq!(process.mutex_table.available, vec![1]);

    let racer = sys_mutex_lock(&mut process, t3, 0);
    assert_eq!(racer.suspend, Suspend::Block);
    assert_eq!(waiters(&process, 0), vec![t3]);
}

fn two_tasks_two_mutexes() -> (ProcessSync, usize, usize) {
    let mut process = ProcessSync::new();
    let t1 = process.add_task();
    let t2 = process.add_task();
    assert_eq!(sys_enable_deadlock_detect(&mut process, 1), 0);
    assert_eq!(sys_mutex_create(&mut process, true), 0);
    assert_eq!(sys_mutex_create(&mut process, true), 1);
    assert_eq!(sys_mutex_lock(&mut process, t1, 0).suspend, Suspend::No);
    assert_eq!(sys_mutex_lock(&mut process, t2, 1).suspend, Suspend::No);
    (process, t1, t2)
}

#[test]
fn second_task_closing_the_cycle_is_turned_down() {
    let (mut process, t1, t2) = two_tasks_two_mutexes();
    let waiting = sys_mutex_lock(&mut process, t1, 1);
    assert_eq!(waiting.code, 0);
    assert_eq!(waiting.suspend, Suspend::Block);
    let denied = sys_mutex_lock(&mut process, t2, 0);
    assert_eq!(denied.code, DEADLOCK);
    assert_eq!(denied.code, -0xDEAD);
    assert_eq!(denied.suspend, Suspend::No);
    assert_eq!(denied.wake, None);
    assert!(waiters(&process, 0).is_empty());
    assert_eq!(waiters(&process, 1), vec![t1]);
}

#[test]
fn first_task_closing_the_cycle_is_turned_down() {
    let (mut process, t1, t2) = two_tasks_two_mutexes();
    let waiting = sys_mutex_lock(&mut process, t2, 0);
    assert_eq!(waiting.suspend, Suspend::Block);
    let denied = sys_mutex_lock(&mut process, t1, 1);
    assert_eq!(denied.code, DEADLOCK);
    assert_eq!(denied.suspend, Suspend::No);
    assert!(waiters(&process, 1).is_empty());
    assert_eq!(waiters(&process, 0), vec![t2]);
}

#[test]
fn denied_request_leaves_no_trace_and_can_be_made_again() {
    let (mut process, t1, t2) = two_tasks_two_mutexes();
    sys_mutex_lock(&mut process, t1, 1);
    let need = process.mutex_table.need.clone();
    let allocation = process.mutex_table.allocation.clone();
    let available = process.mutex_table.available.clone();
    assert_eq!(sys_mutex_lock(&mut process, t2, 0).code, DEADLOCK);
    assert_eq!(process.mutex_table.need, need);
    assert_eq!(process.mutex_table.allocation, allocation);
    assert_eq!(process.mutex_table.available, available);
    assert_eq!(sys_mutex_lock(&mut process, t2, 0).code, DEADLOCK);
    assert_eq!(process.mutex_table.need, need);

    let release = sys_mutex_unlock(&mut process, t2, 1);
    assert_eq!(release.wake, Some(t1));
    let again = sys_mutex_lock(&mut process, t2, 0);
    assert_eq!(again.code, 0);
    assert_eq!(again.suspend, Suspend::Block);
    assert_eq!(waiters(&process, 0), vec![t2]);
}

#[test]
fn without_the_detector_the_cycle_blocks_both() {
    let mut process = ProcessSync::new();
    let t1 = process.add_task();
    let t2 = process.add_task();
    sys_mutex_create(&mut process, true);
    sys_mutex_create(&mut process, true);
    sys_mutex_lock(&mut process, t1, 0);
    sys_mutex_lock(&mut process, t2, 1);
    assert_eq!(sys_mutex_lock(&mut process, t1, 1).suspend, Suspend::Block);
    let second = sys_mutex_lock(&mut process, t2, 0);
    assert_eq!(second.code, 0);
    assert_eq!(second.suspend, Suspend::Block);
}

#[test]
fn semaphore_unit_goes_to_the_waiter() {
    let mut process = ProcessSync::new();
    let t1 = process.add_task();
    let t2 = process.add_task();
    assert_eq!(sys_semaphore_create(&mut process, 0), 0);
    let down = sys_semaphore_down(&mut process, t1, 0);
    assert_eq!(down.code, 0);
    assert_eq!(down.suspend, Suspend::Block);
    {
        let semaphore = process.semaphore_list[0].as_ref().unwrap();
        assert_eq!(semaphore.inner.count, -1);
        assert_eq!(semaphore.inner.wait_queue.len(), 1);
    }
    let up = sys_semaphore_up(&mut process, t2, 0);
    assert_eq!(up.code, 0);
    assert_eq!(up.wake, Some(t1));
    assert_eq!(up.suspend, Suspend::No);
    let semaphore = process.semaphore_list[0].as_ref().unwrap();
    assert_eq!(semaphore.inner.count, 0);
    assert!(semaphore.inner.wait_queue.is_empty());
    assert_eq!(process.semaphore_table.allocation[t2], vec![-1]);
    assert_eq!(process.semaphore_table.available, vec![1]);
    assert_eq!(process.semaphore_table.need[t1], vec![1]);
}

#[test]
fn waiters_are_served_in_the_order_of_arrival() {
    let mut process = ProcessSync::new();
    let holder = process.add_task();
    let a = process.add_task();
    let b = process.add_task();
    let c = process.add_task();
    sys_mutex_create(&mut process, true);
    sys_mutex_lock(&mut process, holder, 0);
    sys_mutex_lock(&mut process, a, 0);
    sys_mutex_lock(&mut process, b, 0);
    sys_mutex_lock(&mut process, c, 0);
    assert_eq!(waiters(&process, 0), vec![a, b, c]);
    assert_eq!(sys_mutex_unlock(&mut process, holder, 0).wake, Some(a));
    assert_eq!(sys_mutex_unlock(&mut process, a, 0).wake, Some(b));
    assert_eq!(sys_mutex_unlock(&mut process, b, 0).wake, Some(c));
    assert!(locked(&process, 0));
    assert_eq!(sys_mutex_unlock(&mut process, c, 0).wake, None);
    assert!(!locked(&process, 0));
}

#[test]
fn one_holder_at_a_time() {
    let mut process = ProcessSync::new();
    let tasks: Vec<usize> = (0..4).map(|_| process.add_task()).collect();
    sys_mutex_create(&mut process, true);
    let mut holder: Option<usize> = None;
    for round in 0..3 {
        for &task in &tasks {
            if Some(task) == holder {
                continue;
            }
            let outcome = sys_mutex_lock(&mut process, task, 0);
            if outcome.suspend == Suspend::No {
                assert_eq!(holder, None, "round {}", round);
                holder = Some(task);
            } else {
                assert_eq!(outcome.suspend, Suspend::Block);
                assert!(holder.is_some());
            }
        }
        for _ in 0..tasks.len() {
            let release = sys_mutex_unlock(&mut process, holder.unwrap(), 0);
            holder = release.wake;
            assert_eq!(locked(&process, 0), holder.is_some());
        }
        assert_eq!(holder, None);
    }
}

#[test]
fn semaphore_count_balances_ups_and_downs() {
    let mut process = ProcessSync::new();
    let tasks: Vec<usize> = (0..5).map(|_| process.add_task()).collect();
    sys_semaphore_create(&mut process, 2);
    for &task in &tasks {
        sys_semaphore_down(&mut process, task, 0);
    }
    assert_eq!(process.semaphore_list[0].as_ref().unwrap().inner.count, 2 - 5);
    assert_eq!(process.semaphore_list[0].as_ref().unwrap().inner.wait_queue.len(), 3);
    let mut woken = Vec::new();
    for _ in 0..4 {
        if let Some(task) = sys_semaphore_up(&mut process, tasks[0], 0).wake {
            woken.push(task);
        }
    }
    assert_eq!(woken, vec![tasks[2], tasks[3], tasks[4]]);
    let semaphore = process.semaphore_list[0].as_ref().unwrap();
    assert_eq!(semaphore.inner.count, 2 + 4 - 5);
    assert!(semaphore.inner.wait_queue.is_empty());
}

#[test]
fn freed_slot_reads_as_new_when_used_again() {
    let mut process = ProcessSync::new();
    let t1 = process.add_task();
    let t2 = process.add_task();
    assert_eq!(sys_mutex_create(&mut process, true), 0);
    assert_eq!(sys_mutex_create(&mut process, true), 1);
    assert_eq!(sys_mutex_create(&mut process, false), 2);
    sys_mutex_lock(&mut process, t1, 1);
    sys_mutex_lock(&mut process, t2, 1);
    assert_eq!(process.mutex_table.available, vec![1, 0, 1]);
    assert_eq!(process.mutex_table.allocation[t1], vec![0, 1, 0]);
    assert_eq!(process.mutex_table.need[t2], vec![0, 1, 0]);

    process.release_mutex(1);
    assert!(process.mutex_list[1].is_none());
    assert_eq!(sys_mutex_create(&mut process, true), 1);
    assert_eq!(process.mutex_table.available, vec![1, 1, 1]);
    assert_eq!(process.mutex_table.allocation[t1], vec![0, 0, 0]);
    assert_eq!(process.mutex_table.allocation[t2], vec![0, 0, 0]);
    assert_eq!(process.mutex_table.need[t1], vec![0, 0, 0]);
    assert_eq!(process.mutex_table.need[t2], vec![0, 0, 0]);
    assert!(!locked(&process, 1));
    assert!(waiters(&process, 1).is_empty());
    match process.mutex_list[1].as_ref().unwrap() {
        MutexKind::Blocking(mutex) => assert_eq!(mutex.id, 1),
        MutexKind::Spin(_) => panic!("a blocking mutex was asked for"),
    }

    assert_eq!(sys_mutex_create(&mut process, true), 3);
    assert_eq!(process.mutex_table.available, vec![1, 1, 1, 1]);
    assert_eq!(process.mutex_table.allocation[t1], vec![0, 0, 0, 0]);
    assert_eq!(process.mutex_table.need[t2], vec![0, 0, 0, 0]);
    assert_eq!(sys_mutex_lock(&mut process, t2, 1).suspend, Suspend::No);
}

#[test]
fn freed_semaphore_slot_reads_as_new_when_used_again() {
    let mut process = ProcessSync::new();
    let t1 = process.add_task();
    assert_eq!(sys_semaphore_create(&mut process, 3), 0);
    assert_eq!(sys_semaphore_create(&mut process, 1), 1);
    sys_semaphore_down(&mut process, t1, 0);
    sys_semaphore_down(&mut process, t1, 0);
    assert_eq!(process.semaphore_table.available, vec![1, 1]);
    assert_eq!(process.semaphore_table.allocation[t1], vec![2, 0]);
    process.release_semaphore(0);
    assert_eq!(sys_semaphore_create(&mut process, 5), 0);
    assert_eq!(process.semaphore_table.available, vec![5, 1]);
    assert_eq!(process.semaphore_table.allocation[t1], vec![0, 0]);
    assert_eq!(process.semaphore_table.need[t1], vec![0, 0]);
    let semaphore = process.semaphore_list[0].as_ref().unwrap();
    assert_eq!(semaphore.inner.count, 5);
    assert_eq!(semaphore.id, 0);
}
