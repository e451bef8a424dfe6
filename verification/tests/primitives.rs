use ksync::condvar::Condvar;
use ksync::mutex::{Admission, Mutex, MutexBlocking, MutexKind, MutexSpin};
use ksync::semaphore::Semaphore;
use ksync::table::ResourceTable;

fn table(tasks: usize, units: &[isize]) -> ResourceTable {
    let mut table = ResourceTable::new();
    for _ in 0..tasks {
        table.add_task();
    }
    for &unit in units {
        table.add_resource(unit);
    }
    table
}

#[test]
fn spin_mutex_is_granted_when_free_and_retried_when_taken() {
    let mut table = table(2, &[1]);
    let mut mutex = MutexSpin::new(0);
    assert!(!mutex.locked);
    assert_eq!(mutex.id, 0);
    assert_eq!(mutex.lock(&mut table, 0), Admission::Granted);
    assert!(mutex.locked);
    assert_eq!(mutex.lock(&mut table, 1), Admission::Retry);
    assert_eq!(mutex.lock(&mut table, 1), Admission::Retry);
    assert!(mutex.locked);
    assert_eq!(mutex.unlock(&mut table, 0), None);
    assert!(!mutex.locked);
    assert_eq!(mutex.lock(&mut table, 1), Admission::Granted);
}

#[test]
fn spin_mutex_leaves_the_table_alone() {
    let mut table = table(2, &[1]);
    let mut mutex = MutexSpin::new(0);
    mutex.lock(&mut table, 0);
    mutex.lock(&mut table, 1);
    mutex.unlock(&mut table, 0);
    assert_eq!(table.allocation, vec![vec![0], vec![0]]);
    assert_eq!(table.need, vec![vec![0], vec![0]]);
    assert_eq!(table.available, vec![1]);
}

#[test]
fn blocking_mutex_grants_and_books_the_grant() {
    let mut table = table(2, &[1, 1]);
    let mut mutex = MutexBlocking::new(1);
    assert!(!mutex.inner.locked);
    assert!(mutex.inner.wait_queue.is_empty());
    table.request(0, 1);
    assert_eq!(mutex.lock(&mut table, 0), Admission::Granted);
    assert!(mutex.inner.locked);
    assert_eq!(table.allocation, vec![vec![0, 1], vec![0, 0]]);
    assert_eq!(table.need, vec![vec![0, 0], vec![0, 0]]);
    assert_eq!(table.available, vec![1, 0]);
}

#[test]
fn blocking_mutex_queues_contenders_and_books_nothing() {
    let mut table = table(3, &[1]);
    let mut mutex = MutexBlocking::new(0);
    table.request(0, 0);
    mutex.lock(&mut table, 0);
    table.request(1, 0);
    assert_eq!(mutex.lock(&mut table, 1), Admission::Blocked);
    table.request(2, 0);
    assert_eq!(mutex.lock(&mut table, 2), Admission::Blocked);
    assert_eq!(mutex.inner.wait_queue.iter().copied().collect::<Vec<usize>>(), vec![1, 2]);
    assert_eq!(table.allocation, vec![vec![1], vec![0], vec![0]]);
    assert_eq!(table.need, vec![vec![0], vec![1], vec![1]]);
    assert_eq!(table.available, vec![0]);
}

#[test]
fn blocking_unlock_books_the_release_with_and_without_waiters() {
    let mut table = table(2, &[1]);
    let mut mutex = MutexBlocking::new(0);
    table.request(0, 0);
    mutex.lock(&mut table, 0);
    table.request(1, 0);
    mutex.lock(&mut table, 1);
    assert_eq!(mutex.unlock(&mut table, 0), Some(1));
    assert!(mutex.inner.locked);
    assert!(mutex.inner.wait_queue.is_empty());
    assert_eq!(table.allocation, vec![vec![0], vec![0]]);
    assert_eq!(table.available, vec![1]);
    assert_eq!(table.need, vec![vec![0], vec![1]]);
    assert_eq!(mutex.unlock(&mut table, 1), None);
    assert!(!mutex.inner.locked);
    assert_eq!(table.allocation, vec![vec![0], vec![-1]]);
    assert_eq!(table.available, vec![2]);
}

#[test]
fn either_discipline_answers_through_the_common_type() {
    let mut table = table(2, &[1, 1]);
    let mut spin = MutexKind::Spin(MutexSpin::new(0));
    let mut blocking = MutexKind::Blocking(MutexBlocking::new(1));
    assert_eq!(spin.lock(&mut table, 0), Admission::Granted);
    assert_eq!(spin.lock(&mut table, 1), Admission::Retry);
    table.request(0, 1);
    assert_eq!(blocking.lock(&mut table, 0), Admission::Granted);
    assert_eq!(blocking.lock(&mut table, 1), Admission::Blocked);
    assert_eq!(spin.unlock(&mut table, 0), None);
    assert_eq!(blocking.unlock(&mut table, 0), Some(1));
}

#[test]
fn semaphore_grants_while_units_last() {
    let mut table = table(3, &[2]);
    let mut semaphore = Semaphore::new(2, 0);
    assert_eq!(semaphore.inner.count, 2);
    assert_eq!(semaphore.id, 0);
    table.request(0, 0);
    assert_eq!(semaphore.down(&mut table, 0), Admission::Granted);
    table.request(1, 0);
    assert_eq!(semaphore.down(&mut table, 1), Admission::Granted);
    assert_eq!(semaphore.inner.count, 0);
    assert_eq!(table.allocation, vec![vec![1], vec![1], vec![0]]);
    assert_eq!(table.need, vec![vec![0], vec![0], vec![0]]);
    assert_eq!(table.available, vec![0]);
    table.request(2, 0);
    assert_eq!(semaphore.down(&mut table, 2), Admission::Blocked);
    assert_eq!(semaphore.inner.count, -1);
    assert_eq!(semaphore.inner.wait_queue.iter().copied().collect::<Vec<usize>>(), vec![2]);
    assert_eq!(table.need, vec![vec![0], vec![0], vec![1]]);
    assert_eq!(table.available, vec![0]);
}

#[test]
fn semaphore_up_wakes_only_when_somebody_waits() {
    let mut table = table(2, &[1]);
    let mut semaphore = Semaphore::new(1, 0);
    assert_eq!(semaphore.up(&mut table, 0), None);
    assert_eq!(semaphore.inner.count, 2);
    assert_eq!(table.allocation, vec![vec![-1], vec![0]]);
    assert_eq!(table.available, vec![2]);

    let mut semaphore = Semaphore::new(0, 0);
    semaphore.down(&mut table, 1);
    assert_eq!(semaphore.up(&mut table, 0), Some(1));
    assert_eq!(semaphore.inner.count, 0);
    assert_eq!(semaphore.up(&mut table, 0), None);
    assert_eq!(semaphore.inner.count, 1);
}

#[test]
fn signal_without_waiters_is_lost() {
    let mut condvar = Condvar::new();
    assert_eq!(condvar.signal(), None);
    assert!(condvar.wait_queue.is_empty());
    let mut table = table(2, &[1]);
    let mut mutex = MutexBlocking::new(0);
    table.request(0, 0);
    mutex.lock(&mut table, 0);
    assert_eq!(condvar.wait(&mut mutex, &mut table, 0), None);
    assert_eq!(condvar.wait_queue.len(), 1);
}

#[test]
fn wait_gives_the_mutex_up_and_queues_the_caller() {
    let mut table = table(3, &[1]);
    let mut mutex = MutexBlocking::new(0);
    let mut condvar = Condvar::new();
    table.request(0, 0);
    mutex.lock(&mut table, 0);
    table.request(1, 0);
    mutex.lock(&mut table, 1);
    assert_eq!(condvar.wait(&mut mutex, &mut table, 0), Some(1));
    assert!(mutex.inner.locked);
    assert_eq!(table.allocation, vec![vec![0], vec![0], vec![0]]);
    assert_eq!(table.available, vec![1]);
    assert_eq!(condvar.wait(&mut mutex, &mut table, 1), None);
    assert!(!mutex.inner.locked);
    assert_eq!(condvar.wait_queue.iter().copied().collect::<Vec<usize>>(), vec![0, 1]);
    assert_eq!(condvar.signal(), Some(0));
    assert_eq!(condvar.signal(), Some(1));
    assert_eq!(condvar.signal(), None);
}
