use ksync::table::ResourceTable;

fn table(allocation: Vec<Vec<isize>>, need: Vec<Vec<isize>>, available: Vec<isize>) -> ResourceTable {
    ResourceTable { allocation, need, available }
}

#[test]
fn circular_wait_is_unsafe() {
    let cycle = table(vec![vec![1, 0], vec![0, 1]], vec![vec![0, 1], vec![1, 0]], vec![0, 0]);
    assert!(!cycle.is_safe());
}

#[test]
fn one_pending_request_of_two_holders_is_safe() {
    let waiting = table(vec![vec![1, 0], vec![0, 1]], vec![vec![0, 1], vec![0, 0]], vec![0, 0]);
    assert!(waiting.is_safe());
}

#[test]
fn table_without_tasks_is_safe() {
    assert!(ResourceTable::new().is_safe());
    assert!(table(vec![], vec![], vec![0, 0]).is_safe());
}

#[test]
fn tasks_without_resources_are_safe() {
    assert!(table(vec![vec![], vec![]], vec![vec![], vec![]], vec![]).is_safe());
}

#[test]
fn textbook_state_with_a_safe_order_is_safe() {
    let state = table(
        vec![vec![0, 1, 0], vec![2, 0, 0], vec![3, 0, 2], vec![2, 1, 1], vec![0, 0, 2]],
        vec![vec![7, 4, 3], vec![1, 2, 2], vec![6, 0, 0], vec![0, 1, 1], vec![4, 3, 1]],
        vec![3, 3, 2],
    );
    assert!(state.is_safe());
}

#[test]
fn textbook_state_with_too_little_left_is_unsafe() {
    let state = table(
        vec![vec![0, 1, 0], vec![2, 0, 0], vec![3, 0, 2], vec![2, 1, 1], vec![0, 0, 2]],
        vec![vec![7, 4, 3], vec![1, 2, 2], vec![6, 0, 0], vec![0, 1, 1], vec![4, 3, 1]],
        vec![0, 1, 0],
    );
    assert!(!state.is_safe());
}

#[test]
fn later_task_may_have_to_run_first() {
    let state = table(vec![vec![0], vec![0], vec![2]], vec![vec![2], vec![1], vec![0]], vec![0]);
    assert!(state.is_safe());
}

#[test]
fn single_task_that_needs_more_than_there_is_is_unsafe() {
    assert!(!table(vec![vec![0]], vec![vec![2]], vec![1]).is_safe());
    assert!(table(vec![vec![0]], vec![vec![1]], vec![1]).is_safe());
}

#[test]
fn need_is_compared_column_by_column() {
    let state = table(vec![vec![0, 0]], vec![vec![1, 3]], vec![5, 2]);
    assert!(!state.is_safe());
    let state = table(vec![vec![0, 0]], vec![vec![1, 2]], vec![5, 2]);
    assert!(state.is_safe());
}

#[test]
fn lowest_ready_task_runs_first_even_with_negative_holdings() {
    let state = table(vec![vec![-1], vec![0]], vec![vec![0], vec![1]], vec![1]);
    assert!(!state.is_safe());
    let swapped = table(vec![vec![0], vec![-1]], vec![vec![1], vec![0]], vec![1]);
    assert!(swapped.is_safe());
}

#[test]
fn holdings_at_the_limits_do_not_overflow() {
    let state = table(
        vec![vec![isize::MAX], vec![isize::MAX], vec![isize::MAX]],
        vec![vec![0], vec![isize::MAX], vec![isize::MAX]],
        vec![isize::MAX],
    );
    assert!(state.is_safe());
    let state = table(
        vec![vec![isize::MIN], vec![isize::MIN]],
        vec![vec![isize::MIN], vec![isize::MIN]],
        vec![isize::MIN],
    );
    assert!(!state.is_safe());
}
