//! The deadlock detector: a safety check over one resource table.
//!
//! A table is safe when its tasks can run to completion one after another,
//! each finding what it still needs among the unclaimed units and what the
//! tasks before it gave back.

use crate::table::{ResourceTable, TableView};
use vstd::prelude::*;

verus! {

impl TableView {
    /// Unclaimed units of resource `r` once the tasks of `order` have run to
    /// completion and given back what they held.
    pub open spec fn work_after(self, order: Seq<int>, r: int) -> int
        decreases order.len(),
    {
        if order.len() == 0 {
            self.available[r]
        } else {
            self.work_after(order.drop_last(), r) + self.allocation[order.last()][r]
        }
    }

    /// Task `t` has not run yet, and what the tasks of `order` leave behind
    /// covers all that it needs.
    pub open spec fn can_run(self, order: Seq<int>, t: int) -> bool {
        &&& 0 <= t < self.tasks()
        &&& !order.contains(t)
        &&& forall|r: int|
            0 <= r < self.resources() ==> self.need[t][r] <= #[trigger] self.work_after(order, r)
    }

    /// Each task of `order` can run once those before it have completed.
    pub open spec fn completion_order(self, order: Seq<int>) -> bool {
        forall|k: int| 0 <= k < order.len() ==> self.can_run(#[trigger] order.take(k), order[k])
    }

    /// `order` lets every task of the table run to completion.
    pub open spec fn safe_order(self, order: Seq<int>) -> bool {
        self.completion_order(order) && order.len() == self.tasks()
    }

    /// No task holds a negative number of units.
    pub open spec fn holdings_nonnegative(self) -> bool {
        forall|t: int, r: int|
            0 <= t < self.tasks() && 0 <= r < self.resources() ==> 0 <= #[trigger] self.allocation[t][r]
    }

    /// The lowest task from `from` on that can run after `order`, or the
    /// number of tasks if there is none.
    pub open spec fn first_ready(self, order: Seq<int>, from: int) -> int
        decreases self.tasks() - from,
    {
        if from >= self.tasks() {
            self.tasks() as int
        } else if self.can_run(order, from) {
            from
        } else {
            self.first_ready(order, from + 1)
        }
    }

    /// The order in which the detector completes tasks during its first
    /// `rounds` rounds: each round takes the lowest task that can run, and
    /// a round that finds none leaves the order as it is.
    pub open spec fn greedy_order(self, rounds: nat) -> Seq<int>
        decreases rounds,
    {
        if rounds == 0 {
            Seq::empty()
        } else {
            let order = self.greedy_order((rounds - 1) as nat);
            let t = self.first_ready(order, 0);
            if t < self.tasks() {
                order.push(t)
            } else {
                order
            }
        }
    }

    /// What the detector answers: its greedy order reaches every task.
    pub open spec fn is_safe(self) -> bool {
        self.greedy_order(self.tasks()).len() == self.tasks()
    }

    /// `first_ready` returns the lowest task from `from` on that can run,
    /// or the number of tasks where none can.
    pub proof fn lemma_first_ready(self, order: Seq<int>, from: int)
        requires
            0 <= from <= self.tasks(),
        ensures
            from <= self.first_ready(order, from) <= self.tasks(),
            self.first_ready(order, from) < self.tasks() ==> self.can_run(
                order,
                self.first_ready(order, from),
            ),
            forall|t: int| from <= t < self.first_ready(order, from) ==> !self.can_run(order, t),
        decreases self.tasks() - from,
    {
        if from < self.tasks() && !self.can_run(order, from) {
            self.lemma_first_ready(order, from + 1);
        }
    }

    /// The greedy order is a completion order with at most one task per round.
    pub proof fn lemma_greedy_order(self, rounds: nat)
        ensures
            self.completion_order(self.greedy_order(rounds)),
            self.greedy_order(rounds).len() <= rounds,
        decreases rounds,
    {
        if rounds > 0 {
            let before = self.greedy_order((rounds - 1) as nat);
            let t = self.first_ready(before, 0);
            self.lemma_greedy_order((rounds - 1) as nat);
            self.lemma_first_ready(before, 0);
            if t < self.tasks() {
                let order = before.push(t);
                assert forall|k: int| 0 <= k < order.len() implies self.can_run(
                    #[trigger] order.take(k),
                    order[k],
                ) by {
                    if k < before.len() {
                        assert(order.take(k) =~= before.take(k));
                    } else {
                        assert(order.take(k) =~= before);
                    }
                }
            }
        }
    }

    /// Once a round finds no task that can run, later rounds add nothing.
    pub proof fn lemma_greedy_stalls(self, stalled: nat, rounds: nat)
        requires
            stalled <= rounds,
            self.first_ready(self.greedy_order(stalled), 0) >= self.tasks(),
        ensures
            self.greedy_order(rounds) == self.greedy_order(stalled),
        decreases rounds,
    {
        if rounds > stalled {
            self.lemma_greedy_stalls(stalled, (rounds - 1) as nat);
        }
    }

    /// When the detector calls a table safe, its greedy order completes
    /// every task.
    pub proof fn lemma_safe_has_order(self)
        requires
            self.is_safe(),
        ensures
            self.safe_order(self.greedy_order(self.tasks())),
    {
        self.lemma_greedy_order(self.tasks());
    }

    /// An order that has fewer tasks than rounds were made has stalled: no
    /// task can run after it.
    pub proof fn lemma_short_order_is_stuck(self, rounds: nat)
        requires
            self.greedy_order(rounds).len() < rounds,
        ensures
            forall|t: int| !self.can_run(self.greedy_order(rounds), t),
        decreases rounds,
    {
        let before = self.greedy_order((rounds - 1) as nat);
        self.lemma_greedy_order((rounds - 1) as nat);
        if before.len() < rounds - 1 {
            self.lemma_short_order_is_stuck((rounds - 1) as nat);
            assert(!(self.first_ready(before, 0) < self.tasks())) by {
                self.lemma_first_ready(before, 0);
            }
        } else {
            self.lemma_first_ready(before, 0);
        }
    }

    /// When the detector calls a table unsafe, it has completed fewer
    /// tasks than there are and none of the others can run.
    pub proof fn lemma_unsafe_is_stuck(self)
        requires
            !self.is_safe(),
        ensures
            self.completion_order(self.greedy_order(self.tasks())),
            self.greedy_order(self.tasks()).len() < self.tasks(),
            forall|t: int| !self.can_run(self.greedy_order(self.tasks()), t),
    {
        self.lemma_greedy_order(self.tasks());
        self.lemma_short_order_is_stuck(self.tasks());
    }

    /// Where there are tasks and none of them can run on the unclaimed
    /// units alone, the detector calls the table unsafe.
    pub proof fn lemma_circular_wait_is_unsafe(self)
        requires
            self.tasks() > 0,
            forall|t: int| 0 <= t < self.tasks() ==> !self.can_run(Seq::empty(), t),
        ensures
            !self.is_safe(),
    {
        self.lemma_first_ready(Seq::empty(), 0);
        assert(self.greedy_order(0) == Seq::<int>::empty());
        self.lemma_greedy_stalls(0, self.tasks());
    }

    /// Units of resource `r` held by those of the first `k` tasks that
    /// belong to `done`.
    spec fn held_by(self, done: Set<int>, r: int, k: nat) -> int
        decreases k,
    {
        if k == 0 {
            0
        } else if done.contains(k - 1) {
            self.held_by(done, r, (k - 1) as nat) + self.allocation[k - 1][r]
        } else {
            self.held_by(done, r, (k - 1) as nat)
        }
    }

    /// A task that joins `done` adds what it holds, if it is among the
    /// first `k` tasks.
    proof fn lemma_held_by_insert(self, done: Set<int>, t: int, r: int, k: nat)
        requires
            !done.contains(t),
            0 <= t,
        ensures
            self.held_by(done.insert(t), r, k) == self.held_by(done, r, k) + if t < k {
                self.allocation[t][r]
            } else {
                0
            },
        decreases k,
    {
        if k > 0 {
            self.lemma_held_by_insert(done, t, r, (k - 1) as nat);
        }
    }

    /// With no negative holdings, more tasks hold at least as much.
    proof fn lemma_held_by_grows(self, small: Set<int>, large: Set<int>, r: int, k: nat)
        requires
            self.holdings_nonnegative(),
            small.subset_of(large),
            0 <= r < self.resources(),
            k <= self.tasks(),
        ensures
            self.held_by(small, r, k) <= self.held_by(large, r, k),
        decreases k,
    {
        if k > 0 {
            self.lemma_held_by_grows(small, large, r, (k - 1) as nat);
            assert(0 <= self.allocation[k - 1][r]);
        }
    }

    /// The beginning of a completion order is a completion order.
    proof fn lemma_completion_prefix(self, order: Seq<int>, len: int)
        requires
            self.completion_order(order),
            0 <= len <= order.len(),
        ensures
            self.completion_order(order.take(len)),
    {
        let head = order.take(len);
        assert forall|k: int| 0 <= k < head.len() implies self.can_run(
            #[trigger] head.take(k),
            head[k],
        ) by {
            assert(head.take(k) =~= order.take(k));
        }
    }

    /// A completion order names tasks of the table, each once, and leaves
    /// unclaimed what was unclaimed before together with what its tasks held.
    proof fn lemma_completion_order_holdings(self, order: Seq<int>, r: int)
        requires
            self.completion_order(order),
        ensures
            order.no_duplicates(),
            forall|k: int| 0 <= k < order.len() ==> 0 <= #[trigger] order[k] < self.tasks(),
            self.work_after(order, r) == self.available[r] + self.held_by(
                order.to_set(),
                r,
                self.tasks(),
            ),
        decreases order.len(),
    {
        if order.len() == 0 {
            assert(order.to_set() =~= Set::<int>::empty());
            self.lemma_held_by_none(r, self.tasks());
        } else {
            let head = order.drop_last();
            let t = order.last();
            self.lemma_completion_prefix(order, order.len() - 1);
            self.lemma_completion_order_holdings(head, r);
            assert(self.can_run(order.take(order.len() - 1), order[order.len() - 1]));
            assert(!head.contains(t));
            assert(order.to_set() =~= head.to_set().insert(t)) by {
                assert forall|x: int| order.to_set().contains(x) implies head.to_set().insert(
                    t,
                ).contains(x) by {
                    let i = choose|i: int| 0 <= i < order.len() && order[i] == x;
                    if i < head.len() {
                        assert(head[i] == x);
                    }
                }
                assert forall|x: int| head.to_set().insert(t).contains(x) implies order.to_set().contains(
                    x,
                ) by {
                    if x == t {
                        assert(order[order.len() - 1] == x);
                    } else {
                        let i = choose|i: int| 0 <= i < head.len() && head[i] == x;
                        assert(order[i] == x);
                    }
                }
            }
            self.lemma_held_by_insert(head.to_set(), t, r, self.tasks());
            assert forall|i: int, j: int| 0 <= i < order.len() && 0 <= j < order.len() && i != j implies order[i]
                != order[j] by {
                if i == order.len() - 1 {
                    assert(head[j] == order[j]);
                } else if j == order.len() - 1 {
                    assert(head[i] == order[i]);
                } else {
                    assert(head[i] == order[i] && head[j] == order[j]);
                }
            }
            assert forall|k: int| 0 <= k < order.len() implies 0 <= #[trigger] order[k] < self.tasks() by {
                if k < head.len() {
                    assert(head[k] == order[k]);
                }
            }
        }
    }

    /// No tasks hold nothing.
    proof fn lemma_held_by_none(self, r: int, k: nat)
        ensures
            self.held_by(Set::empty(), r, k) == 0,
        decreases k,
    {
        if k > 0 {
            self.lemma_held_by_none(r, (k - 1) as nat);
        }
    }

    /// While a safe order exists and `done` has not completed every task,
    /// some task can run after `done`: the first of the safe order that
    /// `done` has left out.
    proof fn lemma_some_task_ready(self, full: Seq<int>, done: Seq<int>, i: int) -> (t: int)
        requires
            self.holdings_nonnegative(),
            self.safe_order(full),
            self.completion_order(done),
            done.len() < self.tasks(),
            0 <= i <= self.tasks(),
            forall|j: int| 0 <= j < i ==> done.contains(#[trigger] full[j]),
        ensures
            self.can_run(done, t),
        decreases self.tasks() - i,
    {
        if i == self.tasks() {
            self.lemma_completion_order_holdings(full, 0);
            full.unique_seq_to_set();
            done.lemma_cardinality_of_set();
            assert(full.to_set().subset_of(done.to_set())) by {
                assert forall|x: int| full.to_set().contains(x) implies done.to_set().contains(x) by {
                    let j = choose|j: int| 0 <= j < full.len() && full[j] == x;
                    assert(done.contains(full[j]));
                }
            }
            vstd::seq_lib::seq_to_set_is_finite(done);
            vstd::set_lib::lemma_len_subset(full.to_set(), done.to_set());
            assert(false);
            0
        } else if done.contains(full[i]) {
            self.lemma_some_task_ready(full, done, i + 1)
        } else {
            let t = full[i];
            let head = full.take(i);
            assert(self.can_run(head, t));
            self.lemma_completion_prefix(full, i);
            assert forall|r: int| 0 <= r < self.resources() implies self.need[t][r]
                <= #[trigger] self.work_after(done, r) by {
                self.lemma_completion_order_holdings(head, r);
                self.lemma_completion_order_holdings(done, r);
                assert(head.to_set().subset_of(done.to_set())) by {
                    assert forall|x: int| head.to_set().contains(x) implies done.to_set().contains(
                        x,
                    ) by {
                        let j = choose|j: int| 0 <= j < head.len() && head[j] == x;
                        assert(done.contains(full[j]));
                    }
                }
                self.lemma_held_by_grows(head.to_set(), done.to_set(), r, self.tasks());
                assert(self.need[t][r] <= self.work_after(head, r));
            }
            t
        }
    }

    /// With a safe order and no negative holdings, every round of the
    /// detector completes a task.
    proof fn lemma_greedy_advances(self, full: Seq<int>, rounds: nat)
        requires
            self.holdings_nonnegative(),
            self.safe_order(full),
            rounds <= self.tasks(),
        ensures
            self.greedy_order(rounds).len() == rounds,
        decreases rounds,
    {
        if rounds > 0 {
            let before = self.greedy_order((rounds - 1) as nat);
            self.lemma_greedy_advances(full, (rounds - 1) as nat);
            self.lemma_greedy_order((rounds - 1) as nat);
            let t = self.lemma_some_task_ready(full, before, 0);
            self.lemma_first_ready(before, 0);
        }
    }

    /// The detector misses no safe order: where no task holds a negative
    /// number of units and some order lets every task complete, the
    /// detector calls the table safe.
    pub proof fn lemma_order_implies_safe(self, order: Seq<int>)
        requires
            self.holdings_nonnegative(),
            self.safe_order(order),
        ensures
            self.is_safe(),
    {
        self.lemma_greedy_advances(order, self.tasks());
    }

    /// Where no task holds a negative number of units, the detector calls
    /// the table safe exactly when a safe order exists.
    pub proof fn lemma_safe_iff_order_exists(self)
        requires
            self.holdings_nonnegative(),
        ensures
            self.is_safe() <==> exists|order: Seq<int>| self.safe_order(order),
    {
        if self.is_safe() {
            self.lemma_safe_has_order();
        }
        if exists|order: Seq<int>| self.safe_order(order) {
            let order = choose|order: Seq<int>| self.safe_order(order);
            self.lemma_order_implies_safe(order);
        }
    }
}

/// What the detector has worked out after some rounds: `finished` marks the
/// tasks of `order`, and `work` holds what they leave unclaimed.
spec fn tracks(
    table: TableView,
    order: Seq<int>,
    finished: Seq<bool>,
    work: Seq<i128>,
) -> bool {
    &&& finished.len() == table.tasks()
    &&& work.len() == table.resources()
    &&& forall|t: int| 0 <= t < table.tasks() ==> (#[trigger] finished[t] <==> order.contains(t))
    &&& forall|r: int| 0 <= r < table.resources() ==> #[trigger] work[r] == table.work_after(order, r)
}

impl ResourceTable {
    /// Whether `work` covers every unit that task `t` still needs.
    fn covers(&self, t: usize, work: &Vec<i128>) -> (yes: bool)
        requires
            self@.wf(),
            t < self@.tasks(),
            work@.len() == self@.resources(),
        ensures
            yes <==> forall|r: int| 0 <= r < self@.resources() ==> self@.need[t as int][r] <= work@[r],
    {
        let m = self.available.len();
        let mut r: usize = 0;
        while r < m
            invariant
                self@.wf(),
                t < self@.tasks(),
                m == self@.resources(),
                work@.len() == m,
                r <= m,
                forall|k: int| 0 <= k < r ==> self@.need[t as int][k] <= work@[k],
            decreases m - r,
        {
            assert(self@.need[t as int].len() == m);
            if self.need[t][r] as i128 > work[r] {
                return false;
            }
            r += 1;
        }
        true
    }

    /// The lowest task that is not finished and whose needs `work` covers.
    fn find_ready(&self, finished: &Vec<bool>, work: &Vec<i128>, Ghost(order): Ghost<Seq<int>>) -> (t:
        usize)
        requires
            self@.wf(),
            tracks(self@, order, finished@, work@),
        ensures
            t == self@.first_ready(order, 0),
    {
        let n = self.allocation.len();
        let mut t: usize = 0;
        while t < n
            invariant
                self@.wf(),
                tracks(self@, order, finished@, work@),
                n == self@.tasks(),
                t <= n,
                self@.first_ready(order, 0) == self@.first_ready(order, t as int),
            decreases n - t,
        {
            if !finished[t] {
                let yes = self.covers(t, work);
                if yes {
                    assert forall|r: int| 0 <= r < self@.resources() implies self@.need[t as int][r]
                        <= #[trigger] self@.work_after(order, r) by {
                        assert(work@[r] == self@.work_after(order, r));
                    }
                    return t;
                }
                assert(!self@.can_run(order, t as int)) by {
                    let r = choose|r: int|
                        0 <= r < self@.resources() && !(self@.need[t as int][r] <= work@[r]);
                    assert(work@[r] == self@.work_after(order, r));
                }
            }
            t += 1;
        }
        t
    }

    /// The deadlock detector. It completes, round after round, the lowest
    /// task whose needs the unclaimed units cover, and hands back what that
    /// task held; the table is safe when every task completes this way.
    /// A table that it calls safe has a safe order; where no task holds a
    /// negative number of units, a table that it calls unsafe has none.
    pub fn is_safe(&self) -> (safe: bool)
        requires
            self@.wf(),
        ensures
            safe == self@.is_safe(),
            safe ==> self@.safe_order(self@.greedy_order(self@.tasks())),
            !safe ==> forall|t: int| !self@.can_run(self@.greedy_order(self@.tasks()), t),
            self@.holdings_nonnegative() ==> (safe <==> exists|order: Seq<int>|
                self@.safe_order(order)),
    {
        proof {
            if self@.is_safe() {
                self@.lemma_safe_has_order();
            } else {
                self@.lemma_unsafe_is_stuck();
            }
            if self@.holdings_nonnegative() {
                self@.lemma_safe_iff_order_exists();
            }
        }
        self.complete_all()
    }

    /// Runs the rounds of the detector.
    fn complete_all(&self) -> (safe: bool)
        requires
            self@.wf(),
        ensures
            safe == self@.is_safe(),
    {
        let n = self.allocation.len();
        let m = self.available.len();
        let mut work: Vec<i128> = Vec::new();
        let mut r: usize = 0;
        while r < m
            invariant
                m == self@.resources(),
                r <= m,
                work@.len() == r,
                forall|k: int| 0 <= k < r ==> #[trigger] work@[k] == self@.available[k],
            decreases m - r,
        {
            work.push(self.available[r] as i128);
            r += 1;
        }
        let mut finished: Vec<bool> = Vec::new();
        let mut t: usize = 0;
        while t < n
            invariant
                t <= n,
                finished@.len() == t,
                forall|k: int| 0 <= k < t ==> !(#[trigger] finished@[k]),
            decreases n - t,
        {
            finished.push(false);
            t += 1;
        }
        let ghost mut order: Seq<int> = Seq::empty();
        let mut round: usize = 0;
        while round < n
            invariant
                self@.wf(),
                n == self@.tasks(),
                m == self@.resources(),
                round <= n,
                order == self@.greedy_order(round as nat),
                order.len() == round,
                tracks(self@, order, finished@, work@),
                forall|k: int|
                    0 <= k < m ==> -(round + 1) * 0x8000_0000_0000_0000 <= #[trigger] work@[k] < (round
                        + 1) * 0x8000_0000_0000_0000,
            decreases n - round,
        {
            let next = self.find_ready(&finished, &work, Ghost(order));
            if next >= n {
                proof {
                    self@.lemma_greedy_stalls(round as nat, n as nat);
                }
                return false;
            }
            proof {
                self@.lemma_first_ready(order, 0);
            }
            finished[next] = true;
            let mut r: usize = 0;
            while r < m
                invariant
                    self@.wf(),
                    n == self@.tasks(),
                    m == self@.resources(),
                    next < n,
                    round < n,
                    r <= m,
                    work@.len() == m,
                    forall|k: int|
                        0 <= k < r ==> #[trigger] work@[k] == self@.work_after(order.push(next as int), k),
                    forall|k: int| r <= k < m ==> #[trigger] work@[k] == self@.work_after(order, k),
                    forall|k: int|
                        r <= k < m ==> -(round + 1) * 0x8000_0000_0000_0000 <= #[trigger] work@[k] < (
                        round + 1) * 0x8000_0000_0000_0000,
                    forall|k: int|
                        0 <= k < r ==> -(round + 2) * 0x8000_0000_0000_0000 <= #[trigger] work@[k] < (
                        round + 2) * 0x8000_0000_0000_0000,
                decreases m - r,
            {
                assert(self@.allocation[next as int].len() == m);
                assert(order.push(next as int).drop_last() =~= order);
                work[r] = work[r] + self.allocation[next][r] as i128;
                r += 1;
            }
            proof {
                let grown = order.push(next as int);
                assert forall|k: int| 0 <= k < n implies (#[trigger] finished@[k] <==> grown.contains(
                    k,
                )) by {
                    if k == next {
                        assert(grown[order.len() as int] == k);
                    } else if order.contains(k) {
                        let i = choose|i: int| 0 <= i < order.len() && order[i] == k;
                        assert(grown[i] == k);
                    }
                }
                order = grown;
            }
            round += 1;
        }
        true
    }
}

} // verus!
