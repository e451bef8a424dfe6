//! Resource tables of one class of resources: what every task holds, what it
//! still asks for, and what is left unclaimed.

use vstd::prelude::*;

verus! {

/// The mathematical content of a resource table. Rows stand for tasks,
/// columns for resources.
pub struct TableView {
    pub allocation: Seq<Seq<int>>,
    pub need: Seq<Seq<int>>,
    pub available: Seq<int>,
}

impl TableView {
    /// Number of task rows.
    pub open spec fn tasks(self) -> nat {
        self.allocation.len()
    }

    /// Number of resource columns.
    pub open spec fn resources(self) -> nat {
        self.available.len()
    }

    /// Both matrices have one row per task and one column per resource.
    pub open spec fn wf(self) -> bool {
        &&& self.need.len() == self.allocation.len()
        &&& forall|t: int|
            0 <= t < self.tasks() ==> (#[trigger] self.allocation[t]).len() == self.resources()
        &&& forall|t: int|
            0 <= t < self.tasks() ==> (#[trigger] self.need[t]).len() == self.resources()
    }

    /// The table of a process that has neither tasks nor resources.
    pub open spec fn empty() -> TableView {
        TableView { allocation: Seq::empty(), need: Seq::empty(), available: Seq::empty() }
    }

    /// Task `t` asks for one more unit of resource `r`.
    pub open spec fn requested(self, t: int, r: int) -> TableView {
        TableView { need: self.need.update(t, self.need[t].update(r, self.need[t][r] + 1)), ..self }
    }

    /// Task `t` takes back one request for a unit of resource `r`.
    pub open spec fn withdrawn(self, t: int, r: int) -> TableView {
        TableView { need: self.need.update(t, self.need[t].update(r, self.need[t][r] - 1)), ..self }
    }

    /// One unit of resource `r` passes from the unclaimed pool to task `t`,
    /// which settles one of its pending requests.
    pub open spec fn granted(self, t: int, r: int) -> TableView {
        TableView {
            allocation: self.allocation.update(
                t,
                self.allocation[t].update(r, self.allocation[t][r] + 1),
            ),
            need: self.need.update(t, self.need[t].update(r, self.need[t][r] - 1)),
            available: self.available.update(r, self.available[r] - 1),
        }
    }

    /// Task `t` gives one unit of resource `r` back to the unclaimed pool.
    pub open spec fn released(self, t: int, r: int) -> TableView {
        TableView {
            allocation: self.allocation.update(
                t,
                self.allocation[t].update(r, self.allocation[t][r] - 1),
            ),
            available: self.available.update(r, self.available[r] + 1),
            ..self
        }
    }

    /// A row of zeros, one per resource.
    pub open spec fn blank_row(self) -> Seq<int> {
        Seq::new(self.resources(), |r: int| 0int)
    }

    /// The table with one more task, which holds and needs nothing.
    pub open spec fn with_task(self) -> TableView {
        TableView {
            allocation: self.allocation.push(self.blank_row()),
            need: self.need.push(self.blank_row()),
            ..self
        }
    }

    /// The table with one more resource of `units` unclaimed units, which no
    /// task holds or needs.
    pub open spec fn with_resource(self, units: int) -> TableView {
        TableView {
            allocation: Seq::new(self.allocation.len(), |t: int| self.allocation[t].push(0int)),
            need: Seq::new(self.need.len(), |t: int| self.need[t].push(0int)),
            available: self.available.push(units),
        }
    }

    /// The table with column `r` put back to `units` unclaimed units, held
    /// and needed by no task.
    pub open spec fn cleared(self, r: int, units: int) -> TableView {
        TableView {
            allocation: Seq::new(
                self.allocation.len(),
                |t: int| self.allocation[t].update(r, 0int),
            ),
            need: Seq::new(self.need.len(), |t: int| self.need[t].update(r, 0int)),
            available: self.available.update(r, units),
        }
    }

    /// A request that is taken back leaves the table as it was.
    pub proof fn lemma_withdraw_undoes_request(self, t: int, r: int)
        requires
            self.wf(),
            0 <= t < self.tasks(),
            0 <= r < self.resources(),
        ensures
            self.requested(t, r).withdrawn(t, r) == self,
    {
        assert(self.need[t].len() == self.resources());
        assert(self.requested(t, r).withdrawn(t, r).need =~~= self.need);
    }

    /// Column `r` reads as a resource that was just made with `units` units.
    pub open spec fn pristine(self, r: int, units: int) -> bool {
        &&& 0 <= r < self.resources()
        &&& self.available[r] == units
        &&& forall|t: int| 0 <= t < self.tasks() ==> (#[trigger] self.allocation[t])[r] == 0
        &&& forall|t: int| 0 <= t < self.tasks() ==> (#[trigger] self.need[t])[r] == 0
    }
}

/// Allocation, need and availability of one class of resources.
pub struct ResourceTable {
    pub allocation: Vec<Vec<isize>>,
    pub need: Vec<Vec<isize>>,
    pub available: Vec<isize>,
}

/// The integers of a matrix of machine integers.
pub open spec fn matrix_view(m: Vec<Vec<isize>>) -> Seq<Seq<int>> {
    Seq::new(m@.len(), |t: int| Seq::new(m@[t]@.len(), |r: int| m@[t]@[r] as int))
}

/// The integers of a row of machine integers.
pub open spec fn row_view(v: Vec<isize>) -> Seq<int> {
    Seq::new(v@.len(), |r: int| v@[r] as int)
}

impl View for ResourceTable {
    type V = TableView;

    open spec fn view(&self) -> TableView {
        TableView {
            allocation: matrix_view(self.allocation),
            need: matrix_view(self.need),
            available: row_view(self.available),
        }
    }
}

impl ResourceTable {
    /// A table without tasks or resources.
    pub fn new() -> (table: Self)
        ensures
            table@ == TableView::empty(),
            table@.wf(),
    {
        let table = ResourceTable { allocation: Vec::new(), need: Vec::new(), available: Vec::new() };
        assert(table@.allocation =~= Seq::<Seq<int>>::empty());
        assert(table@.need =~= Seq::<Seq<int>>::empty());
        assert(table@.available =~= Seq::<int>::empty());
        table
    }

    /// Number of task rows.
    pub fn tasks(&self) -> (n: usize)
        ensures
            n == self@.tasks(),
    {
        self.allocation.len()
    }

    /// Number of resource columns.
    pub fn resources(&self) -> (n: usize)
        ensures
            n == self@.resources(),
    {
        self.available.len()
    }

    /// Records that task `t` asks for one more unit of resource `r`.
    pub fn request(&mut self, t: usize, r: usize)
        requires
            old(self)@.wf(),
            t < old(self)@.tasks(),
            r < old(self)@.resources(),
            old(self)@.need[t as int][r as int] < isize::MAX,
        ensures
            final(self)@ == old(self)@.requested(t as int, r as int),
            final(self)@.wf(),
    {
        self.need[t][r] += 1;
        assert(self@.need =~~= old(self)@.requested(t as int, r as int).need);
        assert(self@.allocation =~~= old(self)@.allocation);
    }

    /// Records that task `t` takes back one request for a unit of
    /// resource `r`.
    pub fn withdraw(&mut self, t: usize, r: usize)
        requires
            old(self)@.wf(),
            t < old(self)@.tasks(),
            r < old(self)@.resources(),
            old(self)@.need[t as int][r as int] > isize::MIN,
        ensures
            final(self)@ == old(self)@.withdrawn(t as int, r as int),
            final(self)@.wf(),
    {
        self.need[t][r] -= 1;
        assert(self@.need =~~= old(self)@.withdrawn(t as int, r as int).need);
        assert(self@.allocation =~~= old(self)@.allocation);
    }

    /// Records that task `t` was given one unit of resource `r` that it had
    /// asked for.
    pub fn grant(&mut self, t: usize, r: usize)
        requires
            old(self)@.wf(),
            t < old(self)@.tasks(),
            r < old(self)@.resources(),
            old(self)@.allocation[t as int][r as int] < isize::MAX,
            old(self)@.need[t as int][r as int] > isize::MIN,
            old(self)@.available[r as int] > isize::MIN,
        ensures
            final(self)@ == old(self)@.granted(t as int, r as int),
            final(self)@.wf(),
    {
        self.allocation[t][r] += 1;
        self.available[r] -= 1;
        self.need[t][r] -= 1;
        assert(self@.need =~~= old(self)@.granted(t as int, r as int).need);
        assert(self@.allocation =~~= old(self)@.granted(t as int, r as int).allocation);
        assert(self@.available =~~= old(self)@.granted(t as int, r as int).available);
    }

    /// Records that task `t` gave back one unit of resource `r`.
    pub fn release(&mut self, t: usize, r: usize)
        requires
            old(self)@.wf(),
            t < old(self)@.tasks(),
            r < old(self)@.resources(),
            old(self)@.allocation[t as int][r as int] > isize::MIN,
            old(self)@.available[r as int] < isize::MAX,
        ensures
            final(self)@ == old(self)@.released(t as int, r as int),
            final(self)@.wf(),
    {
        self.allocation[t][r] -= 1;
        self.available[r] += 1;
        assert(self@.need =~~= old(self)@.need);
        assert(self@.allocation =~~= old(self)@.released(t as int, r as int).allocation);
        assert(self@.available =~~= old(self)@.released(t as int, r as int).available);
    }

    /// Adds the row of a new task, which holds and needs nothing.
    pub fn add_task(&mut self)
        requires
            old(self)@.wf(),
        ensures
            final(self)@ == old(self)@.with_task(),
            final(self)@.wf(),
    {
        let held = zero_row(self.available.len());
        let wanted = zero_row(self.available.len());
        self.allocation.push(held);
        self.need.push(wanted);
        assert(self@.allocation =~~= old(self)@.with_task().allocation);
        assert(self@.need =~~= old(self)@.with_task().need);
    }

    /// Adds the column of a new resource with `units` unclaimed units.
    pub fn add_resource(&mut self, units: isize)
        requires
            old(self)@.wf(),
        ensures
            final(self)@ == old(self)@.with_resource(units as int),
            final(self)@.wf(),
    {
        let n = self.allocation.len();
        let mut t: usize = 0;
        while t < n
            invariant
                t <= n,
                n == old(self).allocation@.len(),
                old(self)@.wf(),
                self.available == old(self).available,
                self.allocation@.len() == n,
                self.need@.len() == n,
                forall|k: int| 0 <= k < t ==> (#[trigger] self.allocation@[k])@ == old(self).allocation@[k]@.push(0isize),
                forall|k: int| 0 <= k < t ==> (#[trigger] self.need@[k])@ == old(self).need@[k]@.push(0isize),
                forall|k: int| t <= k < n ==> (#[trigger] self.allocation@[k]) == old(self).allocation@[k],
                forall|k: int| t <= k < n ==> (#[trigger] self.need@[k]) == old(self).need@[k],
            decreases n - t,
        {
            self.allocation[t].push(0);
            self.need[t].push(0);
            t += 1;
        }
        self.available.push(units);
        assert(self@.allocation =~~= old(self)@.with_resource(units as int).allocation);
        assert(self@.need =~~= old(self)@.with_resource(units as int).need);
        assert(self@.available =~~= old(self)@.with_resource(units as int).available);
    }

    /// Puts column `r` back to `units` unclaimed units that no task holds or
    /// needs.
    pub fn clear(&mut self, r: usize, units: isize)
        requires
            old(self)@.wf(),
            r < old(self)@.resources(),
        ensures
            final(self)@ == old(self)@.cleared(r as int, units as int),
            final(self)@.wf(),
    {
        let n = self.allocation.len();
        let mut t: usize = 0;
        while t < n
            invariant
                t <= n,
                n == old(self).allocation@.len(),
                old(self)@.wf(),
                r < old(self)@.resources(),
                self.available == old(self).available,
                self.allocation@.len() == n,
                self.need@.len() == n,
                forall|k: int| 0 <= k < t ==> (#[trigger] self.allocation@[k])@ == old(self).allocation@[k]@.update(r as int, 0isize),
                forall|k: int| 0 <= k < t ==> (#[trigger] self.need@[k])@ == old(self).need@[k]@.update(r as int, 0isize),
                forall|k: int| t <= k < n ==> (#[trigger] self.allocation@[k]) == old(self).allocation@[k],
                forall|k: int| t <= k < n ==> (#[trigger] self.need@[k]) == old(self).need@[k],
            decreases n - t,
        {
            assert(old(self)@.allocation[t as int].len() == old(self)@.resources());
            assert(old(self)@.need[t as int].len() == old(self)@.resources());
            self.allocation[t][r] = 0;
            self.need[t][r] = 0;
            t += 1;
        }
        self.available[r] = units;
        assert(self@.allocation =~~= old(self)@.cleared(r as int, units as int).allocation);
        assert(self@.need =~~= old(self)@.cleared(r as int, units as int).need);
        assert(self@.available =~~= old(self)@.cleared(r as int, units as int).available);
    }
}

/// A row of `n` zeros.
fn zero_row(n: usize) -> (row: Vec<isize>)
    ensures
        row@ == Seq::new(n as nat, |r: int| 0isize),
{
    let mut row: Vec<isize> = Vec::new();
    let mut r: usize = 0;
    while r < n
        invariant
            r <= n,
            row@ == Seq::new(r as nat, |k: int| 0isize),
        decreases n - r,
    {
        row.push(0);
        r += 1;
        assert(row@ =~= Seq::new(r as nat, |k: int| 0isize));
    }
    row
}

} // verus!
