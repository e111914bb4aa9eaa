//! Columns occupied by solid props.

use vstd::prelude::*;

use crate::column_table::{
    entries, table_get, table_insert, table_list, table_new, table_remove, ColumnTable,
};
use crate::columns::ColumnSet;
use crate::grid::IVec2;
use crate::grid_map::lists;

verus! {

/// Voxel columns `(x, z)` occupied by solid props (trees & rocks, never grass).
///
/// Refcounted: the value is the number of distinct prop discs that claim the
/// cell. A cell is impassable iff its count is above 0. One cell can sit inside
/// two props' footprints, so a cell stays blocked until its last claimant leaves.
pub struct BlockedCells(pub ColumnTable);

pub open spec fn pair(c: IVec2) -> (i32, i32) {
    (c.x, c.y)
}

/// How many discs claim a cell.
pub open spec fn count(m: Map<IVec2, u64>, c: IVec2) -> int {
    if m.contains_key(c) {
        m[c] as int
    } else {
        0
    }
}

/// The counts after one more claim on a cell.
pub open spec fn claimed(m: Map<IVec2, u64>, cell: IVec2) -> Map<IVec2, u64> {
    m.insert(cell, (count(m, cell) + 1) as u64)
}

/// The counts after one claim on a cell was released; the last one takes the
/// entry with it, and without one nothing changes.
pub open spec fn released(m: Map<IVec2, u64>, cell: IVec2) -> Map<IVec2, u64> {
    if count(m, cell) <= 1 {
        m.remove(cell)
    } else {
        m.insert(cell, (count(m, cell) - 1) as u64)
    }
}

/// No cell is kept with a count of 0.
pub open spec fn counts_ok(m: Map<IVec2, u64>) -> bool {
    forall|c: IVec2| #[trigger] m.contains_key(c) ==> m[c] > 0
}

impl View for BlockedCells {
    type V = Map<IVec2, u64>;

    open spec fn view(&self) -> Map<IVec2, u64> {
        Map::new(
            |c: IVec2| entries(self.0).contains_key(pair(c)),
            |c: IVec2| entries(self.0)[pair(c)],
        )
    }
}

impl BlockedCells {
    /// No cell is kept with a count of 0.
    pub open spec fn wf(&self) -> bool {
        counts_ok(self@)
    }

    /// No cell is claimed.
    pub fn new() -> (b: BlockedCells)
        ensures
            b.wf(),
            b@ == Map::<IVec2, u64>::empty(),
    {
        let b = BlockedCells(table_new());
        assert(b@ =~= Map::<IVec2, u64>::empty());
        b
    }

    /// Claim `cell` for one prop disc, incrementing its refcount. Returns `true`
    /// the first time the cell transitions from unclaimed to claimed.
    pub fn claim(&mut self, cell: IVec2) -> (first: bool)
        requires
            count(old(self)@, cell) < u32::MAX,
        ensures
            final(self)@ == claimed(old(self)@, cell),
            first == (count(old(self)@, cell) == 0),
            old(self).wf() ==> final(self).wf(),
    {
        let before: u64 = match table_get(&self.0, (cell.x, cell.y)) {
            Some(n) => n,
            None => 0,
        };
        assert(before == count(self@, cell));
        table_insert(&mut self.0, (cell.x, cell.y), before + 1);
        assert(self@ =~= claimed(old(self)@, cell));
        before == 0
    }

    /// Release one claim on `cell`, decrementing its refcount and removing the
    /// entry only when it reaches zero (the last claimant left). A release with
    /// no matching claim is ignored.
    pub fn release(&mut self, cell: IVec2)
        requires
            old(self).wf(),
        ensures
            final(self).wf(),
            final(self)@ == released(old(self)@, cell),
    {
        match table_get(&self.0, (cell.x, cell.y)) {
            Some(n) => {
                assert(self@.contains_key(cell));
                if n == 1 {
                    table_remove(&mut self.0, (cell.x, cell.y));
                    assert(self@ =~= released(old(self)@, cell));
                } else {
                    table_insert(&mut self.0, (cell.x, cell.y), n - 1);
                    assert(self@ =~= released(old(self)@, cell));
                }
            },
            None => {
                assert(self@ =~= released(old(self)@, cell));
            },
        }
    }

    /// Whether `cell` is currently claimed by at least one prop disc
    /// (impassable).
    pub fn contains(&self, cell: IVec2) -> (r: bool)
        requires
            self.wf(),
        ensures
            r == (count(self@, cell) > 0),
    {
        table_get(&self.0, (cell.x, cell.y)).is_some()
    }

    /// The currently-claimed (impassable) cells, each once, in no particular
    /// order.
    pub fn iter(&self) -> (v: Vec<IVec2>)
        ensures
            v@.no_duplicates(),
            v@.to_set() == self@.dom(),
    {
        let list = table_list(&self.0);
        let mut v: Vec<IVec2> = Vec::new();
        let mut i: usize = 0;
        while i < list.len()
            invariant
                i <= list@.len(),
                v@.len() == i,
                forall|k: int| 0 <= k < i ==> pair(#[trigger] v@[k]) == list@[k].0,
            decreases list@.len() - i,
        {
            let (x, y): (i32, i32) = list[i].0;
            v.push(IVec2 { x, y });
            i += 1;
        }
        proof {
            let m = entries(self.0);
            assert(lists(list@, m));
            assert forall|a: int, b: int| 0 <= a < b < v@.len() implies v@[a] != v@[b] by {
                assert(list@[a].0 != list@[b].0);
                assert(pair(v@[a]) == list@[a].0);
                assert(pair(v@[b]) == list@[b].0);
            }
            assert(v@.no_duplicates());
            assert forall|c: IVec2| v@.to_set().contains(c) == self@.dom().contains(c) by {
                if v@.contains(c) {
                    let k = v@.index_of(c);
                    assert(m.contains_key(list@[k].0));
                    assert(pair(v@[k]) == list@[k].0);
                }
                if self@.contains_key(c) {
                    assert(m.contains_key(pair(c)));
                    let k = choose|k: int| 0 <= k < list@.len() && list@[k].0 == pair(c);
                    assert(pair(v@[k]) == pair(c));
                    assert(v@.contains(v@[k]));
                }
            }
            assert(v@.to_set() =~= self@.dom());
        }
        v
    }

    /// The claimed cells as a set, for a search to work on.
    pub fn snapshot(&self) -> (s: ColumnSet)
        ensures
            s@ == self@.dom(),
    {
        let cells = self.iter();
        let mut s = ColumnSet::new();
        let mut i: usize = 0;
        while i < cells.len()
            invariant
                i <= cells@.len(),
                s@ == cells@.take(i as int).to_set(),
            decreases cells@.len() - i,
        {
            s.insert(cells[i]);
            i += 1;
            proof {
                let before = cells@.take(i - 1);
                assert(cells@.take(i as int) =~= before.push(cells@[i - 1]));
                assert forall|c: IVec2| cells@.take(i as int).to_set().contains(c)
                    == before.to_set().insert(cells@[i - 1]).contains(c) by {
                    if c == cells@[i - 1] {
                        assert(cells@.take(i as int)[i - 1] == c);
                    }
                    if before.contains(c) {
                        let k = before.index_of(c);
                        assert(cells@.take(i as int)[k] == c);
                    }
                }
                assert(s@ =~= cells@.take(i as int).to_set());
            }
        }
        assert(cells@.take(i as int) =~= cells@);
        s
    }
}

impl Default for BlockedCells {
    fn default() -> (b: BlockedCells)
        ensures
            b.wf(),
            b@ == Map::<IVec2, u64>::empty(),
    {
        BlockedCells::new()
    }
}

/// A claim and its release leave every count as it was.
pub proof fn release_undoes_claim(m: Map<IVec2, u64>, cell: IVec2)
    requires
        counts_ok(m),
        count(m, cell) < u32::MAX,
    ensures
        released(claimed(m, cell), cell) == m,
{
    assert(released(claimed(m, cell), cell) =~= m);
}

/// A cell that two discs claim stays blocked when one of them leaves, and is free
/// when the other does too.
pub proof fn shared_cell_stays_blocked(m: Map<IVec2, u64>, cell: IVec2)
    requires
        counts_ok(m),
        count(m, cell) == 2,
    ensures
        count(released(m, cell), cell) > 0,
        !released(released(m, cell), cell).contains_key(cell),
{
}

/// Claims and releases of one cell leave every other cell alone.
pub proof fn other_cells_are_untouched(m: Map<IVec2, u64>, cell: IVec2, other: IVec2)
    requires
        other != cell,
    ensures
        count(claimed(m, cell), other) == count(m, other),
        count(released(m, cell), other) == count(m, other),
{
}

/// A claim on a cell, or a release of one.
pub enum Step {
    Claim(IVec2),
    Release(IVec2),
}

/// The counts after a step.
pub open spec fn stepped(m: Map<IVec2, u64>, step: Step) -> Map<IVec2, u64> {
    match step {
        Step::Claim(cell) => claimed(m, cell),
        Step::Release(cell) => released(m, cell),
    }
}

/// The counts after several steps, from none.
pub open spec fn replayed(steps: Seq<Step>) -> Map<IVec2, u64>
    decreases steps.len(),
{
    if steps.len() == 0 {
        Map::empty()
    } else {
        stepped(replayed(steps.drop_last()), steps.last())
    }
}

/// How many steps claim the cell.
pub open spec fn claims(steps: Seq<Step>, cell: IVec2) -> int
    decreases steps.len(),
{
    if steps.len() == 0 {
        0
    } else {
        claims(steps.drop_last(), cell) + (if steps.last() == Step::Claim(cell) {
            1int
        } else {
            0
        })
    }
}

/// How many steps release the cell.
pub open spec fn releases(steps: Seq<Step>, cell: IVec2) -> int
    decreases steps.len(),
{
    if steps.len() == 0 {
        0
    } else {
        releases(steps.drop_last(), cell) + (if steps.last() == Step::Release(cell) {
            1int
        } else {
            0
        })
    }
}

/// At no point was the cell released more often than claimed.
pub open spec fn never_overdrawn(steps: Seq<Step>, cell: IVec2) -> bool {
    forall|k: int|
        0 <= k <= steps.len() ==> releases(#[trigger] steps.take(k), cell) <= claims(
            steps.take(k),
            cell,
        )
}

/// The cell's count stays within the 32 bits of a refcount at every point.
pub open spec fn never_overflows(steps: Seq<Step>, cell: IVec2) -> bool {
    forall|k: int|
        0 <= k <= steps.len() ==> claims(#[trigger] steps.take(k), cell) - releases(
            steps.take(k),
            cell,
        ) <= u32::MAX
}

/// A cell is blocked exactly while more claims than releases cover it, whatever
/// happened to other cells meanwhile; when they are even, it has no entry.
pub proof fn blocked_while_claims_prevail(steps: Seq<Step>, cell: IVec2)
    requires
        never_overdrawn(steps, cell),
        never_overflows(steps, cell),
    ensures
        count(replayed(steps), cell) == claims(steps, cell) - releases(steps, cell),
        count(replayed(steps), cell) > 0 <==> claims(steps, cell) > releases(steps, cell),
        replayed(steps).contains_key(cell) <==> claims(steps, cell) > releases(steps, cell),
    decreases steps.len(),
{
    assert(steps.take(steps.len() as int) =~= steps);
    if steps.len() > 0 {
        let rest = steps.drop_last();
        assert forall|k: int| 0 <= k <= rest.len() implies releases(#[trigger] rest.take(k), cell)
            <= claims(rest.take(k), cell) && claims(rest.take(k), cell) - releases(
            rest.take(k),
            cell,
        ) <= u32::MAX by {
            assert(rest.take(k) =~= steps.take(k));
        }
        blocked_while_claims_prevail(rest, cell);
    }
}

/// A release of a cell that is not claimed changes nothing.
pub proof fn stray_release_is_ignored(m: Map<IVec2, u64>, cell: IVec2)
    requires
        !m.contains_key(cell),
    ensures
        released(m, cell) == m,
{
    assert(released(m, cell) =~= m);
}

/// A claim adds one to the count of its cell, and a release takes one away.
pub proof fn claims_are_counted_one_by_one(m: Map<IVec2, u64>, cell: IVec2)
    requires
        counts_ok(m),
        count(m, cell) < u32::MAX,
    ensures
        count(claimed(m, cell), cell) == count(m, cell) + 1,
        count(m, cell) > 0 ==> count(released(m, cell), cell) == count(m, cell) - 1,
        count(m, cell) <= 1 ==> !released(m, cell).contains_key(cell),
{
}

} // verus!
