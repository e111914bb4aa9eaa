//! The edit layer over the generated world: which voxels were placed or removed.

use vstd::prelude::*;

use crate::grid::IVec3;
use crate::grid_map::{lists, GridMap};

verus! {

/// The base world backends.
#[derive(Clone, Copy, Debug, PartialEq, Eq, Structural)]
pub enum WorldKind {
    /// Procedural terrain.
    Normal,
    /// The flat test world.
    TestFlat,
    /// The cyberpunk city.
    City,
}

impl Default for WorldKind {
    fn default() -> (k: WorldKind)
        ensures
            k == WorldKind::Normal,
    {
        WorldKind::Normal
    }
}

/// A player edit of one voxel.
#[derive(Clone, Copy, Debug, PartialEq, Eq, Structural)]
pub enum VoxelEdit {
    /// A solid voxel of a material.
    Placed(u8),
    /// Air.
    Removed,
}

/// The shared edit store.
#[derive(Debug)]
pub struct VoxelOverrides {
    edits: GridMap<IVec3, VoxelEdit>,
}

impl View for VoxelOverrides {
    type V = Map<IVec3, VoxelEdit>;

    closed spec fn view(&self) -> Map<IVec3, VoxelEdit> {
        self.edits@
    }
}

/// The edits of a list, a later one over an earlier one of the same voxel.
pub open spec fn from_list(list: Seq<(IVec3, VoxelEdit)>) -> Map<IVec3, VoxelEdit>
    decreases list.len(),
{
    if list.len() == 0 {
        Map::empty()
    } else {
        from_list(list.drop_last()).insert(list.last().0, list.last().1)
    }
}

impl VoxelOverrides {
    pub closed spec fn wf(&self) -> bool {
        self.edits.wf()
    }

    pub fn new() -> (o: VoxelOverrides)
        ensures
            o.wf(),
            o@ == Map::<IVec3, VoxelEdit>::empty(),
    {
        VoxelOverrides { edits: GridMap::new() }
    }

    /// The edit of a voxel, if it has one.
    pub fn get(&self, pos: IVec3) -> (e: Option<VoxelEdit>)
        ensures
            e == (if self@.contains_key(pos) {
                Some(self@[pos])
            } else {
                None
            }),
    {
        self.edits.get(pos)
    }

    /// Places a solid voxel.
    pub fn place(&mut self, pos: IVec3, mat: u8)
        ensures
            old(self).wf() ==> final(self).wf(),
            final(self)@ == old(self)@.insert(pos, VoxelEdit::Placed(mat)),
    {
        self.edits.insert(pos, VoxelEdit::Placed(mat));
    }

    /// Removes a voxel.
    pub fn remove(&mut self, pos: IVec3)
        ensures
            old(self).wf() ==> final(self).wf(),
            final(self)@ == old(self)@.insert(pos, VoxelEdit::Removed),
    {
        self.edits.insert(pos, VoxelEdit::Removed);
    }

    /// Forgets every edit.
    pub fn clear_all(&mut self)
        ensures
            final(self).wf(),
            final(self)@ == Map::<IVec3, VoxelEdit>::empty(),
    {
        self.edits = GridMap::new();
    }

    /// Replaces every edit by those of a list.
    pub fn import(&mut self, list: &[(IVec3, VoxelEdit)])
        ensures
            final(self).wf(),
            final(self)@ == from_list(list@),
    {
        let mut edits: GridMap<IVec3, VoxelEdit> = GridMap::new();
        let mut i: usize = 0;
        assert(list@.take(0) =~= Seq::<(IVec3, VoxelEdit)>::empty());
        while i < list.len()
            invariant
                i <= list@.len(),
                edits.wf(),
                edits@ == from_list(list@.take(i as int)),
            decreases list@.len() - i,
        {
            edits.insert(list[i].0, list[i].1);
            i += 1;
            assert(list@.take(i as int).drop_last() =~= list@.take(i - 1));
        }
        assert(list@.take(i as int) =~= list@);
        self.edits = edits;
    }

    /// Every edit once, in no particular order.
    pub fn export(&self) -> (list: Vec<(IVec3, VoxelEdit)>)
        requires
            self.wf(),
        ensures
            lists(list@, self@),
    {
        self.edits.to_vec()
    }
}

/// Importing what was exported gives the same edits.
pub proof fn import_undoes_export(m: Map<IVec3, VoxelEdit>, list: Seq<(IVec3, VoxelEdit)>)
    requires
        lists(list, m),
    ensures
        from_list(list) == m,
{
    lemma_from_list(list);
    let n = from_list(list);
    assert forall|c: IVec3| n.contains_key(c) == m.contains_key(c) by {
        if n.contains_key(c) {
            let i = choose|i: int| 0 <= i < list.len() && list[i].0 == c;
            assert(m.contains_key(list[i].0));
        }
        if m.contains_key(c) {
            let i = choose|i: int| 0 <= i < list.len() && list[i].0 == c;
            assert(n.contains_key(list[i].0));
        }
    }
    assert forall|c: IVec3| n.contains_key(c) implies n[c] == m[c] by {
        let i = choose|i: int| 0 <= i < list.len() && list[i].0 == c;
        assert(n[list[i].0] == list[i].1);
    }
    assert(n =~= m);
}

proof fn lemma_from_list(list: Seq<(IVec3, VoxelEdit)>)
    requires
        forall|i: int, j: int| 0 <= i < j < list.len() ==> list[i].0 != list[j].0,
    ensures
        forall|i: int|
            0 <= i < list.len() ==> from_list(list).contains_key((#[trigger] list[i]).0)
                && from_list(list)[list[i].0] == list[i].1,
        forall|c: IVec3| #[trigger]
            from_list(list).contains_key(c) ==> exists|i: int|
                0 <= i < list.len() && list[i].0 == c,
    decreases list.len(),
{
    if list.len() > 0 {
        let rest = list.drop_last();
        let n = list.len() - 1;
        assert forall|i: int, j: int| 0 <= i < j < rest.len() implies rest[i].0 != rest[j].0 by {
            assert(rest[i] == list[i] && rest[j] == list[j]);
        }
        lemma_from_list(rest);
        let all = from_list(list);
        assert forall|i: int| 0 <= i < list.len() implies all.contains_key((#[trigger] list[i]).0)
            && all[list[i].0] == list[i].1 by {
            if i < n {
                assert(rest[i] == list[i]);
                assert(list[i].0 != list[n].0);
            }
        }
        assert forall|c: IVec3| #[trigger] all.contains_key(c) implies exists|i: int|
            0 <= i < list.len() && list[i].0 == c by {
            if c == list[n].0 {
                assert(list[n].0 == c);
            } else {
                assert(from_list(rest).contains_key(c));
                let i = choose|i: int| 0 <= i < rest.len() && rest[i].0 == c;
                assert(list[i].0 == c);
            }
        }
    }
}

/// Of several edits of one voxel in a list, the last counts.
pub proof fn last_edit_wins(list: Seq<(IVec3, VoxelEdit)>, i: int)
    requires
        0 <= i < list.len(),
        forall|j: int| i < j < list.len() ==> (#[trigger] list[j]).0 != list[i].0,
    ensures
        from_list(list).contains_key(list[i].0),
        from_list(list)[list[i].0] == list[i].1,
    decreases list.len(),
{
    let rest = list.drop_last();
    if i < rest.len() {
        assert(list[list.len() - 1].0 != list[i].0);
        assert forall|j: int| i < j < rest.len() implies (#[trigger] rest[j]).0 != rest[i].0 by {
            assert(rest[j] == list[j]);
        }
        last_edit_wins(rest, i);
    }
}

/// A voxel that no edit of the list names has none.
pub proof fn other_voxels_stay_unedited(list: Seq<(IVec3, VoxelEdit)>, pos: IVec3)
    requires
        forall|j: int| 0 <= j < list.len() ==> (#[trigger] list[j]).0 != pos,
    ensures
        !from_list(list).contains_key(pos),
    decreases list.len(),
{
    if list.len() > 0 {
        let rest = list.drop_last();
        assert(list[list.len() - 1].0 != pos);
        assert forall|j: int| 0 <= j < rest.len() implies (#[trigger] rest[j]).0 != pos by {
            assert(rest[j] == list[j]);
        }
        other_voxels_stay_unedited(rest, pos);
    }
}

} // verus!
