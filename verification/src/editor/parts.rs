//! Object typing and the body-part rig hierarchy.
//!
//! A model is an [`ObjectType`] (a posable `Character` or an `Item`) and owns a
//! tree of [`Part`]s, each with a name, a pivot (the joint it rotates about) and
//! a parent. Ids are dense indices into an arena and are not reused after a
//! delete: the slot is tombstoned, so a sub-voxel's stored part never silently
//! re-points at a different part.

use vstd::prelude::*;

use crate::editor::voxel_map::PartId;

verus! {

/// What kind of thing the model represents.
#[derive(Clone, Copy, Debug, PartialEq, Eq, Structural)]
pub enum ObjectType {
    /// A posable, multi-part actor (player, mob, NPC). Seeded with a humanoid rig.
    Character,
    /// An object (sword, torch, pickup). Seeded with a single `Body` part, but
    /// may have multiple named, hierarchical, animatable parts of its own.
    Item,
}

/// The label of an object type.
pub open spec fn object_label(object: ObjectType) -> Seq<char> {
    match object {
        ObjectType::Character => "Character"@,
        ObjectType::Item => "Item"@,
    }
}

impl ObjectType {
    /// Human-readable label for the UI.
    pub fn label(self) -> (s: &'static str)
        ensures
            s@ == object_label(self),
    {
        match self {
            ObjectType::Character => "Character",
            ObjectType::Item => "Item",
        }
    }
}

/// A point in model-local world units; each coordinate is the bit pattern of a
/// single-precision number.
#[derive(Clone, Copy, Debug, PartialEq, Eq, Structural)]
pub struct Pivot {
    pub x: u32,
    pub y: u32,
    pub z: u32,
}

/// One rig part: a named, pivoted node in the hierarchy that owns a set of
/// sub-voxels.
#[derive(Debug)]
pub struct Part {
    /// This part's stable id.
    pub id: PartId,
    /// Display / export name (`"Head"`, `"RightArm"`, …).
    pub name: String,
    /// Parent in the hierarchy, or `None` for the root.
    pub parent: Option<PartId>,
    /// The point the part rotates about when animated.
    pub pivot: Pivot,
}

/// What a part holds.
pub struct PartModel {
    pub id: PartId,
    pub name: Seq<char>,
    pub parent: Option<PartId>,
    pub pivot: Pivot,
}

impl View for Part {
    type V = PartModel;

    open spec fn view(&self) -> PartModel {
        PartModel { id: self.id, name: self.name@, parent: self.parent, pivot: self.pivot }
    }
}

/// A slot per id; `None` is a deleted one.
pub type Arena = Seq<Option<PartModel>>;

pub open spec fn slot_view(slot: Option<Part>) -> Option<PartModel> {
    match slot {
        Some(p) => Some(p@),
        None => None,
    }
}

pub open spec fn arena_view(slots: Seq<Option<Part>>) -> Arena {
    slots.map_values(|s: Option<Part>| slot_view(s))
}

/// The part with this id, if its slot is live.
pub open spec fn part_at(arena: Arena, id: PartId) -> Option<PartModel> {
    if id.0 < arena.len() {
        arena[id.0 as int]
    } else {
        None
    }
}

/// The parent of a live part that has one.
pub open spec fn up(arena: Arena, id: PartId) -> Option<PartId> {
    match part_at(arena, id) {
        Some(p) => p.parent,
        None => None,
    }
}

/// The `n`-th ancestor.
pub open spec fn ancestor(arena: Arena, c: Option<PartId>, n: nat) -> Option<PartId>
    decreases n,
{
    match c {
        None => None,
        Some(x) => if n == 0 {
            Some(x)
        } else {
            ancestor(arena, up(arena, x), (n - 1) as nat)
        },
    }
}

/// Following parents from `c` ends.
pub open spec fn rooted(arena: Arena, c: Option<PartId>) -> bool {
    exists|n: nat| ancestor(arena, c, n) is None
}

/// No part is its own ancestor.
pub open spec fn acyclic(arena: Arena) -> bool {
    forall|id: PartId| #[trigger] rooted(arena, Some(id))
}

/// `d` is `a` or below it in the tree.
pub open spec fn below(arena: Arena, d: PartId, a: PartId) -> bool {
    exists|n: nat| ancestor(arena, Some(d), n) == Some(a)
}

/// Following parents from `d` ends or meets `a`.
pub open spec fn settled(arena: Arena, d: PartId, a: PartId) -> bool {
    rooted(arena, Some(d)) || below(arena, d, a)
}

/// Parts sit in the slots of their ids and name parents that have slots.
pub open spec fn ids_ok(arena: Arena) -> bool {
    forall|i: int|
        0 <= i < arena.len() && (#[trigger] arena[i]) is Some ==> {
            &&& arena[i]->0.id.0 == i
            &&& arena[i]->0.parent matches Some(q) ==> q.0 < arena.len()
        }
}

/// The live parts, in id order.
pub open spec fn live_parts(arena: Arena) -> Seq<PartModel>
    decreases arena.len(),
{
    if arena.len() == 0 {
        Seq::empty()
    } else {
        match arena.last() {
            Some(p) => live_parts(arena.drop_last()).push(p),
            None => live_parts(arena.drop_last()),
        }
    }
}

/// The live parts right under `parent`, in id order.
pub open spec fn child_parts(arena: Arena, parent: PartId) -> Seq<PartModel>
    decreases arena.len(),
{
    if arena.len() == 0 {
        Seq::empty()
    } else {
        match arena.last() {
            Some(p) => if p.parent == Some(parent) {
                child_parts(arena.drop_last(), parent).push(p)
            } else {
                child_parts(arena.drop_last(), parent)
            },
            None => child_parts(arena.drop_last(), parent),
        }
    }
}

/// The arena after a new part was added under `parent`.
pub open spec fn with_part(arena: Arena, name: Seq<char>, parent: PartId) -> Arena {
    arena.push(
        Some(
            PartModel {
                id: PartId(arena.len() as u32),
                name,
                parent: Some(parent),
                pivot: match part_at(arena, parent) {
                    Some(p) => p.pivot,
                    None => Pivot { x: 0, y: 0, z: 0 },
                },
            },
        ),
    )
}

/// A slot after the part `id`, whose parent was `parent`, was removed.
pub open spec fn slot_without(slot: Option<PartModel>, id: PartId, parent: Option<PartId>) -> Option<
    PartModel,
> {
    match slot {
        Some(p) => if p.parent == Some(id) {
            Some(PartModel { parent, ..p })
        } else {
            Some(p)
        },
        None => None,
    }
}

/// The arena after the part `id` was removed: its slot is empty and its
/// children hang under its parent.
pub open spec fn without(arena: Arena, id: PartId) -> Arena {
    Seq::new(
        arena.len(),
        |i: int|
            if i == id.0 {
                None
            } else {
                slot_without(arena[i], id, up(arena, id))
            },
    )
}

/// The arena after the part `id` was hung under `parent`.
pub open spec fn hung(arena: Arena, id: PartId, parent: PartId) -> Arena {
    match part_at(arena, id) {
        Some(p) => arena.update(
            id.0 as int,
            Some(PartModel { parent: Some(parent), ..p }),
        ),
        None => arena,
    }
}

/// The arena after `id` was asked to be removed: the root and parts that are not
/// live stay.
pub open spec fn removed(arena: Arena, root: PartId, id: PartId) -> Arena {
    if id == root || part_at(arena, id) is None {
        arena
    } else {
        without(arena, id)
    }
}

/// `id` can be moved under `parent`: it is live, not the root, and `parent` is
/// neither it nor below it.
pub open spec fn movable(arena: Arena, root: PartId, id: PartId, parent: PartId) -> bool {
    id != root && part_at(arena, id) is Some && !below(arena, parent, id)
}

/// The arena after `id` was asked to be moved under `parent`.
pub open spec fn reparented(arena: Arena, root: PartId, id: PartId, parent: PartId) -> Arena {
    if movable(arena, root, id, parent) {
        hung(arena, id, parent)
    } else {
        arena
    }
}

/// The part hangs under a live one.
pub open spec fn hangs(arena: Arena, id: PartId) -> bool {
    up(arena, id) matches Some(q) && part_at(arena, q) is Some
}

/// The live parts are one tree: the root is live and has no parent, every other
/// part hangs under a live one, and no part is its own ancestor.
pub open spec fn one_tree(arena: Arena, root: PartId) -> bool {
    &&& ids_ok(arena)
    &&& acyclic(arena)
    &&& part_at(arena, root) is Some
    &&& up(arena, root) is None
    &&& forall|id: PartId|
        id != root && (#[trigger] part_at(arena, id)) is Some ==> hangs(arena, id)
}

/// The full part hierarchy for one model.
#[derive(Debug)]
pub struct PartTree {
    /// Arena of parts; a `None` slot is a deleted (tombstoned) id.
    parts: Vec<Option<Part>>,
    /// The root part id. Always points at a live slot.
    root: PartId,
}

impl View for PartTree {
    type V = Arena;

    closed spec fn view(&self) -> Arena {
        arena_view(self.parts@)
    }
}

impl PartTree {
    pub closed spec fn spec_root(&self) -> PartId {
        self.root
    }

    /// Ids fit the arena, the root is live and no part is its own ancestor.
    pub open spec fn wf(&self) -> bool {
        &&& ids_ok(self@)
        &&& acyclic(self@)
        &&& part_at(self@, self.spec_root()) is Some
    }

    /// The live parts are one tree under the root. Stronger than [`PartTree::wf`],
    /// which a tree read from a file with orphans can still be.
    pub open spec fn whole(&self) -> bool {
        one_tree(self@, self.spec_root())
    }

    /// Rebuild a tree from an id-indexed arena. `slots[i]` is the part with id
    /// `i` or `None` for a tombstoned id.
    pub fn from_arena(slots: Vec<Option<Part>>, root: PartId) -> (t: PartTree)
        ensures
            t@ == arena_view(slots@),
            t.spec_root() == root,
    {
        PartTree { parts: slots, root }
    }

    /// The root part id.
    pub fn root(&self) -> (r: PartId)
        ensures
            r == self.spec_root(),
    {
        self.root
    }

    /// Borrow a part by id, if the slot is live.
    pub fn get(&self, id: PartId) -> (p: Option<&Part>)
        ensures
            match p {
                Some(part) => part_at(self@, id) == Some(part@),
                None => part_at(self@, id) is None,
            },
    {
        let i: usize = id.0 as usize;
        if i < self.parts.len() {
            match &self.parts[i] {
                Some(p) => Some(p),
                None => None,
            }
        } else {
            None
        }
    }

    /// Mutably borrow a part by id, if the slot is live.
    pub fn get_mut(&mut self, id: PartId) -> (p: Option<&mut Part>)
        ensures
            match p {
                Some(part) => {
                    &&& part_at(old(self)@, id) == Some(part@)
                    &&& final(self)@ == old(self)@.update(id.0 as int, Some(final(part)@))
                },
                None => part_at(old(self)@, id) is None && final(self)@ == old(self)@,
            },
            final(self).spec_root() == old(self).spec_root(),
    {
        let i: usize = id.0 as usize;
        if i < self.parts.len() {
            match &mut self.parts[i] {
                Some(p) => Some(p),
                None => None,
            }
        } else {
            None
        }
    }

    /// All live parts in id order.
    pub fn iter(&self) -> (v: Vec<&Part>)
        ensures
            refs_view(v@) == live_parts(self@),
    {
        let mut v: Vec<&Part> = Vec::new();
        let mut i: usize = 0;
        while i < self.parts.len()
            invariant
                i <= self.parts@.len(),
                refs_view(v@) == live_parts(self@.take(i as int)),
            decreases self.parts@.len() - i,
        {
            proof {
                assert(self@.take(i + 1).drop_last() =~= self@.take(i as int));
                assert(self@.take(i + 1).last() == slot_view(self.parts@[i as int]));
            }
            match &self.parts[i] {
                Some(p) => {
                    let ghost before = v@;
                    v.push(p);
                    assert(refs_view(v@) =~= refs_view(before).push(p@));
                },
                None => {},
            }
            i += 1;
        }
        assert(self@.take(i as int) =~= self@);
        v
    }

    /// Number of slots, deleted ones included.
    pub fn slots(&self) -> (n: usize)
        ensures
            n == self@.len(),
    {
        self.parts.len()
    }

    /// Number of live parts.
    pub fn len(&self) -> (n: usize)
        ensures
            n == live_parts(self@).len(),
    {
        let mut n: usize = 0;
        let mut i: usize = 0;
        while i < self.parts.len()
            invariant
                i <= self.parts@.len(),
                n <= i,
                n == live_parts(self@.take(i as int)).len(),
            decreases self.parts@.len() - i,
        {
            proof {
                assert(self@.take(i + 1).drop_last() =~= self@.take(i as int));
                assert(self@.take(i + 1).last() == slot_view(self.parts@[i as int]));
            }
            if self.parts[i].is_some() {
                n += 1;
            }
            i += 1;
        }
        assert(self@.take(i as int) =~= self@);
        n
    }

    /// Direct children of `parent`, in id order.
    pub fn children(&self, parent: PartId) -> (v: Vec<&Part>)
        ensures
            refs_view(v@) == child_parts(self@, parent),
    {
        let mut v: Vec<&Part> = Vec::new();
        let mut i: usize = 0;
        while i < self.parts.len()
            invariant
                i <= self.parts@.len(),
                refs_view(v@) == child_parts(self@.take(i as int), parent),
            decreases self.parts@.len() - i,
        {
            proof {
                assert(self@.take(i + 1).drop_last() =~= self@.take(i as int));
                assert(self@.take(i + 1).last() == slot_view(self.parts@[i as int]));
            }
            match &self.parts[i] {
                Some(p) => {
                    let under = match p.parent {
                        Some(q) => q == parent,
                        None => false,
                    };
                    if under {
                        let ghost before = v@;
                        v.push(p);
                        assert(refs_view(v@) =~= refs_view(before).push(p@));
                    }
                },
                None => {},
            }
            i += 1;
        }
        assert(self@.take(i as int) =~= self@);
        v
    }

    /// Add a new part under `parent` with the given name, returning its new id.
    /// The pivot defaults to the parent's pivot so a fresh part starts at a sane
    /// joint location the user can then nudge.
    pub fn add(&mut self, name: String, parent: PartId) -> (id: PartId)
        requires
            old(self)@.len() < u32::MAX,
        ensures
            id.0 == old(self)@.len(),
            final(self)@ == with_part(old(self)@, name@, parent),
            final(self).spec_root() == old(self).spec_root(),
            old(self).wf() && parent.0 < old(self)@.len() ==> final(self).wf(),
            old(self).whole() && part_at(old(self)@, parent) is Some ==> final(self).whole(),
    {
        let pivot = match self.get(parent) {
            Some(p) => p.pivot,
            None => Pivot { x: 0, y: 0, z: 0 },
        };
        let id = PartId(self.parts.len() as u32);
        self.parts.push(Some(Part { id, name, parent: Some(parent), pivot }));
        proof {
            assert(self@ =~= with_part(old(self)@, name@, parent));
            if old(self).wf() && parent.0 < old(self)@.len() {
                lemma_add_keeps_shape(old(self)@, name@, parent);
            }
            if old(self).whole() && part_at(old(self)@, parent) is Some {
                add_keeps_one_tree(old(self)@, self.spec_root(), name@, parent);
            }
        }
        id
    }

    /// Remove a part and re-parent its children onto its parent (so the subtree
    /// is preserved, not orphaned). The root cannot be removed. Returns the ids
    /// whose geometry must be dropped: only the deleted part itself, since its
    /// children survive. Returns an empty list if the delete was rejected.
    pub fn remove(&mut self, id: PartId) -> (dropped: Vec<PartId>)
        ensures
            final(self).spec_root() == old(self).spec_root(),
            final(self)@ == removed(old(self)@, old(self).spec_root(), id),
            dropped@ == (if id == old(self).spec_root() || part_at(old(self)@, id) is None {
                Seq::<PartId>::empty()
            } else {
                seq![id]
            }),
            old(self).wf() ==> final(self).wf(),
            old(self).whole() ==> final(self).whole(),
    {
        let mut dropped: Vec<PartId> = Vec::new();
        if id == self.root {
            return dropped;
        }
        let new_parent = match self.get(id) {
            Some(p) => p.parent,
            None => {
                return dropped;
            },
        };
        let n: usize = self.parts.len();
        let mut i: usize = 0;
        while i < n
            invariant
                i <= n,
                n == self.parts@.len(),
                n == old(self).parts@.len(),
                self.root == old(self).root,
                new_parent == up(old(self)@, id),
                forall|k: int|
                    i <= k < n ==> slot_view(#[trigger] self.parts@[k]) == old(self)@[k],
                forall|k: int|
                    0 <= k < i ==> slot_view(#[trigger] self.parts@[k]) == slot_without(
                        old(self)@[k],
                        id,
                        new_parent,
                    ),
            decreases n - i,
        {
            assert(slot_view(self.parts@[i as int]) == old(self)@[i as int]);
            match &mut self.parts[i] {
                Some(p) => {
                    let under = match p.parent {
                        Some(q) => q == id,
                        None => false,
                    };
                    if under {
                        p.parent = new_parent;
                    }
                },
                None => {},
            }
            i += 1;
        }
        self.parts.set(id.0 as usize, None);
        dropped.push(id);
        proof {
            assert(self@ =~= without(old(self)@, id));
            assert(dropped@ =~= seq![id]);
            if old(self).wf() {
                lemma_remove_keeps_shape(old(self)@, id, old(self).spec_root());
            }
            if old(self).whole() {
                remove_keeps_one_tree(old(self)@, self.spec_root(), id);
            }
        }
        dropped
    }

    /// Re-parent `id` under `new_parent`, rejecting the move if it would create a
    /// cycle (i.e. `new_parent` is `id` or a descendant of `id`) or touch the
    /// root. Returns `true` if the move was applied.
    pub fn reparent(&mut self, id: PartId, new_parent: PartId) -> (moved: bool)
        requires
            id == old(self).spec_root() || part_at(old(self)@, id) is None || settled(
                old(self)@,
                new_parent,
                id,
            ),
        ensures
            moved == movable(old(self)@, old(self).spec_root(), id, new_parent),
            final(self)@ == reparented(old(self)@, old(self).spec_root(), id, new_parent),
            final(self).spec_root() == old(self).spec_root(),
            old(self).wf() && new_parent.0 < old(self)@.len() ==> final(self).wf(),
            old(self).whole() && part_at(old(self)@, new_parent) is Some ==> final(self).whole(),
    {
        if id == self.root || self.get(id).is_none() {
            return false;
        }
        if self.is_descendant(new_parent, id) {
            return false;
        }
        match self.get_mut(id) {
            Some(part) => {
                part.parent = Some(new_parent);
            },
            None => {},
        }
        proof {
            assert(self@ =~= hung(old(self)@, id, new_parent));
            if old(self).wf() && new_parent.0 < old(self)@.len() {
                lemma_reparent_keeps_shape(old(self)@, id, new_parent, old(self).spec_root());
            }
            if old(self).whole() && part_at(old(self)@, new_parent) is Some {
                reparent_keeps_one_tree(old(self)@, self.spec_root(), id, new_parent);
            }
        }
        true
    }

    /// `true` if `maybe_descendant` is `ancestor` or below it in the tree.
    pub fn is_descendant(&self, maybe_descendant: PartId, ancestor_id: PartId) -> (r: bool)
        requires
            settled(self@, maybe_descendant, ancestor_id),
        ensures
            r == below(self@, maybe_descendant, ancestor_id),
    {
        let ghost total = if below(self@, maybe_descendant, ancestor_id) {
            choose|n: nat| ancestor(self@, Some(maybe_descendant), n) == Some(ancestor_id)
        } else {
            choose|n: nat| ancestor(self@, Some(maybe_descendant), n) is None
        };
        let mut cur: Option<PartId> = Some(maybe_descendant);
        let ghost mut k: nat = 0;
        proof {
            assert(ancestor(self@, Some(maybe_descendant), 0) == cur);
        }
        while cur.is_some()
            invariant
                k <= total,
                ancestor(self@, Some(maybe_descendant), total) is None || ancestor(
                    self@,
                    Some(maybe_descendant),
                    total,
                ) == Some(ancestor_id),
                cur == ancestor(self@, Some(maybe_descendant), k),
                forall|m: nat|
                    m < k ==> #[trigger] ancestor(self@, Some(maybe_descendant), m) != Some(
                        ancestor_id,
                    ),
            decreases total - k,
        {
            if let Some(c) = cur {
                if c == ancestor_id {
                    return true;
                }
                cur = match self.get(c) {
                    Some(p) => p.parent,
                    None => None,
                };
                proof {
                    assert(k != total);
                    lemma_ancestor_step(self@, Some(maybe_descendant), k);
                    k = k + 1;
                }
            }
        }
        proof {
            assert forall|m: nat| #[trigger]
                ancestor(self@, Some(maybe_descendant), m) != Some(ancestor_id) by {
                if m >= k {
                    lemma_ancestor_stays_none(self@, Some(maybe_descendant), k, m);
                }
            }
        }
        false
    }

    /// `true` if following parents from `id` ends. A tree read from a damaged file
    /// may go in circles.
    pub fn chain_ends(&self, id: PartId) -> (r: bool)
        ensures
            r == rooted(self@, Some(id)),
    {
        let n: usize = self.slots();
        let mut cur: Option<PartId> = Some(id);
        let mut k: usize = 0;
        while k < n && cur.is_some()
            invariant
                k <= n,
                n == self@.len(),
                cur == ancestor(self@, Some(id), k as nat),
            decreases n - k,
        {
            if let Some(c) = cur {
                cur = match self.get(c) {
                    Some(p) => p.parent,
                    None => None,
                };
            }
            proof {
                lemma_ancestor_step(self@, Some(id), k as nat);
            }
            k += 1;
        }
        if let Some(c) = cur {
            cur = match self.get(c) {
                Some(p) => p.parent,
                None => None,
            };
        }
        proof {
            lemma_ancestor_step(self@, Some(id), k as nat);
            if rooted(self@, Some(id)) {
                lemma_chain_bound(self@, id);
                if k < n {
                    lemma_ancestor_stays_none(self@, Some(id), k as nat, n as nat);
                }
            }
        }
        cur.is_none()
    }
}

pub open spec fn refs_view(v: Seq<&Part>) -> Seq<PartModel> {
    v.map_values(|p: &Part| p@)
}

/// The ancestor one further up.
pub(crate) proof fn lemma_ancestor_step(arena: Arena, c: Option<PartId>, n: nat)
    ensures
        ancestor(arena, c, n + 1) == (match ancestor(arena, c, n) {
            Some(x) => up(arena, x),
            None => None,
        }),
    decreases n,
{
    match c {
        None => {},
        Some(x) => {
            if n > 0 {
                lemma_ancestor_step(arena, up(arena, x), (n - 1) as nat);
            } else {
                assert(ancestor(arena, c, 1) == ancestor(arena, up(arena, x), 0));
            }
        },
    }
}

pub(crate) proof fn lemma_ancestor_stays_none(arena: Arena, c: Option<PartId>, n: nat, m: nat)
    requires
        ancestor(arena, c, n) is None,
        n <= m,
    ensures
        ancestor(arena, c, m) is None,
    decreases m,
{
    if n < m {
        lemma_ancestor_stays_none(arena, c, n, (m - 1) as nat);
        lemma_ancestor_step(arena, c, (m - 1) as nat);
    }
}

/// Two arenas that agree on the parents along a chain agree on the chain.
proof fn lemma_same_chain(a: Arena, b: Arena, c: Option<PartId>, n: nat)
    requires
        forall|m: nat|
            m < n ==> (#[trigger] ancestor(a, c, m) matches Some(x) ==> up(b, x) == up(a, x)),
    ensures
        ancestor(b, c, n) == ancestor(a, c, n),
    decreases n,
{
    if n > 0 {
        lemma_same_chain(a, b, c, (n - 1) as nat);
        lemma_ancestor_step(a, c, (n - 1) as nat);
        lemma_ancestor_step(b, c, (n - 1) as nat);
    }
}

/// A new part under a part that has a slot keeps the tree well-formed.
proof fn lemma_add_keeps_shape(arena: Arena, name: Seq<char>, parent: PartId)
    requires
        ids_ok(arena),
        acyclic(arena),
        arena.len() < u32::MAX,
        parent.0 < arena.len(),
    ensures
        ids_ok(with_part(arena, name, parent)),
        acyclic(with_part(arena, name, parent)),
        forall|id: PartId|
            id.0 < arena.len() ==> part_at(with_part(arena, name, parent), id) == #[trigger] part_at(
                arena,
                id,
            ),
{
    let b = with_part(arena, name, parent);
    let new = PartId(arena.len() as u32);
    assert forall|id: PartId| id.0 != arena.len() implies #[trigger] rooted(b, Some(id)) by {
        lemma_add_keeps_rooted(arena, name, parent, id);
    }
    assert forall|id: PartId| #[trigger] rooted(b, Some(id)) by {
        if id.0 == arena.len() {
            assert(rooted(b, Some(parent)));
            let n = choose|n: nat| ancestor(b, Some(parent), n) is None;
            assert(up(b, id) == Some(parent));
            assert(ancestor(b, Some(id), n + 1) == ancestor(b, up(b, id), n));
        }
    }
    assert(ids_ok(b)) by {
        assert forall|i: int| 0 <= i < b.len() && (#[trigger] b[i]) is Some implies {
            &&& b[i]->0.id.0 == i
            &&& b[i]->0.parent matches Some(q) ==> q.0 < b.len()
        } by {
            if i < arena.len() {
                assert(arena[i] == b[i]);
            }
        }
    }
}

proof fn lemma_add_keeps_rooted(arena: Arena, name: Seq<char>, parent: PartId, id: PartId)
    requires
        ids_ok(arena),
        acyclic(arena),
        arena.len() < u32::MAX,
        id.0 != arena.len(),
    ensures
        rooted(with_part(arena, name, parent), Some(id)),
{
    let b = with_part(arena, name, parent);
    assert(rooted(arena, Some(id)));
    let n = choose|n: nat| ancestor(arena, Some(id), n) is None;
    assert forall|m: nat| m < n implies (#[trigger] ancestor(arena, Some(id), m) matches Some(x)
        ==> up(b, x) == up(arena, x)) by {
        lemma_ancestor_has_slot(arena, id, m);
    }
    lemma_same_chain(arena, b, Some(id), n);
}

/// An ancestor is the part itself or one that has a slot.
proof fn lemma_ancestor_has_slot(arena: Arena, id: PartId, m: nat)
    requires
        ids_ok(arena),
    ensures
        ancestor(arena, Some(id), m) matches Some(x) ==> x == id || x.0 < arena.len(),
    decreases m,
{
    if m > 0 {
        lemma_ancestor_has_slot(arena, id, (m - 1) as nat);
        lemma_ancestor_step(arena, Some(id), (m - 1) as nat);
    }
}

/// A part that is rooted is not its own parent.
proof fn lemma_not_own_parent(arena: Arena, id: PartId, n: nat)
    requires
        ancestor(arena, Some(id), n) is None,
    ensures
        up(arena, id) != Some(id),
    decreases n,
{
    if up(arena, id) == Some(id) && n > 0 {
        lemma_not_own_parent(arena, id, (n - 1) as nat);
    }
}

/// Removing a part other than the root keeps the tree well-formed.
proof fn lemma_remove_keeps_shape(arena: Arena, id: PartId, root: PartId)
    requires
        ids_ok(arena),
        acyclic(arena),
        id != root,
        part_at(arena, root) is Some,
        part_at(arena, id) is Some,
    ensures
        ids_ok(without(arena, id)),
        acyclic(without(arena, id)),
        part_at(without(arena, id), root) is Some,
{
    let b = without(arena, id);
    assert(rooted(arena, Some(id)));
    assert(up(arena, id) != Some(id)) by {
        let n = choose|n: nat| ancestor(arena, Some(id), n) is None;
        lemma_not_own_parent(arena, id, n);
    }
    assert forall|x: PartId| #[trigger] rooted(b, Some(x)) by {
        if x == id {
            assert(up(b, x) is None);
            assert(ancestor(b, Some(x), 1) == ancestor(b, up(b, x), 0));
        } else {
            assert(rooted(arena, Some(x)));
            let n = choose|n: nat| ancestor(arena, Some(x), n) is None;
            lemma_remove_keeps_rooted(arena, id, Some(x), n);
        }
    }
    assert(ids_ok(b)) by {
        assert(arena[id.0 as int] is Some);
        assert forall|i: int| 0 <= i < b.len() && (#[trigger] b[i]) is Some implies {
            &&& b[i]->0.id.0 == i
            &&& b[i]->0.parent matches Some(q) ==> q.0 < b.len()
        } by {
            assert(arena[i] is Some);
        }
    }
}

proof fn lemma_remove_keeps_rooted(arena: Arena, id: PartId, c: Option<PartId>, n: nat)
    requires
        ids_ok(arena),
        part_at(arena, id) is Some,
        up(arena, id) != Some(id),
        c != Some(id),
        ancestor(arena, c, n) is None,
    ensures
        rooted(without(arena, id), c),
    decreases n,
{
    let b = without(arena, id);
    match c {
        None => {
            assert(ancestor(b, c, 0) is None);
        },
        Some(x) => {
            let y = up(arena, x);
            if y == Some(id) {
                let z = up(arena, id);
                assert(ancestor(arena, y, (n - 1) as nat) is None);
                assert(ancestor(arena, z, (n - 2) as nat) is None);
                lemma_remove_keeps_rooted(arena, id, z, (n - 2) as nat);
                assert(up(b, x) == z);
                let m = choose|m: nat| ancestor(b, z, m) is None;
                assert(ancestor(b, c, m + 1) == ancestor(b, z, m));
            } else {
                lemma_remove_keeps_rooted(arena, id, y, (n - 1) as nat);
                assert(up(b, x) == y);
                let m = choose|m: nat| ancestor(b, y, m) is None;
                assert(ancestor(b, c, m + 1) == ancestor(b, y, m));
            }
        },
    }
}

/// Hanging a part under one that is not below it keeps the tree well-formed.
proof fn lemma_reparent_keeps_shape(arena: Arena, id: PartId, parent: PartId, root: PartId)
    requires
        ids_ok(arena),
        acyclic(arena),
        part_at(arena, root) is Some,
        part_at(arena, id) is Some,
        !below(arena, parent, id),
        parent.0 < arena.len(),
    ensures
        ids_ok(hung(arena, id, parent)),
        acyclic(hung(arena, id, parent)),
        part_at(hung(arena, id, parent), root) is Some,
{
    let b = hung(arena, id, parent);
    assert forall|x: PartId| x != id implies up(b, x) == #[trigger] up(arena, x) by {}
    // the chain from the new parent does not pass through id
    assert(rooted(arena, Some(parent)));
    let k = choose|k: nat| ancestor(arena, Some(parent), k) is None;
    assert forall|m: nat| m < k implies (#[trigger] ancestor(arena, Some(parent), m) matches Some(x)
        ==> up(b, x) == up(arena, x)) by {
        assert(ancestor(arena, Some(parent), m) != Some(id));
    }
    lemma_same_chain(arena, b, Some(parent), k);
    assert(ancestor(b, Some(id), k + 1) == ancestor(b, up(b, id), k));
    assert(rooted(b, Some(id)));
    assert forall|x: PartId| #[trigger] rooted(b, Some(x)) by {
        assert(rooted(arena, Some(x)));
        let n = choose|n: nat| ancestor(arena, Some(x), n) is None;
        lemma_reparent_keeps_rooted(arena, b, id, Some(x), n);
    }
    assert(ids_ok(b)) by {
        assert(arena[id.0 as int] is Some);
        assert forall|i: int| 0 <= i < b.len() && (#[trigger] b[i]) is Some implies {
            &&& b[i]->0.id.0 == i
            &&& b[i]->0.parent matches Some(q) ==> q.0 < b.len()
        } by {
            assert(arena[i] is Some);
        }
    }
}

proof fn lemma_reparent_keeps_rooted(a: Arena, b: Arena, id: PartId, c: Option<PartId>, n: nat)
    requires
        forall|x: PartId| x != id ==> up(b, x) == #[trigger] up(a, x),
        rooted(b, Some(id)),
        ancestor(a, c, n) is None,
    ensures
        rooted(b, c),
    decreases n,
{
    match c {
        None => {
            assert(ancestor(b, c, 0) is None);
        },
        Some(x) => {
            if x != id {
                let y = up(a, x);
                lemma_reparent_keeps_rooted(a, b, id, y, (n - 1) as nat);
                assert(up(b, x) == y);
                let m = choose|m: nat| ancestor(b, y, m) is None;
                assert(ancestor(b, c, m + 1) == ancestor(b, y, m));
            }
        },
    }
}

/// A part hung under another, or a root.
pub open spec fn seed(id: u32, name: Seq<char>, parent: Option<PartId>, pivot: Pivot) -> Option<
    PartModel,
> {
    Some(PartModel { id: PartId(id), name, parent, pivot })
}

/// The standard humanoid rig. Pivots, in reference blocks: torso
/// `(0.5, 0.9, 0.5)`, head `(0.5, 1.5, 0.5)`, arms `(0.15, 1.3, 0.5)` and
/// `(0.85, 1.3, 0.5)`, legs `(0.35, 0.6, 0.5)` and `(0.65, 0.6, 0.5)`.
pub open spec fn character_arena() -> Arena {
    let torso = Some(PartId(0));
    seq![
        seed(0, "Torso"@, None, Pivot { x: 0x3f00_0000, y: 0x3f66_6666, z: 0x3f00_0000 }),
        seed(1, "Head"@, torso, Pivot { x: 0x3f00_0000, y: 0x3fc0_0000, z: 0x3f00_0000 }),
        seed(2, "RightArm"@, torso, Pivot { x: 0x3e19_999a, y: 0x3fa6_6666, z: 0x3f00_0000 }),
        seed(3, "LeftArm"@, torso, Pivot { x: 0x3f59_999a, y: 0x3fa6_6666, z: 0x3f00_0000 }),
        seed(4, "RightLeg"@, torso, Pivot { x: 0x3eb3_3333, y: 0x3f19_999a, z: 0x3f00_0000 }),
        seed(5, "LeftLeg"@, torso, Pivot { x: 0x3f26_6666, y: 0x3f19_999a, z: 0x3f00_0000 }),
    ]
}

/// The rig of an item: one body part with its pivot at `(0.5, 0.5, 0.5)`.
pub open spec fn item_arena() -> Arena {
    seq![seed(0, "Body"@, None, Pivot { x: 0x3f00_0000, y: 0x3f00_0000, z: 0x3f00_0000 })]
}

/// The rig that a new model of a type starts with.
pub open spec fn default_arena(object: ObjectType) -> Arena {
    match object {
        ObjectType::Character => character_arena(),
        ObjectType::Item => item_arena(),
    }
}

/// Parts that all hang right under the first one are well-formed.
proof fn lemma_flat_rig(arena: Arena)
    requires
        ids_ok(arena),
        arena.len() > 0,
        forall|i: int|
            0 <= i < arena.len() ==> (#[trigger] arena[i]) is Some && (if i == 0 {
                arena[i]->0.parent is None
            } else {
                arena[i]->0.parent == Some(PartId(0))
            }),
    ensures
        acyclic(arena),
        part_at(arena, PartId(0)) is Some,
        one_tree(arena, PartId(0)),
{
    assert forall|id: PartId| id != PartId(0) && (#[trigger] part_at(arena, id)) is Some implies hangs(
        arena,
        id,
    ) by {
        assert(arena[id.0 as int] is Some);
        assert(arena[0] is Some);
    }
    assert forall|id: PartId| #[trigger] rooted(arena, Some(id)) by {
        let top = PartId(0);
        assert(up(arena, top) is None);
        assert(ancestor(arena, Some(top), 1) == ancestor(arena, up(arena, top), 0));
        if 0 < id.0 < arena.len() {
            assert(arena[id.0 as int] is Some);
            assert(up(arena, id) == Some(top));
            assert(ancestor(arena, Some(id), 2) == ancestor(arena, Some(top), 1));
        } else if id.0 >= arena.len() {
            assert(up(arena, id) is None);
            assert(ancestor(arena, Some(id), 1) == ancestor(arena, up(arena, id), 0));
        }
    }
}

fn part(id: u32, name: &str, parent: Option<PartId>, x: u32, y: u32, z: u32) -> (p: Option<Part>)
    ensures
        slot_view(p) == seed(id, name@, parent, Pivot { x, y, z }),
{
    Some(Part { id: PartId(id), name: name.to_owned(), parent, pivot: Pivot { x, y, z } })
}

/// Seed the standard humanoid character rig: a `Torso` root with `Head` and four
/// limbs, each pivoted at its joint. Pivots assume a model roughly two blocks
/// tall standing on the build-volume floor.
pub fn default_character_parts() -> (t: PartTree)
    ensures
        t@ == character_arena(),
        t.spec_root() == PartId(0),
        t.wf(),
        t.whole(),
{
    let torso = Some(PartId(0));
    let mut parts: Vec<Option<Part>> = Vec::new();
    parts.push(part(0, "Torso", None, 0x3f00_0000, 0x3f66_6666, 0x3f00_0000));
    parts.push(part(1, "Head", torso, 0x3f00_0000, 0x3fc0_0000, 0x3f00_0000));
    parts.push(part(2, "RightArm", torso, 0x3e19_999a, 0x3fa6_6666, 0x3f00_0000));
    parts.push(part(3, "LeftArm", torso, 0x3f59_999a, 0x3fa6_6666, 0x3f00_0000));
    parts.push(part(4, "RightLeg", torso, 0x3eb3_3333, 0x3f19_999a, 0x3f00_0000));
    parts.push(part(5, "LeftLeg", torso, 0x3f26_6666, 0x3f19_999a, 0x3f00_0000));
    let t = PartTree { parts, root: PartId(0) };
    proof {
        assert(t@ =~= character_arena());
        lemma_flat_rig(t@);
    }
    t
}

/// Seed the default rig for an [`ObjectType::Item`]: a single `Body` part that
/// owns the whole model so every sub-voxel has a valid owner.
pub fn default_item_parts() -> (t: PartTree)
    ensures
        t@ == item_arena(),
        t.spec_root() == PartId(0),
        t.wf(),
        t.whole(),
{
    let mut parts: Vec<Option<Part>> = Vec::new();
    parts.push(part(0, "Body", None, 0x3f00_0000, 0x3f00_0000, 0x3f00_0000));
    let t = PartTree { parts, root: PartId(0) };
    proof {
        assert(t@ =~= item_arena());
        lemma_flat_rig(t@);
    }
    t
}

/// Seed the default rig for an object type.
pub fn default_parts(object: ObjectType) -> (t: PartTree)
    ensures
        t@ == default_arena(object),
        t.spec_root() == PartId(0),
        t.wf(),
        t.whole(),
{
    match object {
        ObjectType::Character => default_character_parts(),
        ObjectType::Item => default_item_parts(),
    }
}

/// Deleting a part moves its children up to its parent and touches no other
/// part.
pub proof fn remove_preserves_the_subtree(arena: Arena, id: PartId, other: PartId)
    requires
        part_at(arena, id) is Some,
        other != id,
    ensures
        part_at(without(arena, id), id) is None,
        match part_at(arena, other) {
            Some(p) => part_at(without(arena, id), other) == Some(
                PartModel {
                    parent: if p.parent == Some(id) {
                        up(arena, id)
                    } else {
                        p.parent
                    },
                    ..p
                },
            ),
            None => part_at(without(arena, id), other) is None,
        },
{
}

/// Ids are not reused: a new part gets an id that no part had before, and every
/// other slot, a deleted one included, stays as it was. The new part has that id,
/// its name, its parent, and the parent's pivot, and is one more live part.
pub proof fn ids_are_not_reused(arena: Arena, name: Seq<char>, parent: PartId, other: PartId)
    requires
        arena.len() < u32::MAX,
    ensures
        part_at(arena, PartId(arena.len() as u32)) is None,
        other.0 != arena.len() ==> part_at(with_part(arena, name, parent), other) == part_at(
            arena,
            other,
        ),
        forall|id: PartId| #[trigger] without(arena, id).len() == arena.len(),
        part_at(with_part(arena, name, parent), PartId(arena.len() as u32)) == Some(
            PartModel {
                id: PartId(arena.len() as u32),
                name,
                parent: Some(parent),
                pivot: match part_at(arena, parent) {
                    Some(p) => p.pivot,
                    None => Pivot { x: 0, y: 0, z: 0 },
                },
            },
        ),
        live_parts(with_part(arena, name, parent)).len() == live_parts(arena).len() + 1,
{
    assert(with_part(arena, name, parent).drop_last() =~= arena);
}

/// A new part under a live one keeps the parts one tree.
pub proof fn add_keeps_one_tree(arena: Arena, root: PartId, name: Seq<char>, parent: PartId)
    requires
        one_tree(arena, root),
        arena.len() < u32::MAX,
        part_at(arena, parent) is Some,
    ensures
        one_tree(with_part(arena, name, parent), root),
{
    let b = with_part(arena, name, parent);
    lemma_add_keeps_shape(arena, name, parent);
    assert(part_at(b, root) == part_at(arena, root));
    assert forall|id: PartId| id != root && (#[trigger] part_at(b, id)) is Some implies hangs(
        b,
        id,
    ) by {
        if id.0 < arena.len() {
            assert(part_at(b, id) == part_at(arena, id));
            assert(hangs(arena, id));
            let q = up(arena, id)->0;
            assert(part_at(b, q) == part_at(arena, q));
        } else {
            assert(part_at(b, parent) == part_at(arena, parent));
        }
    }
}

/// Removing any part keeps the parts one tree.
pub proof fn remove_keeps_one_tree(arena: Arena, root: PartId, id: PartId)
    requires
        one_tree(arena, root),
    ensures
        one_tree(removed(arena, root, id), root),
{
    if id != root && part_at(arena, id) is Some {
        let b = without(arena, id);
        lemma_remove_keeps_shape(arena, id, root);
        assert(hangs(arena, id));
        let above = up(arena, id)->0;
        assert(above != id) by {
            assert(rooted(arena, Some(id)));
            let n = choose|n: nat| ancestor(arena, Some(id), n) is None;
            lemma_not_own_parent(arena, id, n);
        }
        assert(part_at(b, above) is Some);
        assert(part_at(arena, root) is Some);
        assert forall|x: PartId| x != root && (#[trigger] part_at(b, x)) is Some implies hangs(
            b,
            x,
        ) by {
            assert(part_at(arena, x) is Some);
            assert(hangs(arena, x));
            let q = up(arena, x)->0;
            if q != id {
                assert(part_at(arena, q) is Some);
                assert(part_at(b, q) is Some);
            }
        }
    }
}

/// Moving any part under a live one keeps the parts one tree.
pub proof fn reparent_keeps_one_tree(arena: Arena, root: PartId, id: PartId, parent: PartId)
    requires
        one_tree(arena, root),
        part_at(arena, parent) is Some,
    ensures
        one_tree(reparented(arena, root, id, parent), root),
{
    if movable(arena, root, id, parent) {
        let b = hung(arena, id, parent);
        lemma_reparent_keeps_shape(arena, id, parent, root);
        assert forall|x: PartId| x != root && (#[trigger] part_at(b, x)) is Some implies hangs(
            b,
            x,
        ) by {
            assert(part_at(arena, x) is Some);
            assert(hangs(arena, x));
            assert(part_at(b, parent) is Some);
            let q = up(arena, x)->0;
            assert(part_at(arena, q) is Some);
            assert(part_at(b, q) is Some);
        }
    }
}

proof fn lemma_chain_to_root(arena: Arena, root: PartId, id: PartId, total: nat) -> (n: nat)
    requires
        one_tree(arena, root),
        part_at(arena, id) is Some,
        ancestor(arena, Some(id), total) is None,
    ensures
        ancestor(arena, Some(id), n) == Some(root),
        ancestor(arena, Some(id), n + 1) is None,
        forall|m: nat|
            m <= n ==> (#[trigger] ancestor(arena, Some(id), m) matches Some(x) && part_at(
                arena,
                x,
            ) is Some),
    decreases total,
{
    if id == root {
        assert(ancestor(arena, Some(id), 1) == ancestor(arena, up(arena, id), 0));
        0
    } else {
        assert(hangs(arena, id));
        let q = up(arena, id)->0;
        let k = lemma_chain_to_root(arena, root, q, (total - 1) as nat);
        assert(ancestor(arena, Some(id), k + 2) == ancestor(arena, Some(q), k + 1));
        assert forall|m: nat| m <= k + 1 implies (#[trigger] ancestor(
            arena,
            Some(id),
            m,
        ) matches Some(x) && part_at(arena, x) is Some) by {
            if m > 0 {
                assert(ancestor(arena, Some(id), m) == ancestor(arena, Some(q), (m - 1) as nat));
            }
        }
        k + 1
    }
}

/// In one tree, following parents from any live part visits only live parts, none
/// of them twice, and ends at the root.
pub proof fn every_chain_ends_at_the_root(arena: Arena, root: PartId, id: PartId) -> (n: nat)
    requires
        one_tree(arena, root),
        part_at(arena, id) is Some,
    ensures
        ancestor(arena, Some(id), n) == Some(root),
        ancestor(arena, Some(id), n + 1) is None,
        forall|m: nat|
            m <= n ==> (#[trigger] ancestor(arena, Some(id), m) matches Some(x) && part_at(
                arena,
                x,
            ) is Some),
        forall|i: nat, j: nat|
            i < j <= n ==> #[trigger] ancestor(arena, Some(id), i) != #[trigger] ancestor(
                arena,
                Some(id),
                j,
            ),
{
    assert(rooted(arena, Some(id)));
    let total = choose|n: nat| ancestor(arena, Some(id), n) is None;
    let n = lemma_chain_to_root(arena, root, id, total);
    assert forall|i: nat, j: nat| i < j <= n implies #[trigger] ancestor(arena, Some(id), i)
        != #[trigger] ancestor(arena, Some(id), j) by {
        let x = ancestor(arena, Some(id), i)->0;
        lemma_ancestor_sum(arena, Some(id), i, (j - i) as nat);
        assert(rooted(arena, Some(x)));
        lemma_no_cycle(arena, x, (j - i) as nat);
    }
    n
}

/// An edit of a part tree.
pub enum TreeEdit {
    Add { name: Seq<char>, parent: PartId },
    Remove { id: PartId },
    Reparent { id: PartId, parent: PartId },
}

/// The arena after an edit.
pub open spec fn edited(arena: Arena, root: PartId, e: TreeEdit) -> Arena {
    match e {
        TreeEdit::Add { name, parent } => with_part(arena, name, parent),
        TreeEdit::Remove { id } => removed(arena, root, id),
        TreeEdit::Reparent { id, parent } => reparented(arena, root, id, parent),
    }
}

/// The arena after several edits, in order.
pub open spec fn edited_all(arena: Arena, root: PartId, edits: Seq<TreeEdit>) -> Arena
    decreases edits.len(),
{
    if edits.len() == 0 {
        arena
    } else {
        edited(edited_all(arena, root, edits.drop_last()), root, edits.last())
    }
}

/// The edit names a live part where it names a parent.
pub open spec fn under_live(arena: Arena, e: TreeEdit) -> bool {
    match e {
        TreeEdit::Add { parent, .. } => part_at(arena, parent) is Some,
        TreeEdit::Remove { .. } => true,
        TreeEdit::Reparent { parent, .. } => part_at(arena, parent) is Some,
    }
}

/// Each edit names a live part where it names a parent.
pub open spec fn all_under_live(arena: Arena, root: PartId, edits: Seq<TreeEdit>) -> bool
    decreases edits.len(),
{
    edits.len() == 0 || (all_under_live(arena, root, edits.drop_last()) && under_live(
        edited_all(arena, root, edits.drop_last()),
        edits.last(),
    ))
}

proof fn lemma_edits_grow(arena: Arena, root: PartId, edits: Seq<TreeEdit>, k: int)
    requires
        0 <= k <= edits.len(),
    ensures
        edited_all(arena, root, edits.take(k)).len() <= edited_all(arena, root, edits).len(),
    decreases edits.len(),
{
    if edits.len() > 0 {
        let rest = edits.drop_last();
        if k < edits.len() {
            lemma_edits_grow(arena, root, rest, k);
            assert(rest.take(k) =~= edits.take(k));
        } else {
            lemma_edits_grow(arena, root, rest, 0);
            assert(edits.take(k) =~= edits);
        }
    } else {
        assert(edits.take(k) =~= edits);
    }
}

/// A tree stays one tree, with the same root, through any edits that name live
/// parents. The default rigs are such trees.
pub proof fn rigs_stay_one_tree(arena: Arena, root: PartId, edits: Seq<TreeEdit>)
    requires
        one_tree(arena, root),
        edited_all(arena, root, edits).len() <= u32::MAX,
        all_under_live(arena, root, edits),
    ensures
        one_tree(edited_all(arena, root, edits), root),
    decreases edits.len(),
{
    if edits.len() > 0 {
        let rest = edits.drop_last();
        lemma_edits_grow(arena, root, edits, edits.len() - 1);
        assert(edits.take(edits.len() - 1) =~= rest);
        rigs_stay_one_tree(arena, root, rest);
        let before = edited_all(arena, root, rest);
        match edits.last() {
            TreeEdit::Add { name, parent } => {
                add_keeps_one_tree(before, root, name, parent);
            },
            TreeEdit::Remove { id } => {
                remove_keeps_one_tree(before, root, id);
            },
            TreeEdit::Reparent { id, parent } => {
                reparent_keeps_one_tree(before, root, id, parent);
            },
        }
    }
}

/// The default rigs are one tree under their first part.
pub proof fn default_rigs_are_one_tree(object: ObjectType)
    ensures
        one_tree(default_arena(object), PartId(0)),
{
    lemma_flat_rig(default_arena(object));
}

/// The id of a new part differs from every id that the tree ever held, those of
/// removed parts included.
pub proof fn new_ids_are_fresh(
    arena: Arena,
    root: PartId,
    edits: Seq<TreeEdit>,
    k: int,
    id: PartId,
)
    requires
        edited_all(arena, root, edits).len() < u32::MAX,
        0 <= k <= edits.len(),
        part_at(edited_all(arena, root, edits.take(k)), id) is Some,
    ensures
        id != PartId(edited_all(arena, root, edits).len() as u32),
{
    lemma_edits_grow(arena, root, edits, k);
}

/// Going up `m` and then `n` levels is going up `m + n`.
pub(crate) proof fn lemma_ancestor_sum(arena: Arena, c: Option<PartId>, m: nat, n: nat)
    ensures
        ancestor(arena, ancestor(arena, c, m), n) == ancestor(arena, c, m + n),
    decreases m,
{
    match c {
        None => {},
        Some(x) => {
            if m > 0 {
                lemma_ancestor_sum(arena, up(arena, x), (m - 1) as nat, n);
            }
        },
    }
}

/// No part of a well-formed tree is its own proper ancestor.
pub(crate) proof fn lemma_no_cycle(arena: Arena, c: PartId, m: nat)
    requires
        rooted(arena, Some(c)),
        m > 0,
    ensures
        ancestor(arena, Some(c), m) != Some(c),
{
    let n = choose|n: nat| ancestor(arena, Some(c), n) is None;
    if ancestor(arena, Some(c), m) == Some(c) {
        lemma_cycle_never_ends(arena, c, m, n);
    }
}

proof fn lemma_cycle_never_ends(arena: Arena, c: PartId, m: nat, n: nat)
    requires
        m > 0,
        ancestor(arena, Some(c), m) == Some(c),
    ensures
        ancestor(arena, Some(c), n) is Some,
    decreases n,
{
    if n < m {
        if ancestor(arena, Some(c), n) is None {
            lemma_ancestor_stays_none(arena, Some(c), n, m);
        }
    } else {
        lemma_cycle_never_ends(arena, c, m, (n - m) as nat);
        lemma_ancestor_sum(arena, Some(c), m, (n - m) as nat);
    }
}

/// A chain of parents that ends has at most one step per slot, and one out of
/// them.
proof fn lemma_chain_bound(arena: Arena, c: PartId)
    requires
        rooted(arena, Some(c)),
    ensures
        ancestor(arena, Some(c), arena.len() + 1) is None,
{
    let size = arena.len();
    if ancestor(arena, Some(c), size + 1) is Some {
        let ids = Seq::new(size + 1, |k: int| (ancestor(arena, Some(c), k as nat)->0).0 as int);
        let range = vstd::set_lib::set_int_range(0, size as int);
        vstd::set_lib::lemma_int_range(0, size as int);
        assert forall|k: int| 0 <= k < ids.len() implies range.contains(#[trigger] ids[k]) by {
            lemma_ancestor_step(arena, Some(c), k as nat);
            if ancestor(arena, Some(c), (k + 1) as nat) is None {
                lemma_ancestor_stays_none(arena, Some(c), (k + 1) as nat, size + 1);
            }
        }
        assert forall|i: int, j: int| 0 <= i < j < ids.len() implies ids[i] != ids[j] by {
            if ancestor(arena, Some(c), i as nat) is None {
                lemma_ancestor_stays_none(arena, Some(c), i as nat, size + 1);
            }
            if ancestor(arena, Some(c), j as nat) is None {
                lemma_ancestor_stays_none(arena, Some(c), j as nat, size + 1);
            }
            if ids[i] == ids[j] {
                let x = ancestor(arena, Some(c), i as nat)->0;
                lemma_ancestor_sum(arena, Some(c), i as nat, (j - i) as nat);
                let n = choose|n: nat| ancestor(arena, Some(c), n) is None;
                lemma_ancestor_sum(arena, Some(c), i as nat, n);
                lemma_ancestor_stays_none(arena, Some(c), n, (i + n) as nat);
                assert(rooted(arena, Some(x)));
                lemma_no_cycle(arena, x, (j - i) as nat);
            }
        }
        assert(ids.no_duplicates());
        ids.unique_seq_to_set();
        assert forall|v: int| ids.to_set().contains(v) implies range.contains(v) by {
            let k = ids.index_of(v);
            assert(range.contains(ids[k]));
        }
        vstd::set_lib::lemma_len_subset(ids.to_set(), range);
    }
}

/// The children of a part are live and name it as their parent.
pub(crate) proof fn lemma_children(arena: Arena, parent: PartId, k: int)
    requires
        ids_ok(arena),
        0 <= k < child_parts(arena, parent).len(),
    ensures
        part_at(arena, child_parts(arena, parent)[k].id) == Some(child_parts(arena, parent)[k]),
        up(arena, child_parts(arena, parent)[k].id) == Some(parent),
{
    assert(arena.take(arena.len() as int) =~= arena);
    lemma_children_prefix(arena, parent, arena.len() as int, k);
}

proof fn lemma_children_prefix(arena: Arena, parent: PartId, n: int, k: int)
    requires
        ids_ok(arena),
        0 <= n <= arena.len(),
        0 <= k < child_parts(arena.take(n), parent).len(),
    ensures
        ({
            let c = child_parts(arena.take(n), parent)[k];
            part_at(arena, c.id) == Some(c) && c.parent == Some(parent)
        }),
    decreases n,
{
    if n > 0 {
        let rest = arena.take(n - 1);
        assert(arena.take(n).drop_last() =~= rest);
        assert(arena.take(n).last() == arena[n - 1]);
        if k < child_parts(rest, parent).len() {
            lemma_children_prefix(arena, parent, n - 1, k);
        }
    }
}

proof fn lemma_child_listed(arena: Arena, parent: PartId, i: int)
    requires
        0 <= i < arena.len(),
        arena[i] matches Some(p) && p.parent == Some(parent),
    ensures
        child_parts(arena, parent).contains(arena[i]->0),
    decreases arena.len(),
{
    let rest = arena.drop_last();
    if i < rest.len() {
        assert(rest[i] == arena[i]);
        lemma_child_listed(rest, parent, i);
        let k = child_parts(rest, parent).index_of(arena[i]->0);
        assert(child_parts(arena, parent)[k] == arena[i]->0);
    } else {
        assert(child_parts(arena, parent).last() == arena[i]->0);
    }
}

proof fn lemma_children_ascend(arena: Arena, parent: PartId)
    requires
        ids_ok(arena),
    ensures
        forall|k: int|
            0 <= k < child_parts(arena, parent).len() ==> (#[trigger] child_parts(
                arena,
                parent,
            )[k]).id.0 < arena.len(),
        forall|j: int, k: int|
            0 <= j < k < child_parts(arena, parent).len() ==> (#[trigger] child_parts(
                arena,
                parent,
            )[j]).id.0 < (#[trigger] child_parts(arena, parent)[k]).id.0,
{
    assert(arena.take(arena.len() as int) =~= arena);
    lemma_children_ascend_prefix(arena, parent, arena.len() as int);
}

proof fn lemma_children_ascend_prefix(arena: Arena, parent: PartId, n: int)
    requires
        ids_ok(arena),
        0 <= n <= arena.len(),
    ensures
        ({
            let c = child_parts(arena.take(n), parent);
            &&& forall|k: int| 0 <= k < c.len() ==> (#[trigger] c[k]).id.0 < n
            &&& forall|j: int, k: int|
                0 <= j < k < c.len() ==> (#[trigger] c[j]).id.0 < (#[trigger] c[k]).id.0
        }),
    decreases n,
{
    if n > 0 {
        let rest = arena.take(n - 1);
        assert(arena.take(n).drop_last() =~= rest);
        assert(arena.take(n).last() == arena[n - 1]);
        lemma_children_ascend_prefix(arena, parent, n - 1);
    }
}

/// The children of a part are the live parts that name it as their parent: all of
/// them, each once, in the order of their ids.
pub proof fn children_name_their_parent(arena: Arena, parent: PartId, p: PartModel)
    requires
        ids_ok(arena),
    ensures
        child_parts(arena, parent).contains(p) <==> part_at(arena, p.id) == Some(p) && p.parent
            == Some(parent),
        forall|j: int, k: int|
            0 <= j < k < child_parts(arena, parent).len() ==> (#[trigger] child_parts(
                arena,
                parent,
            )[j]).id.0 < (#[trigger] child_parts(arena, parent)[k]).id.0,
{
    lemma_children_ascend(arena, parent);
    if child_parts(arena, parent).contains(p) {
        let k = child_parts(arena, parent).index_of(p);
        lemma_children(arena, parent, k);
    }
    if part_at(arena, p.id) == Some(p) && p.parent == Some(parent) {
        lemma_child_listed(arena, parent, p.id.0 as int);
    }
}

proof fn lemma_live_prefix(arena: Arena, n: int)
    requires
        ids_ok(arena),
        0 <= n <= arena.len(),
    ensures
        ({
            let l = live_parts(arena.take(n));
            &&& forall|k: int|
                0 <= k < l.len() ==> (#[trigger] l[k]).id.0 < n && arena[l[k].id.0 as int] == Some(
                    l[k],
                )
            &&& forall|j: int, k: int|
                0 <= j < k < l.len() ==> (#[trigger] l[j]).id.0 < (#[trigger] l[k]).id.0
            &&& forall|i: int|
                0 <= i < n && (#[trigger] arena[i]) is Some ==> l.contains(arena[i]->0)
        }),
    decreases n,
{
    if n > 0 {
        let rest = arena.take(n - 1);
        assert(arena.take(n).drop_last() =~= rest);
        assert(arena.take(n).last() == arena[n - 1]);
        lemma_live_prefix(arena, n - 1);
        let before = live_parts(rest);
        let l = live_parts(arena.take(n));
        assert forall|i: int| 0 <= i < n && (#[trigger] arena[i]) is Some implies l.contains(
            arena[i]->0,
        ) by {
            if i < n - 1 {
                assert(before.contains(arena[i]->0));
                let k = before.index_of(arena[i]->0);
                assert(l[k] == arena[i]->0);
            } else {
                assert(l.last() == arena[i]->0);
            }
        }
    }
}

/// The list of parts holds every live part once, in the order of their ids, and
/// nothing else.
pub proof fn lists_hold_the_live_parts(arena: Arena, p: PartModel)
    requires
        ids_ok(arena),
    ensures
        live_parts(arena).contains(p) <==> part_at(arena, p.id) == Some(p),
        forall|j: int, k: int|
            0 <= j < k < live_parts(arena).len() ==> (#[trigger] live_parts(arena)[j]).id.0 < (
            #[trigger] live_parts(arena)[k]).id.0,
{
    assert(arena.take(arena.len() as int) =~= arena);
    lemma_live_prefix(arena, arena.len() as int);
    if live_parts(arena).contains(p) {
        let k = live_parts(arena).index_of(p);
        assert(live_parts(arena)[k] == p);
    }
}

/// A part is moved under another exactly when that makes no loop: not the root, not
/// under itself, and not under anything below it. Only the moved part changes, and
/// only its parent.
pub proof fn moves_make_no_loop(
    arena: Arena,
    root: PartId,
    id: PartId,
    parent: PartId,
    other: PartId,
    n: nat,
)
    ensures
        id == parent || id == root ==> reparented(arena, root, id, parent) == arena,
        ancestor(arena, Some(parent), n) == Some(id) ==> reparented(arena, root, id, parent)
            == arena,
        part_at(arena, id) is None ==> reparented(arena, root, id, parent) == arena,
        id != root && part_at(arena, id) is Some && (forall|k: nat|
            #[trigger] ancestor(arena, Some(parent), k) != Some(id)) ==> {
            &&& part_at(reparented(arena, root, id, parent), id) == Some(
                PartModel { parent: Some(parent), ..part_at(arena, id)->0 },
            )
            &&& other != id ==> part_at(reparented(arena, root, id, parent), other) == part_at(
                arena,
                other,
            )
        },
{
    assert(ancestor(arena, Some(parent), 0) == Some(parent));
    if id == parent {
        assert(below(arena, parent, id));
    }
}

/// The root is never removed, nor a part that is not there; any other part is.
pub proof fn roots_are_never_removed(arena: Arena, root: PartId, id: PartId)
    ensures
        removed(arena, root, root) == arena,
        part_at(arena, id) is None ==> removed(arena, root, id) == arena,
        id != root && part_at(arena, id) is Some ==> part_at(removed(arena, root, id), id) is None,
        removed(arena, root, id).len() == arena.len(),
{
}

/// A new character is a torso with a head, two arms and two legs; a new item is one
/// body.
pub proof fn default_rigs_have_their_parts()
    ensures
        ({
            let c = default_arena(ObjectType::Character);
            &&& c.len() == 6
            &&& c[0]->0.name == "Torso"@ && c[0]->0.parent is None
            &&& c[1]->0.name == "Head"@ && c[2]->0.name == "RightArm"@
            &&& c[3]->0.name == "LeftArm"@ && c[4]->0.name == "RightLeg"@
            &&& c[5]->0.name == "LeftLeg"@
            &&& forall|i: int|
                0 <= i < 6 ==> (#[trigger] c[i]) is Some && c[i]->0.id == PartId(i as u32) && (i > 0
                    ==> c[i]->0.parent == Some(PartId(0)))
        }),
        ({
            let t = default_arena(ObjectType::Item);
            t.len() == 1 && t[0] is Some && t[0]->0.name == "Body"@ && t[0]->0.parent is None
                && t[0]->0.id == PartId(0)
        }),
{
}

/// What the object types are called.
pub proof fn object_types_are_told_apart()
    ensures
        object_label(ObjectType::Character) == "Character"@,
        object_label(ObjectType::Item) == "Item"@,
        object_label(ObjectType::Character) != object_label(ObjectType::Item),
{
    reveal_strlit("Character");
    reveal_strlit("Item");
    assert("Character"@.len() == 9 && "Item"@.len() == 4);
}

/// Ancestors are found by following parents: the first is the part itself, and each
/// next one is the parent of the one before. A part is below another exactly if that is
/// one of its ancestors.
pub proof fn ancestors_follow_parents(arena: Arena, c: PartId, a: PartId, n: nat)
    ensures
        ancestor(arena, Some(c), 0) == Some(c),
        match ancestor(arena, Some(c), n) {
            Some(x) => ancestor(arena, Some(c), n + 1) == (match part_at(arena, x) {
                Some(p) => p.parent,
                None => None,
            }),
            None => ancestor(arena, Some(c), n + 1) is None,
        },
        below(arena, c, c),
        below(arena, c, a) <==> exists|k: nat| #[trigger] ancestor(arena, Some(c), k) == Some(a),
{
    lemma_ancestor_step(arena, Some(c), n);
    assert(ancestor(arena, Some(c), 0) == Some(c));
}

/// The pivots of the default rigs, in blocks, by the bit patterns of the coordinates: all
/// on the middle plane, the torso at 0.9, the head at 1.5, the arms at 1.3 and the legs at
/// 0.6, with left and right apart from the middle; an item's in the middle of its block.
pub proof fn default_pivots_are_placed(i: int)
    ensures
        ({
            let c = default_arena(ObjectType::Character);
            &&& 0 <= i < 6 ==> c[i]->0.pivot.z == 0x3f00_0000
            &&& c[0]->0.pivot.x == 0x3f00_0000 && c[0]->0.pivot.y == 0x3f66_6666
            &&& c[1]->0.pivot.x == 0x3f00_0000 && c[1]->0.pivot.y == 0x3fc0_0000
            &&& c[2]->0.pivot.x == 0x3e19_999a && c[3]->0.pivot.x == 0x3f59_999a
            &&& c[2]->0.pivot.y == 0x3fa6_6666 && c[3]->0.pivot.y == 0x3fa6_6666
            &&& c[4]->0.pivot.x == 0x3eb3_3333 && c[5]->0.pivot.x == 0x3f26_6666
            &&& c[4]->0.pivot.y == 0x3f19_999a && c[5]->0.pivot.y == 0x3f19_999a
        }),
        default_arena(ObjectType::Item)[0]->0.pivot == (Pivot {
            x: 0x3f00_0000,
            y: 0x3f00_0000,
            z: 0x3f00_0000,
        }),
{
}

} // verus!
