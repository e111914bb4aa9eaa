//! The open set of the search: a binary min-heap of cells keyed by estimated
//! total cost, with ties broken by the cell's coordinates.

use vstd::multiset::Multiset;
use vstd::prelude::*;

use crate::grid::IVec2;
use crate::pathfinding::toll::{
    lemma_toll_antisym, lemma_toll_total, lemma_toll_trans, toll_le, toll_lt, Cost, Toll,
};

verus! {

/// A cell waiting to be expanded, with its estimated total cost.
pub type Lead = (Toll, IVec2);

/// The order in which leads are taken: by cost, then by `x`, then by `y`.
pub open spec fn lead_le(a: Lead, b: Lead) -> bool {
    toll_lt(a.0, b.0) || (a.0 == b.0 && (a.1.x < b.1.x || (a.1.x == b.1.x && a.1.y <= b.1.y)))
}

/// `e` is in `open` and no lead of `open` comes before it.
pub open spec fn is_least(open: Multiset<Lead>, e: Lead) -> bool {
    open.count(e) > 0 && forall|f: Lead| #[trigger] open.count(f) > 0 ==> lead_le(e, f)
}

pub(crate) proof fn lemma_lead_total(a: Lead, b: Lead)
    ensures
        lead_le(a, b) || lead_le(b, a),
        lead_le(a, a),
{
    lemma_toll_total(a.0, b.0);
    if toll_le(a.0, b.0) && toll_le(b.0, a.0) {
        lemma_toll_antisym(a.0, b.0);
    }
}

pub(crate) proof fn lemma_lead_trans(a: Lead, b: Lead, c: Lead)
    requires
        lead_le(a, b),
        lead_le(b, c),
    ensures
        lead_le(a, c),
{
    lemma_toll_total(a.0, b.0);
    lemma_toll_total(b.0, c.0);
    lemma_toll_total(a.0, c.0);
    if toll_le(c.0, a.0) {
        lemma_toll_trans(b.0, c.0, a.0);
        lemma_toll_trans(c.0, a.0, b.0);
        if a.0 != b.0 {
            assert(toll_le(b.0, a.0));
        }
        if b.0 != c.0 {
            assert(toll_le(c.0, b.0));
        }
    }
}

/// A set of leads has one least element at most.
pub(crate) proof fn lemma_least_unique(open: Multiset<Lead>, a: Lead, b: Lead)
    requires
        is_least(open, a),
        is_least(open, b),
    ensures
        a == b,
{
    assert(lead_le(a, b));
    assert(lead_le(b, a));
    if toll_lt(a.0, b.0) {
        lemma_toll_total(a.0, b.0);
        lemma_toll_total(b.0, a.0);
    }
}

/// Leads that are not empty have a least element.
pub(crate) proof fn lemma_least_exists(open: Multiset<Lead>) -> (e: Lead)
    requires
        open.len() > 0,
    ensures
        is_least(open, e),
    decreases open.len(),
{
    broadcast use vstd::multiset::group_multiset_axioms;

    let a = open.choose();
    let rest = open.remove(a);
    if rest.len() == 0 {
        assert forall|f: Lead| #[trigger] open.count(f) > 0 implies lead_le(a, f) by {
            if f != a {
                assert(rest.count(f) > 0);
                assert(rest.remove(f).len() == rest.len() - 1);
            }
            lemma_lead_total(a, a);
        }
        a
    } else {
        let m = lemma_least_exists(rest);
        lemma_lead_total(a, m);
        let e = if lead_le(a, m) {
            a
        } else {
            m
        };
        assert forall|f: Lead| #[trigger] open.count(f) > 0 implies lead_le(e, f) by {
            if f != a {
                assert(rest.count(f) > 0);
                if lead_le(a, m) {
                    lemma_lead_trans(a, m, f);
                }
            }
            lemma_lead_total(a, a);
        }
        e
    }
}

/// The cost of a lead is at most that of every lead that comes after it.
pub(crate) proof fn lemma_lead_cost(a: Lead, b: Lead)
    requires
        lead_le(a, b),
    ensures
        toll_le(a.0, b.0),
{
    lemma_toll_total(a.0, b.0);
}

/// An entry of the heap.
#[derive(Clone, Copy, Debug)]
pub struct Entry {
    pub cost: Cost,
    pub cell: IVec2,
}

impl View for Entry {
    type V = Lead;

    open spec fn view(&self) -> Lead {
        (self.cost@, self.cell)
    }
}

impl Entry {
    /// Whether `self` is taken no later than `other`.
    pub fn le(self, other: Entry) -> (r: bool)
        requires
            self.cost.bounded(),
            other.cost.bounded(),
        ensures
            r == lead_le(self@, other@),
    {
        self.cost.lt(other.cost) || (self.cost.ones == other.cost.ones && self.cost.roots
            == other.cost.roots && (self.cell.x < other.cell.x || (self.cell.x == other.cell.x
            && self.cell.y <= other.cell.y)))
    }
}

/// A binary min-heap of leads.
#[derive(Debug)]
pub struct Frontier {
    items: Vec<Entry>,
}

spec fn leads_of(items: Seq<Entry>) -> Seq<Lead> {
    items.map_values(|e: Entry| e@)
}

/// Every item but those at `hole` comes no earlier than its parent.
spec fn heap_but(s: Seq<Lead>, hole: int) -> bool {
    forall|j: int| 1 <= j < s.len() && j != hole ==> lead_le(s[(j - 1) / 2], #[trigger] s[j])
}

spec fn is_heap(s: Seq<Lead>) -> bool {
    forall|j: int| 1 <= j < s.len() ==> lead_le(s[(j - 1) / 2], #[trigger] s[j])
}

spec fn swapped(s: Seq<Lead>, i: int, j: int) -> Seq<Lead> {
    s.update(i, s[j]).update(j, s[i])
}

proof fn lemma_swap_keeps_items(s: Seq<Lead>, i: int, j: int)
    requires
        0 <= i < s.len(),
        0 <= j < s.len(),
        i != j,
    ensures
        swapped(s, i, j).to_multiset() == s.to_multiset(),
{
    broadcast use vstd::multiset::group_multiset_axioms;
    broadcast use vstd::seq_lib::group_to_multiset_ensures;

    vstd::seq_lib::to_multiset_update(s, i, s[j]);
    vstd::seq_lib::to_multiset_update(s.update(i, s[j]), j, s[i]);
    assert(s.contains(s[i]));
    assert(s.contains(s[j]));
    assert(swapped(s, i, j).to_multiset() =~= s.to_multiset());
}

/// The root of a heap comes before everything in it.
proof fn lemma_root_least(s: Seq<Lead>, i: int)
    requires
        is_heap(s),
        0 <= i < s.len(),
    ensures
        lead_le(s[0], s[i]),
    decreases i,
{
    if i == 0 {
        lemma_lead_total(s[0], s[0]);
    } else {
        lemma_root_least(s, (i - 1) / 2);
        assert(lead_le(s[(i - 1) / 2], s[i]));
        lemma_lead_trans(s[0], s[(i - 1) / 2], s[i]);
    }
}

impl Frontier {
    /// The leads in the heap.
    pub closed spec fn leads(&self) -> Multiset<Lead> {
        leads_of(self.items@).to_multiset()
    }

    /// The items form a heap and their costs can be compared.
    pub closed spec fn wf(&self) -> bool {
        &&& is_heap(leads_of(self.items@))
        &&& forall|i: int| 0 <= i < self.items@.len() ==> (#[trigger] self.items@[i]).cost.bounded()
    }

    /// An empty open set.
    pub fn new() -> (f: Frontier)
        ensures
            f.wf(),
            f.leads() == Multiset::<Lead>::empty(),
    {
        let f = Frontier { items: Vec::new() };
        proof {
            broadcast use vstd::seq_lib::group_to_multiset_ensures;
            broadcast use vstd::multiset::group_multiset_axioms;

            assert(leads_of(f.items@) =~= Seq::<Lead>::empty());
            assert(f.leads() =~= Multiset::<Lead>::empty()) by {
                assert forall|e: Lead| f.leads().count(e) == 0 by {
                    assert(!leads_of(f.items@).contains(e));
                }
            }
        }
        f
    }

    fn swap(&mut self, i: usize, j: usize)
        requires
            i < old(self).items@.len(),
            j < old(self).items@.len(),
            i != j,
            forall|k: int|
                0 <= k < old(self).items@.len() ==> (#[trigger] old(self).items@[k]).cost.bounded(),
        ensures
            leads_of(final(self).items@) == swapped(leads_of(old(self).items@), i as int, j as int),
            final(self).leads() == old(self).leads(),
            forall|k: int|
                0 <= k < final(self).items@.len() ==> (#[trigger] final(self).items@[k]).cost.bounded(),
    {
        let a = self.items[i];
        let b = self.items[j];
        self.items.set(i, b);
        self.items.set(j, a);
        proof {
            assert(leads_of(self.items@) =~= swapped(
                leads_of(old(self).items@),
                i as int,
                j as int,
            ));
            lemma_swap_keeps_items(leads_of(old(self).items@), i as int, j as int);
        }
    }

    /// Adds a lead.
    pub fn push(&mut self, entry: Entry)
        requires
            old(self).wf(),
            entry.cost.bounded(),
        ensures
            final(self).wf(),
            final(self).leads() == old(self).leads().insert(entry@),
    {
        self.items.push(entry);
        let ghost before = leads_of(old(self).items@);
        proof {
            broadcast use vstd::seq_lib::group_to_multiset_ensures;

            assert(leads_of(self.items@) =~= before.push(entry@));
        }
        let mut i: usize = self.items.len() - 1;
        proof {
            let s = leads_of(self.items@);
            assert forall|j: int| 1 <= j < s.len() && j != i implies lead_le(
                s[(j - 1) / 2],
                #[trigger] s[j],
            ) by {
                assert(s[j] == before[j]);
                assert(s[(j - 1) / 2] == before[(j - 1) / 2]);
            }
        }
        while i > 0
            invariant
                i < self.items@.len(),
                heap_but(leads_of(self.items@), i as int),
                forall|j: int|
                    1 <= j < self.items@.len() && (j - 1) / 2 == i && i > 0 ==> lead_le(
                        leads_of(self.items@)[(i - 1) / 2],
                        #[trigger] leads_of(self.items@)[j],
                    ),
                self.leads() == old(self).leads().insert(entry@),
                forall|k: int|
                    0 <= k < self.items@.len() ==> (#[trigger] self.items@[k]).cost.bounded(),
            decreases i,
        {
            let parent: usize = (i - 1) / 2;
            let ghost s = leads_of(self.items@);
            assert(s[parent as int] == self.items@[parent as int]@);
            assert(s[i as int] == self.items@[i as int]@);
            if self.items[parent].le(self.items[i]) {
                assert(is_heap(s));
                return ;
            }
            proof {
                lemma_lead_total(s[parent as int], s[i as int]);
            }
            self.swap(parent, i);
            proof {
                let t = leads_of(self.items@);
                assert(t == swapped(s, parent as int, i as int));
                assert forall|j: int| 1 <= j < t.len() && j != parent implies lead_le(
                    t[(j - 1) / 2],
                    #[trigger] t[j],
                ) by {
                    let p = (j - 1) / 2;
                    assert(lead_le(s[p], s[j]) || j == i);
                    if j == i {
                    } else if p == parent {
                        lemma_lead_trans(s[i as int], s[parent as int], s[j]);
                    } else if p == i {
                        assert(lead_le(s[parent as int], s[j]));
                    }
                }
                if parent > 0 {
                    let g = (parent - 1) / 2;
                    assert(lead_le(s[g], s[parent as int]));
                    assert forall|j: int| 1 <= j < t.len() && (j - 1) / 2 == parent implies lead_le(
                        t[g],
                        #[trigger] t[j],
                    ) by {
                        if j == i {
                        } else {
                            assert(lead_le(s[parent as int], s[j]));
                            lemma_lead_trans(s[g], s[parent as int], s[j]);
                        }
                    }
                }
            }
            i = parent;
        }
        assert(is_heap(leads_of(self.items@)));
    }

    /// Takes the lead that comes first.
    pub fn pop(&mut self) -> (r: Option<Entry>)
        requires
            old(self).wf(),
        ensures
            final(self).wf(),
            match r {
                None => old(self).leads() == Multiset::<Lead>::empty() && final(self).leads()
                    == old(self).leads(),
                Some(e) => is_least(old(self).leads(), e@) && e.cost.bounded() && final(self).leads() == old(self).leads().remove(e@),
            },
    {
        let ghost s0 = leads_of(self.items@);
        let n: usize = self.items.len();
        if n == 0 {
            proof {
                broadcast use vstd::seq_lib::group_to_multiset_ensures;
                broadcast use vstd::multiset::group_multiset_axioms;

                assert(self.leads() =~= Multiset::<Lead>::empty()) by {
                    assert forall|e: Lead| self.leads().count(e) == 0 by {
                        assert(!s0.contains(e));
                    }
                }
            }
            return None;
        }
        let root = self.items[0];
        proof {
            broadcast use vstd::seq_lib::group_to_multiset_ensures;

            assert(s0[0] == root@);
            assert(s0.contains(root@));
            assert forall|f: Lead| #[trigger] self.leads().count(f) > 0 implies lead_le(
                root@,
                f,
            ) by {
                assert(s0.contains(f));
                let k = s0.index_of(f);
                lemma_root_least(s0, k);
            }
        }
        let last = self.items[n - 1];
        self.items.set(0, last);
        self.items.pop();
        proof {
            broadcast use vstd::seq_lib::group_to_multiset_ensures;
            broadcast use vstd::multiset::group_multiset_axioms;

            let t = leads_of(self.items@);
            let u = s0.update(0, s0[n - 1]);
            assert(t =~= u.remove(n - 1));
            vstd::seq_lib::to_multiset_update(s0, 0, s0[n - 1]);
            assert(s0.contains(s0[n - 1]));
            assert(u[n - 1] == s0[n - 1]);
            assert(t.to_multiset() =~= s0.to_multiset().remove(root@));
        }
        let m: usize = n - 1;
        let mut i: usize = 0;
        proof {
            let t = leads_of(self.items@);
            assert forall|j: int| 1 <= j < t.len() && (j - 1) / 2 != 0 implies lead_le(
                t[(j - 1) / 2],
                #[trigger] t[j],
            ) by {
                assert(t[j] == s0[j]);
                assert(t[(j - 1) / 2] == s0[(j - 1) / 2]);
            }
        }
        while i < m / 2
            invariant
                m == self.items@.len(),
                i == 0 || i < m,
                forall|j: int|
                    1 <= j < m && (j - 1) / 2 != i ==> lead_le(
                        leads_of(self.items@)[(j - 1) / 2],
                        #[trigger] leads_of(self.items@)[j],
                    ),
                forall|j: int|
                    1 <= j < m && (j - 1) / 2 == i && i > 0 ==> lead_le(
                        leads_of(self.items@)[(i - 1) / 2],
                        #[trigger] leads_of(self.items@)[j],
                    ),
                self.leads() == old(self).leads().remove(root@),
                forall|k: int|
                    0 <= k < self.items@.len() ==> (#[trigger] self.items@[k]).cost.bounded(),
                is_least(old(self).leads(), root@),
                root.cost.bounded(),
            decreases m - i,
        {
            let left: usize = 2 * i + 1;
            let right: usize = left + 1;
            let ghost s = leads_of(self.items@);
            let mut child: usize = left;
            assert(s[left as int] == self.items@[left as int]@);
            if right < m {
                assert(s[right as int] == self.items@[right as int]@);
                if !self.items[left].le(self.items[right]) {
                    child = right;
                }
                proof {
                    lemma_lead_total(s[left as int], s[right as int]);
                }
            }
            proof {
                lemma_lead_total(s[left as int], s[left as int]);
                assert forall|j: int| 1 <= j < m && (j - 1) / 2 == i implies lead_le(
                    s[child as int],
                    #[trigger] s[j],
                ) by {
                    assert(j == left || j == right);
                    lemma_lead_total(s[j], s[j]);
                }
            }
            assert(s[child as int] == self.items@[child as int]@);
            assert(s[i as int] == self.items@[i as int]@);
            if self.items[i].le(self.items[child]) {
                proof {
                    assert forall|j: int| 1 <= j < m implies lead_le(
                        s[(j - 1) / 2],
                        #[trigger] s[j],
                    ) by {
                        if (j - 1) / 2 == i {
                            lemma_lead_trans(s[i as int], s[child as int], s[j]);
                        }
                    }
                }
                return Some(root);
            }
            proof {
                lemma_lead_total(s[i as int], s[child as int]);
            }
            self.swap(i, child);
            proof {
                let t = leads_of(self.items@);
                assert(t == swapped(s, i as int, child as int));
                assert forall|j: int| 1 <= j < m && (j - 1) / 2 != child implies lead_le(
                    t[(j - 1) / 2],
                    #[trigger] t[j],
                ) by {
                    let p = (j - 1) / 2;
                    if p == i {
                        if j != child {
                            assert(lead_le(s[child as int], s[j]));
                        }
                    } else if j == i {
                        assert(lead_le(s[(i - 1) / 2], s[child as int]));
                    } else {
                        assert(lead_le(s[p], s[j]));
                    }
                }
                assert forall|j: int| 1 <= j < m && (j - 1) / 2 == child implies lead_le(
                    t[(child - 1) / 2],
                    #[trigger] t[j],
                ) by {
                    assert(lead_le(s[child as int], s[j]));
                }
            }
            i = child;
        }
        assert(is_heap(leads_of(self.items@))) by {
            let s = leads_of(self.items@);
            assert forall|j: int| 1 <= j < m implies lead_le(s[(j - 1) / 2], #[trigger] s[j]) by {
                assert((j - 1) / 2 != i);
            }
        }
        Some(root)
    }
}

/// Leads are taken by their cost, and those of equal cost by the column: the lower `x`
/// first, then the lower `y`.
pub proof fn leads_are_taken_cheapest_first(a: Lead, b: Lead)
    ensures
        toll_lt(a.0, b.0) ==> lead_le(a, b) && !lead_le(b, a),
        a.0 == b.0 && a.1.x < b.1.x ==> lead_le(a, b) && !lead_le(b, a),
        a.0 == b.0 && a.1.x == b.1.x && a.1.y < b.1.y ==> lead_le(a, b) && !lead_le(b, a),
        lead_le(a, b) && lead_le(b, a) ==> a == b,
        lead_le(a, b) || lead_le(b, a),
{
    lemma_lead_total(a, b);
    lemma_toll_total(a.0, b.0);
    lemma_toll_total(a.0, a.0);
}

} // verus!
