//! Moving along a route, and the effects of walking.

use std::collections::VecDeque;

use vstd::prelude::*;

use crate::grid::IVec2;
use crate::ieee::Single;

verus! {

/// A standing point of a route, in world space.
#[derive(Clone, Copy, Debug, PartialEq, Eq, Structural)]
pub struct Waypoint {
    pub x: Single,
    pub y: Single,
    pub z: Single,
}

/// A queue of waypoints, consumed front to back. Empty is idle.
#[derive(Debug)]
pub struct MovePath {
    pub waypoints: VecDeque<Waypoint>,
}

/// What drives the body this step.
#[derive(Clone, Copy, Debug, PartialEq, Eq, Structural)]
pub enum Steer {
    /// No horizontal intent.
    Idle,
    /// Full speed at a waypoint.
    Toward(Waypoint),
}

/// How many of the flags are set before the first that is not.
pub open spec fn leading(reached: Seq<bool>) -> nat
    decreases reached.len(),
{
    if reached.len() == 0 || !reached[0] {
        0
    } else {
        1 + leading(reached.skip(1))
    }
}

proof fn lemma_leading(reached: Seq<bool>, k: int)
    requires
        0 <= k <= reached.len(),
        forall|i: int| 0 <= i < k ==> #[trigger] reached[i],
        k == reached.len() || !reached[k],
    ensures
        leading(reached) == k,
    decreases k,
{
    if k > 0 {
        let rest = reached.skip(1);
        assert forall|i: int| 0 <= i < k - 1 implies #[trigger] rest[i] by {
            assert(reached[i + 1]);
        }
        if k < reached.len() {
            assert(rest[k - 1] == reached[k]);
        }
        lemma_leading(rest, k - 1);
    }
}

/// Pops every waypoint at the front that is already reached and steers at the
/// next one; `reached` tells of each waypoint of the queue, front first, whether
/// it lies within the arrival radius. On arrival, or with nothing to follow, the
/// destination marker goes.
pub fn follow_path(path: &mut MovePath, target: &mut Option<IVec2>, reached: &[bool]) -> (s: Steer)
    requires
        reached@.len() == old(path).waypoints@.len(),
    ensures
        final(path).waypoints@ == old(path).waypoints@.skip(leading(reached@) as int),
        s == (if leading(reached@) < old(path).waypoints@.len() {
            Steer::Toward(old(path).waypoints@[leading(reached@) as int])
        } else {
            Steer::Idle
        }),
        *final(target) == (if leading(reached@) < old(path).waypoints@.len() {
            *old(target)
        } else {
            None
        }),
        s is Idle <==> final(path).waypoints@.len() == 0,
        s matches Steer::Toward(w) ==> w == final(path).waypoints@[0],
        *final(target) is Some ==> *final(target) == *old(target) && s is Toward,
{
    let mut k: usize = 0;
    let ghost all = path.waypoints@;
    assert(all.skip(0) =~= all);
    while k < reached.len() && reached[k]
        invariant
            k <= reached@.len(),
            reached@.len() == all.len(),
            path.waypoints@ == all.skip(k as int),
            forall|i: int| 0 <= i < k ==> #[trigger] reached@[i],
        decreases reached@.len() - k,
    {
        path.waypoints.pop_front();
        k += 1;
        assert(path.waypoints@ =~= all.skip(k as int));
    }
    proof {
        lemma_leading(reached@, k as int);
    }
    if path.waypoints.len() == 0 {
        *target = None;
        return Steer::Idle;
    }
    Steer::Toward(path.waypoints[0])
}

/// Direct control takes over: the route and its marker are dropped. Without it,
/// both stay.
pub fn apply_direct_move(path: &mut MovePath, target: &mut Option<IVec2>, active: bool)
    ensures
        final(path).waypoints@ == (if active {
            Seq::<Waypoint>::empty()
        } else {
            old(path).waypoints@
        }),
        *final(target) == (if active {
            None
        } else {
            *old(target)
        }),
{
    if active {
        path.waypoints = VecDeque::new();
        *target = None;
    }
}

/// The effects of a frame of walking.
#[derive(Clone, Copy, Debug, PartialEq, Eq, Structural)]
pub struct WalkEffects {
    /// A dust burst and a footstep: the hop landed.
    pub landing: bool,
    /// A trailing dirt puff.
    pub puff: bool,
}

/// The hop lands when its phase passes a whole number; puffs come at a steady
/// cadence. Standing still has neither.
pub fn walk_effects(moving: bool, hop_before: i64, hop_after: i64, puff_due: bool) -> (e:
    WalkEffects)
    ensures
        e.landing == (moving && hop_after > hop_before),
        e.puff == (moving && puff_due),
{
    WalkEffects { landing: moving && hop_after > hop_before, puff: moving && puff_due }
}

/// The waypoints that are popped are those at the front that are all reached, and no
/// more: the first that is not reached stays.
pub proof fn only_reached_waypoints_are_popped(reached: Seq<bool>)
    ensures
        leading(reached) <= reached.len(),
        forall|i: int| 0 <= i < leading(reached) ==> #[trigger] reached[i],
        leading(reached) < reached.len() ==> !reached[leading(reached) as int],
    decreases reached.len(),
{
    if reached.len() > 0 && reached[0] {
        let rest = reached.skip(1);
        only_reached_waypoints_are_popped(rest);
        assert forall|i: int| 0 <= i < leading(reached) implies #[trigger] reached[i] by {
            if i > 0 {
                assert(rest[i - 1]);
            }
        }
        if leading(reached) < reached.len() {
            assert(rest[leading(rest) as int] == reached[leading(reached) as int]);
        }
    }
}

} // verus!
