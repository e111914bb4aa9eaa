use inf3d::gameplay::{apply_direct_move, follow_path, walk_effects, MovePath, Steer, Waypoint};
use inf3d::grid::IVec2;
use inf3d::ieee::Single;
use inf3d::pathfinding::ground::SurfaceOracle;
use inf3d::physics::{footprint_surface, resolve_ground, Footprint, GroundStep};
use std::collections::VecDeque;

const PLAYER_RADIUS: f32 = 0.4;
const PLAYER_HALF_HEIGHT: f32 = 0.6;
const GRAVITY: f32 = 24.0;
const STEP_HEIGHT: f32 = 1.1;
const GROUND_SNAP_DISTANCE: f32 = 0.5;
const GROUND_FOLLOW_RATE: f32 = 14.0;

/// Capsule centre to feet.
const FOOT_OFFSET: f32 = PLAYER_HALF_HEIGHT + PLAYER_RADIUS;
const DT: f32 = 1.0 / 64.0;

fn single(v: f32) -> Single {
    Single(v.to_bits())
}

fn number(v: Single) -> f32 {
    f32::from_bits(v.0)
}

fn resolve(
    feet_y: f32,
    center_y: f32,
    support: f32,
    foot_offset: f32,
    velocity: f32,
    dt: f32,
) -> (f32, bool, f32) {
    let rest = support + foot_offset;
    let k = 1.0 - (-GROUND_FOLLOW_RATE * dt).exp();
    let fall_velocity = velocity - GRAVITY * dt;
    let (y, grounded, vv) = resolve_ground(GroundStep {
        velocity: single(velocity),
        support: single(support),
        step_limit: single(feet_y + STEP_HEIGHT),
        snap_limit: single(feet_y - GROUND_SNAP_DISTANCE),
        rest: single(rest),
        eased: single(center_y + (rest - center_y) * k),
        fallen: single(center_y + fall_velocity * dt),
        fall_velocity: single(fall_velocity),
    });
    (number(y), grounded, number(vv))
}

/// A height field given by a function of the column.
struct Field(fn(i32, i32) -> i32);

impl SurfaceOracle for Field {
    fn height(&self, cell: IVec2) -> i32 {
        self.surface_y(cell.x, cell.y)
    }
    fn land(&self, cell: IVec2) -> bool {
        self.is_land(cell.x, cell.y)
    }
    fn surface_y(&self, x: i32, z: i32) -> i32 {
        (self.0)(x, z)
    }
    fn is_land(&self, _x: i32, _z: i32) -> bool {
        true
    }
}

fn surface_under(x: f32, z: f32, radius: f32, max_climb_y: f32, field: fn(i32, i32) -> i32) -> f32 {
    let f = Footprint {
        x_min: (x - radius).floor() as i32,
        x_max: (x + radius).floor() as i32,
        z_min: (z - radius).floor() as i32,
        z_max: (z + radius).floor() as i32,
        center_x: x.floor() as i32,
        center_z: z.floor() as i32,
    };
    let ceiling = if max_climb_y == f32::INFINITY {
        None
    } else {
        Some(max_climb_y.floor() as i64)
    };
    footprint_surface(&Field(field), f, ceiling) as f32
}

fn resting_on(surface: f32) -> (f32, f32) {
    let center = surface + FOOT_OFFSET;
    (center - FOOT_OFFSET, center)
}

#[test]
fn step_up_one_voxel_accepted() {
    let (feet, center) = resting_on(0.0);
    let surface = 1.0;
    let (new_y, grounded, vv) = resolve(feet, center, surface, FOOT_OFFSET, 0.0, DT);
    assert!(grounded, "a 1-voxel step must keep the player grounded");
    assert_eq!(vv, 0.0, "grounded resolution zeroes vertical velocity");
    let target = surface + FOOT_OFFSET;
    assert!(new_y > center, "should rise toward the step");
    assert!(new_y < target, "rise eases (does not snap) in one step");
}

#[test]
fn footprint_excludes_unclimbable_wall() {
    let ceiling = 6.0 + STEP_HEIGHT;
    let s = surface_under(0.7, 0.5, PLAYER_RADIUS, ceiling, |cx, _cz| if cx >= 1 { 10 } else { 5 });
    assert_eq!(
        s, 6.0,
        "an unclimbable wall in the footprint is excluded; support is the ground"
    );
}

#[test]
fn falling_player_lands_on_climbable_support() {
    let surface = 1.0;
    let min_y = surface + FOOT_OFFSET;
    let center = min_y - 0.5;
    let feet = center - FOOT_OFFSET;
    assert!(surface <= feet + STEP_HEIGHT && surface >= feet - GROUND_SNAP_DISTANCE);
    let (new_y, grounded, vv) = resolve(feet, center, surface, FOOT_OFFSET, -4.0, DT);
    assert!(
        grounded,
        "a falling player must land on climbable support, not fall through"
    );
    assert_eq!(new_y, min_y, "the centre is seated exactly on the support");
    assert_eq!(vv, 0.0, "landing zeroes the vertical velocity");
}

#[test]
fn ledge_goes_airborne_and_falls() {
    let (feet, center) = resting_on(5.0);
    let surface = 0.0;
    let (new_y, grounded, vv) = resolve(feet, center, surface, FOOT_OFFSET, 0.0, DT);
    assert!(!grounded, "stepping off a ledge must go airborne");
    assert!(vv < 0.0, "gravity must pull the velocity negative");
    assert!(new_y < center, "the player must start descending");
}

#[test]
fn snap_down_within_distance_stays_grounded() {
    let (feet, center) = resting_on(2.0);
    let surface = 2.0 - (GROUND_SNAP_DISTANCE * 0.5);
    let (new_y, grounded, vv) = resolve(feet, center, surface, FOOT_OFFSET, 0.0, DT);
    assert!(grounded, "a drop within snap distance stays grounded");
    assert_eq!(vv, 0.0, "snapped resolution zeroes vertical velocity");
    assert!(new_y < center, "the feet ease down onto the lower surface");
    assert!(
        new_y > surface + FOOT_OFFSET,
        "the descent eases (does not snap) in one step"
    );
}

#[test]
fn footprint_picks_up_taller_adjacent_cell_when_centred() {
    let s = surface_under(0.7, 0.5, PLAYER_RADIUS, f32::INFINITY, |cx, _cz| {
        if cx >= 1 {
            6
        } else {
            5
        }
    });
    assert_eq!(
        s, 7.0,
        "footprint must rest on the taller adjacent cell's top face (6+1)"
    );
}

#[test]
fn footprint_uniform_terrain_is_flat_top_face() {
    let s = surface_under(10.5, -3.5, PLAYER_RADIUS, f32::INFINITY, |_cx, _cz| 5);
    assert_eq!(s, 6.0, "uniform terrain yields surface_y + 1");
}

#[test]
fn footprint_picks_up_taller_diagonal_cell() {
    let s = surface_under(0.7, 0.7, PLAYER_RADIUS, f32::INFINITY, |cx, cz| {
        if cx >= 1 && cz >= 1 {
            6
        } else {
            5
        }
    });
    assert_eq!(s, 7.0, "diagonal corner of the footprint must be sampled");
}

#[test]
fn gravity_clamp_never_sinks_below_surface() {
    let surface = 0.0;
    let min_y = surface + FOOT_OFFSET;
    let center = min_y + 0.01;
    let feet = center - FOOT_OFFSET;
    let (new_y, grounded, vv) = resolve(feet, center, surface, FOOT_OFFSET, -50.0, DT);
    assert_eq!(new_y, min_y, "the centre is clamped exactly onto the surface");
    assert!(grounded, "landing re-grounds the player");
    assert_eq!(vv, 0.0, "landing zeroes the vertical velocity");
    assert!(
        new_y - FOOT_OFFSET >= surface - 1e-6,
        "the feet never sink below the support surface"
    );
}

#[test]
fn footprint_boxed_in_falls_back_to_the_centre() {
    let s = surface_under(0.5, 0.5, PLAYER_RADIUS, 3.0, |_cx, _cz| 10);
    assert_eq!(s, 11.0);
}

#[test]
fn footprint_reaches_the_edge_of_the_world() {
    let f = Footprint {
        x_min: i32::MAX - 1,
        x_max: i32::MAX,
        z_min: i32::MAX,
        z_max: i32::MAX,
        center_x: i32::MAX,
        center_z: i32::MAX,
    };
    let s = footprint_surface(&Field(|x, _z| if x == i32::MAX { 9 } else { 4 }), f, None);
    assert_eq!(s, 10);
}

fn at(x: f32) -> Waypoint {
    Waypoint { x: single(x), y: single(0.0), z: single(0.0) }
}

#[test]
fn following_a_path_pops_what_is_reached() {
    let mut path = MovePath { waypoints: VecDeque::from(vec![at(1.0), at(2.0), at(3.0)]) };
    let mut target = Some(IVec2::new(3, 0));
    let s = follow_path(&mut path, &mut target, &[true, false, true]);
    assert_eq!(s, Steer::Toward(at(2.0)));
    assert_eq!((path.waypoints.len(), target), (2, Some(IVec2::new(3, 0))));
    let s = follow_path(&mut path, &mut target, &[true, true]);
    assert_eq!((s, path.waypoints.len(), target), (Steer::Idle, 0, None));
}

#[test]
fn direct_control_drops_the_route() {
    let mut path = MovePath { waypoints: VecDeque::from(vec![at(1.0)]) };
    let mut target = Some(IVec2::new(3, 0));
    apply_direct_move(&mut path, &mut target, false);
    assert_eq!((path.waypoints.len(), target), (1, Some(IVec2::new(3, 0))));
    apply_direct_move(&mut path, &mut target, true);
    assert_eq!((path.waypoints.len(), target), (0, None));
}

#[test]
fn hops_land_on_whole_phases() {
    let e = walk_effects(true, 3, 4, false);
    assert!(e.landing && !e.puff);
    let e = walk_effects(false, 3, 4, true);
    assert!(!e.landing && !e.puff);
}
