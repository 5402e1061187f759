//! Tests for the solver pipeline: gravity, collision, constraint, and the
//! frame update.

use verlet_disk::fixed::SCALE;
use verlet_disk::solver::Slover;
use verlet_disk::vector::Vector2f;

const S: i64 = SCALE;

fn v(x: i64, y: i64) -> Vector2f {
    Vector2f { x, y }
}

#[test]
fn new_solver_defaults() {
    let s = Slover::new();
    assert_eq!(s.get_objects().len(), 0);
    assert_eq!(s.sub_step, 4);
    assert_eq!(s.step_dt, S);
    assert_eq!(s.gravity.x, 0);
    assert_eq!(s.gravity.y, 0);
    assert_eq!(s.constraint_center.x, 0);
    assert_eq!(s.constraint_center.y, 0);
    assert_eq!(s.constraint_radius, 100 * S);
}

#[test]
fn add_object_sets_velocity_and_appends() {
    let mut s = Slover::new();
    let r = s.add_object(v(40 * S, 30 * S), 8 * S, v(S, -S), 7);
    assert_eq!(r.position.x, 40 * S);
    assert_eq!(r.position.y, 30 * S);
    assert_eq!(r.radius, 8 * S);
    assert_eq!(r.color, 7);
    // velocity established by displacing the previous position (dt = 1)
    assert_eq!(r.position_last.x, 40 * S - S);
    assert_eq!(r.position_last.y, 30 * S + S);
    assert_eq!(s.get_objects().len(), 1);
    s.add_object(v(0, 0), S, v(0, 0), 8);
    assert_eq!(s.get_objects().len(), 2);
    assert_eq!(s.get_objects()[1].color, 8);
}

// Two overlapping equal disks are pushed symmetrically apart by one
// collision pass, and the overlap strictly shrinks.
#[test]
fn collision_pass_separates_overlapping_pair() {
    let mut s = Slover::new();
    s.add_object(v(0, 0), 10 * S, v(0, 0), 0);
    s.add_object(v(12 * S, 0), 10 * S, v(0, 0), 1);
    s.check_collisions();
    let objs = s.get_objects();
    // push = floor(0.6 * overlap * r / (r + r)) = floor(0.3 * 8 * S) = 157286
    assert_eq!(objs[0].position.x, -157286);
    assert_eq!(objs[0].position.y, 0);
    assert_eq!(objs[1].position.x, 12 * S + 157286);
    assert_eq!(objs[1].position.y, 0);
    // equal radii: exactly symmetric corrections
    let d0: i64 = objs[0].position.x - 0;
    let d1: i64 = objs[1].position.x - 12 * S;
    assert_eq!(d0, -d1);
    // the overlap shrank: 20 * S - separation went down from 8 * S
    let sep: i64 = objs[1].position.x - objs[0].position.x;
    let overlap_after: i64 = 20 * S - sep;
    assert!(overlap_after >= 0);
    assert!(overlap_after < 8 * S);
}

// Unequal radii: the larger (heavier) disk is pushed less, in proportion to
// the other's share of the combined radius.
#[test]
fn collision_pass_weights_by_radius() {
    let mut s = Slover::new();
    s.add_object(v(0, 0), 30 * S, v(0, 0), 0);
    s.add_object(v(32 * S, 0), 10 * S, v(0, 0), 1);
    s.check_collisions();
    let objs = s.get_objects();
    // overlap 8, combined radius 40; the big disk moves by
    // floor(0.6 * 8 * 10 / 40 * S) = floor(1.2 * S) = 78643,
    // the small one by floor(0.6 * 8 * 30 / 40 * S) = floor(3.6 * S) = 235929
    assert_eq!(objs[0].position.x, -78643);
    assert_eq!(objs[1].position.x, 32 * S + 235929);
    assert_eq!(objs[0].position.y, 0);
    assert_eq!(objs[1].position.y, 0);
}

#[test]
fn collision_pass_skips_disjoint_and_coincident_pairs() {
    let mut s = Slover::new();
    // far apart: untouched
    s.add_object(v(0, 0), 2 * S, v(0, 0), 0);
    s.add_object(v(50 * S, 0), 2 * S, v(0, 0), 1);
    // coincident centres: the direction is undefined, the pair is skipped
    s.add_object(v(-30 * S, 5 * S), 3 * S, v(0, 0), 2);
    s.add_object(v(-30 * S, 5 * S), 3 * S, v(0, 0), 3);
    s.check_collisions();
    let objs = s.get_objects();
    assert_eq!(objs[0].position.x, 0);
    assert_eq!(objs[1].position.x, 50 * S);
    assert_eq!(objs[2].position.x, -30 * S);
    assert_eq!(objs[2].position.y, 5 * S);
    assert_eq!(objs[3].position.x, -30 * S);
    assert_eq!(objs[3].position.y, 5 * S);
}

// A particle outside the allowed disk is clamped to exactly
// `constraint_radius - radius` from the centre, in the same direction.
#[test]
fn constraint_pass_clamps_to_boundary() {
    let mut s = Slover::new();
    s.constraint_radius = 400 * S;
    s.add_object(v(0, 500 * S), 10 * S, v(0, 0), 0);
    s.apply_constraint();
    let objs = s.get_objects();
    assert_eq!(objs[0].position.x, 0);
    assert_eq!(objs[0].position.y, 390 * S);
}

#[test]
fn constraint_pass_leaves_interior_alone() {
    let mut s = Slover::new();
    s.constraint_radius = 400 * S;
    s.add_object(v(17 * S, -23 * S), 10 * S, v(0, 0), 0);
    s.apply_constraint();
    let objs = s.get_objects();
    assert_eq!(objs[0].position.x, 17 * S);
    assert_eq!(objs[0].position.y, -23 * S);
}

// The clamp triggers only strictly beyond the allowed distance: a particle
// exactly on the allowed circle stays put.
#[test]
fn constraint_pass_leaves_boundary_particle_alone() {
    let mut s = Slover::new();
    s.constraint_radius = 400 * S;
    s.add_object(v(0, 390 * S), 10 * S, v(0, 0), 0);
    s.apply_constraint();
    let objs = s.get_objects();
    assert_eq!(objs[0].position.x, 0);
    assert_eq!(objs[0].position.y, 390 * S);
}

// A particle exactly at the constraint centre has no defined clamp
// direction; the pass leaves it in place even when its radius exceeds the
// boundary radius.
#[test]
fn constraint_pass_skips_particle_at_centre() {
    let mut s = Slover::new();
    s.constraint_radius = 5 * S;
    s.add_object(v(0, 0), 10 * S, v(0, 0), 0);
    s.apply_constraint();
    let objs = s.get_objects();
    assert_eq!(objs[0].position.x, 0);
    assert_eq!(objs[0].position.y, 0);
}

// After a frame update every particle's acceleration accumulator is zero.
#[test]
fn update_drains_acceleration() {
    let mut s = Slover::new();
    s.gravity = v(0, 655);
    s.constraint_radius = 400 * S;
    s.add_object(v(10 * S, 0), 4 * S, v(S, 0), 0);
    s.add_object(v(-10 * S, 0), 4 * S, v(0, 0), 1);
    s.update();
    for o in s.get_objects().iter() {
        assert_eq!(o.acceleration.x, 0);
        assert_eq!(o.acceleration.y, 0);
    }
}

// The end-to-end scenario: one particle falling under gravity for one frame
// of eight sub-steps, confined to a large disk.
#[test]
fn update_end_to_end_fall() {
    let mut s = Slover::new();
    s.sub_step = 8;
    s.step_dt = S / 8;
    s.gravity = v(0, 655);
    s.constraint_center = v(410 * S, 400 * S);
    s.constraint_radius = 400 * S;
    s.add_object(v(400 * S, 10 * S), 10 * S, v(0, 0), 0);
    s.update();
    let o = &s.get_objects()[0];
    // it fell
    assert!(o.position.y > 10 * S);
    // and stays strictly inside the constraint disk
    let dx: i128 = (o.position.x - 410 * S) as i128;
    let dy: i128 = (o.position.y - 400 * S) as i128;
    let allowed: i128 = (390 * S) as i128;
    assert!(dx * dx + dy * dy < allowed * allowed);
    // the configuration is untouched
    assert_eq!(s.sub_step, 8);
    assert_eq!(s.step_dt, S / 8);
}

// A frame over an empty collection is a no-op and leaves the configuration
// untouched.
#[test]
fn update_empty_is_noop() {
    let mut s = Slover::new();
    s.sub_step = 8;
    s.step_dt = S / 8;
    s.gravity = v(123, 456);
    s.constraint_center = v(7 * S, 8 * S);
    s.constraint_radius = 300 * S;
    s.update();
    assert_eq!(s.get_objects().len(), 0);
    assert_eq!(s.sub_step, 8);
    assert_eq!(s.step_dt, S / 8);
    assert_eq!(s.gravity.x, 123);
    assert_eq!(s.gravity.y, 456);
    assert_eq!(s.constraint_center.x, 7 * S);
    assert_eq!(s.constraint_center.y, 8 * S);
    assert_eq!(s.constraint_radius, 300 * S);
}

// Verlet free fall without any constraint contact: after one frame of
// eight sub-steps the fall distance is the exact triangular sum of the
// per-sub-step perturbation.
#[test]
fn update_free_fall_exact() {
    let mut s = Slover::new();
    s.sub_step = 8;
    s.step_dt = S / 8;
    s.gravity = v(0, 655);
    s.constraint_center = v(0, 0);
    s.constraint_radius = 400 * S;
    s.add_object(v(0, 0), 10 * S, v(0, 0), 0);
    s.update();
    let o = &s.get_objects()[0];
    // per sub-step the displacement grows by floor(655 * (S/8)^2 / S^2) = 10,
    // so the frame falls 10 * (1 + 2 + ... + 8) = 360
    assert_eq!(o.position.x, 0);
    assert_eq!(o.position.y, 360);
}
