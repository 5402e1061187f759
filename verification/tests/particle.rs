//! Tests for the vector arithmetic and the single-particle operations.

use verlet_disk::fixed::SCALE;
use verlet_disk::object::Cobject;
use verlet_disk::vector::Vector2f;

const S: i64 = SCALE;

#[test]
fn vector_add_sub() {
    let a = Vector2f { x: 3 * S, y: -2 * S };
    let b = Vector2f { x: S, y: 5 * S };
    let sum = a.add(b);
    assert_eq!(sum.x, 4 * S);
    assert_eq!(sum.y, 3 * S);
    let diff = a.sub(b);
    assert_eq!(diff.x, 2 * S);
    assert_eq!(diff.y, -7 * S);
}

#[test]
fn vector_scale_divide() {
    let a = Vector2f { x: 6 * S, y: -4 * S };
    // times 1.5
    let m = a.mul_fx(3 * S / 2);
    assert_eq!(m.x, 9 * S);
    assert_eq!(m.y, -6 * S);
    // divided by 2.0
    let d = a.div_fx(2 * S);
    assert_eq!(d.x, 3 * S);
    assert_eq!(d.y, -2 * S);
}

#[test]
fn vector_magnitude_three_four_five() {
    let v = Vector2f { x: 3 * S, y: 4 * S };
    assert_eq!(v.get_mod(), 5 * S);
    let w = Vector2f { x: -3 * S, y: 4 * S };
    assert_eq!(w.get_mod(), 5 * S);
}

#[test]
fn vector_unit_axis_exact() {
    let v = Vector2f { x: 0, y: 7 * S };
    let u = v.get_unit();
    assert_eq!(u.x, 0);
    assert_eq!(u.y, S);
    let w = Vector2f { x: -5 * S, y: 0 };
    let uw = w.get_unit();
    assert_eq!(uw.x, -S);
    assert_eq!(uw.y, 0);
}

#[test]
fn vector_set_zero() {
    let mut v = Vector2f { x: 123, y: -456 };
    v.set_zero();
    assert_eq!(v.x, 0);
    assert_eq!(v.y, 0);
}

#[test]
fn cobject_new_at_rest() {
    let p = Vector2f { x: 400 * S, y: 10 * S };
    let o = Cobject::new(p, 10 * S, 0xff00ffff);
    assert_eq!(o.position.x, p.x);
    assert_eq!(o.position.y, p.y);
    assert_eq!(o.position_last.x, p.x);
    assert_eq!(o.position_last.y, p.y);
    assert_eq!(o.acceleration.x, 0);
    assert_eq!(o.acceleration.y, 0);
    assert_eq!(o.radius, 10 * S);
    assert_eq!(o.color, 0xff00ffff);
}

// A particle at rest (zero acceleration, zero implicit velocity) does not
// move under one integration step.
#[test]
fn integrate_at_rest_keeps_position() {
    let p = Vector2f { x: 123 * S, y: -45 * S };
    let mut o = Cobject::new(p, 2 * S, 0);
    o.update(S);
    assert_eq!(o.position.x, p.x);
    assert_eq!(o.position.y, p.y);
    assert_eq!(o.acceleration.x, 0);
    assert_eq!(o.acceleration.y, 0);
}

// Setting a velocity and reading it straight back returns it exactly when
// the fixed-point products are exact (here dt is exactly one second).
#[test]
fn velocity_round_trip() {
    let p = Vector2f { x: 50 * S, y: 60 * S };
    let mut o = Cobject::new(p, S, 0);
    let v = Vector2f { x: 3 * S, y: -2 * S };
    o.set_velocity(&v, S);
    let back = o.get_velocity(S);
    assert_eq!(back.x, v.x);
    assert_eq!(back.y, v.y);
    // the particle itself has not moved
    assert_eq!(o.position.x, p.x);
    assert_eq!(o.position.y, p.y);
}

#[test]
fn add_velocity_superimposes() {
    let p = Vector2f { x: 0, y: 0 };
    let mut o = Cobject::new(p, S, 0);
    o.set_velocity(&Vector2f { x: 2 * S, y: S }, S);
    o.add_velocity(&Vector2f { x: -S, y: 3 * S }, S);
    let v = o.get_velocity(S);
    assert_eq!(v.x, S);
    assert_eq!(v.y, 4 * S);
}

#[test]
fn accelerate_accumulates() {
    let mut o = Cobject::new(Vector2f { x: 0, y: 0 }, S, 0);
    o.accelerate(&Vector2f { x: 10, y: 20 });
    o.accelerate(&Vector2f { x: 1, y: 2 });
    assert_eq!(o.acceleration.x, 11);
    assert_eq!(o.acceleration.y, 22);
}

// One integration step folds the accumulated acceleration into the position
// as a perturbation scaled by dt squared, and drains the accumulator.
#[test]
fn integrate_applies_acceleration() {
    let mut o = Cobject::new(Vector2f { x: 0, y: 0 }, S, 0);
    o.accelerate(&Vector2f { x: 0, y: 64 });
    // dt = 1/8 second: the perturbation is 64 * (S/8)^2 / S^2 = 1
    o.update(S / 8);
    assert_eq!(o.position.x, 0);
    assert_eq!(o.position.y, 1);
    assert_eq!(o.position_last.x, 0);
    assert_eq!(o.position_last.y, 0);
    assert_eq!(o.acceleration.x, 0);
    assert_eq!(o.acceleration.y, 0);
    // the displacement persists: the next step moves it again
    o.update(S / 8);
    assert_eq!(o.position.y, 2);
}
