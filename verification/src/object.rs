//! One simulated disk: its state, its integer model, and the Verlet
//! integration step together with the velocity accessors.

use crate::fixed::{
    div_trunc, iabs, lemma_tdiv_exact, lemma_tdiv_le, mul_i128, tdiv, SCALE, SCALE_SQ,
};
use crate::vector::{
    lemma_vscale_bound, vadd, vdiv, vscale, vsub, vzero, Vec2i, Vector2f,
};
use vstd::arithmetic::div_mod::{lemma_div_multiples_vanish, lemma_mod_multiples_basic};
use vstd::arithmetic::mul::{lemma_mul_basics, lemma_mul_is_commutative};
use vstd::prelude::*;

verus! {

/// Bound on a particle's position components between frames.
pub const POS_LIMIT: i64 = 0x8_0000_0000_0000;

/// Bound on a particle's previous-position components between frames.
pub const PREV_LIMIT: i64 = 0x4_0000_0000_0000;

/// Bound the acceleration accumulator keeps between frames.
pub const ACC_LIMIT: i64 = 0x4000_0000;

/// Cap up to which `accelerate` accepts accumulating.
pub const ACC_CAP: i64 = 0x8000_0000;

/// Bound on a particle's radius.
pub const RADIUS_LIMIT: i64 = 0x400_0000;

/// Bound on the sub-step time delta.
pub const DT_LIMIT: i64 = 0x4_0000;

/// Bound on velocity components accepted by the velocity setters.
pub const VEL_LIMIT: i64 = 0x100_0000_0000;

/// The mathematical state of one particle.
pub struct ObjState {
    pub position: Vec2i,
    pub position_last: Vec2i,
    pub acceleration: Vec2i,
    pub radius: int,
    pub color: u32,
}

/// A freshly constructed particle: at rest at `p`, with a drained
/// acceleration accumulator.
pub open spec fn construct_m(p: Vec2i, radius: int, color: u32) -> ObjState {
    ObjState { position: p, position_last: p, acceleration: vzero(), radius, color }
}

/// Accumulating an acceleration.
pub open spec fn accelerate_m(o: ObjState, a: Vec2i) -> ObjState {
    ObjState { acceleration: vadd(o.acceleration, a), ..o }
}

/// Establishing velocity `v` over `dt` by displacing the previous position.
pub open spec fn set_velocity_m(o: ObjState, v: Vec2i, dt: int) -> ObjState {
    ObjState { position_last: vsub(o.position, vscale(v, dt)), ..o }
}

/// Superimposing velocity `v` over `dt` onto the implicit velocity.
pub open spec fn add_velocity_m(o: ObjState, v: Vec2i, dt: int) -> ObjState {
    ObjState { position_last: vsub(o.position_last, vscale(v, dt)), ..o }
}

/// The implicit velocity, `(position - position_last) / dt`.
pub open spec fn get_velocity_m(o: ObjState, dt: int) -> Vec2i {
    vdiv(vsub(o.position, o.position_last), dt)
}

/// The positional perturbation `a * dt^2` of one integration step.
pub open spec fn accel_term(a: Vec2i, dt: int) -> Vec2i {
    Vec2i { x: tdiv(a.x * dt * dt, SCALE_SQ as int), y: tdiv(a.y * dt * dt, SCALE_SQ as int) }
}

/// One Störmer–Verlet step: advance the position by the displacement since
/// the previous sub-step plus `a * dt^2`, remember the old position, and
/// drain the acceleration accumulator.
pub open spec fn integrate_m(o: ObjState, dt: int) -> ObjState {
    let disp = vsub(o.position, o.position_last);
    ObjState {
        position: vadd(vadd(o.position, disp), accel_term(o.acceleration, dt)),
        position_last: o.position,
        acceleration: vzero(),
        ..o
    }
}

/// The resting-state bounds a particle keeps between frames.
pub open spec fn obj_wf(o: ObjState) -> bool {
    &&& iabs(o.position.x) <= POS_LIMIT as int
    &&& iabs(o.position.y) <= POS_LIMIT as int
    &&& iabs(o.position_last.x) <= PREV_LIMIT as int
    &&& iabs(o.position_last.y) <= PREV_LIMIT as int
    &&& iabs(o.acceleration.x) <= ACC_LIMIT as int
    &&& iabs(o.acceleration.y) <= ACC_LIMIT as int
    &&& 1 <= o.radius <= RADIUS_LIMIT as int
}

/// One simulated disk.
#[derive(Clone, Copy)]
pub struct Cobject {
    /// Current position.
    pub position: Vector2f,
    /// Position at the prior sub-step; with `position` it encodes the
    /// implicit velocity.
    pub position_last: Vector2f,
    /// Accumulated acceleration for the current sub-step.
    pub acceleration: Vector2f,
    /// The disk's radius, fixed at construction.
    pub radius: i64,
    /// An opaque display tag for the host's renderer; the physics never
    /// reads it.
    pub color: u32,
}

impl View for Cobject {
    type V = ObjState;

    open spec fn view(&self) -> ObjState {
        ObjState {
            position: self.position@,
            position_last: self.position_last@,
            acceleration: self.acceleration@,
            radius: self.radius as int,
            color: self.color,
        }
    }
}

impl Cobject {
    /// The resting-state bounds, on the exec representation.
    pub open spec fn wf(self) -> bool {
        obj_wf(self@)
    }

    /// A particle at rest at `position`.
    pub fn new(position: Vector2f, radius: i64, color: u32) -> (r: Cobject)
        ensures
            r@ == construct_m(position@, radius as int, color),
    {
        let acceleration = Vector2f { x: 0, y: 0 };
        Cobject { position, position_last: position, acceleration, radius, color }
    }

    /// Accumulate `a` into the acceleration accumulator.
    pub fn accelerate(&mut self, a: &Vector2f)
        requires
            iabs(old(self)@.acceleration.x + a@.x) <= ACC_CAP as int,
            iabs(old(self)@.acceleration.y + a@.y) <= ACC_CAP as int,
        ensures
            final(self)@ == accelerate_m(old(self)@, a@),
    {
        self.acceleration = self.acceleration.add(*a);
    }

    /// Establish velocity `v` over `dt`, without moving the particle.
    pub fn set_velocity(&mut self, v: &Vector2f, dt: i64)
        requires
            1 <= dt <= DT_LIMIT as int,
            iabs(v@.x) <= VEL_LIMIT as int,
            iabs(v@.y) <= VEL_LIMIT as int,
            iabs(old(self)@.position.x) <= POS_LIMIT as int,
            iabs(old(self)@.position.y) <= POS_LIMIT as int,
        ensures
            final(self)@ == set_velocity_m(old(self)@, v@, dt as int),
    {
        proof {
            lemma_scaled_velocity_bound(v@, dt as int);
        }
        let d = v.mul_fx(dt);
        self.position_last = self.position.sub(d);
    }

    /// Superimpose velocity `v` over `dt` onto the implicit velocity.
    pub fn add_velocity(&mut self, v: &Vector2f, dt: i64)
        requires
            1 <= dt <= DT_LIMIT as int,
            iabs(v@.x) <= VEL_LIMIT as int,
            iabs(v@.y) <= VEL_LIMIT as int,
            iabs(old(self)@.position_last.x) <= POS_LIMIT as int,
            iabs(old(self)@.position_last.y) <= POS_LIMIT as int,
        ensures
            final(self)@ == add_velocity_m(old(self)@, v@, dt as int),
    {
        proof {
            lemma_scaled_velocity_bound(v@, dt as int);
        }
        let d = v.mul_fx(dt);
        self.position_last = self.position_last.sub(d);
    }

    /// The implicit velocity, read off without changing any state.
    pub fn get_velocity(&self, dt: i64) -> (r: Vector2f)
        requires
            1 <= dt,
            iabs(self@.position.x - self@.position_last.x) <= 0x4000_0000_0000,
            iabs(self@.position.y - self@.position_last.y) <= 0x4000_0000_0000,
        ensures
            r@ == get_velocity_m(self@, dt as int),
    {
        let disp = self.position.sub(self.position_last);
        disp.div_fx(dt)
    }

    /// One Störmer–Verlet integration step over `dt`.
    pub fn update(&mut self, dt: i64)
        requires
            1 <= dt <= DT_LIMIT as int,
            iabs(old(self)@.position.x) <= 0x100_0000_0000_0000,
            iabs(old(self)@.position.y) <= 0x100_0000_0000_0000,
            iabs(old(self)@.position_last.x) <= 0x100_0000_0000_0000,
            iabs(old(self)@.position_last.y) <= 0x100_0000_0000_0000,
            iabs(old(self)@.acceleration.x) <= ACC_CAP as int,
            iabs(old(self)@.acceleration.y) <= ACC_CAP as int,
        ensures
            final(self)@ == integrate_m(old(self)@, dt as int),
    {
        proof {
            lemma_accel_term_bound(old(self)@.acceleration, dt as int);
        }
        let disp = self.position.sub(self.position_last);
        proof {
            let ax = old(self)@.acceleration.x;
            let ay = old(self)@.acceleration.y;
            assert(iabs(ax) * iabs(dt as int) <= 0x2_0000_0000_0000
                && iabs(ay) * iabs(dt as int) <= 0x2_0000_0000_0000
                && 0x2_0000_0000_0000 * iabs(dt as int) <= 0x8_0000_0000_0000_0000) by (nonlinear_arith)
                requires
                    1 <= dt as int <= 0x4_0000,
                    iabs(ax) <= 0x8000_0000,
                    iabs(ay) <= 0x8000_0000,
            ;
        }
        let t1x = mul_i128(self.acceleration.x as i128, dt as i128);
        let t1y = mul_i128(self.acceleration.y as i128, dt as i128);
        proof {
            assert(iabs(t1x as int) * iabs(dt as int) <= 0x2_0000_0000_0000 * iabs(dt as int)
                && iabs(t1y as int) * iabs(dt as int) <= 0x2_0000_0000_0000 * iabs(dt as int)) by (nonlinear_arith)
                requires
                    1 <= dt as int,
                    iabs(t1x as int) <= 0x2_0000_0000_0000,
                    iabs(t1y as int) <= 0x2_0000_0000_0000,
            ;
        }
        let tx = div_trunc(mul_i128(t1x, dt as i128), SCALE_SQ as i128);
        let ty = div_trunc(mul_i128(t1y, dt as i128), SCALE_SQ as i128);
        let at = Vector2f { x: tx as i64, y: ty as i64 };
        let newpos = self.position.add(disp).add(at);
        self.position_last = self.position;
        self.position = newpos;
        self.acceleration.set_zero();
    }
}

/// The scaled velocity displacement `v * dt / SCALE` is small whenever `v`
/// and `dt` are within the setters' envelopes.
pub proof fn lemma_scaled_velocity_bound(v: Vec2i, dt: int)
    requires
        1 <= dt <= DT_LIMIT as int,
        iabs(v.x) <= VEL_LIMIT as int,
        iabs(v.y) <= VEL_LIMIT as int,
    ensures
        iabs(vscale(v, dt).x) <= 0x400_0000_0000,
        iabs(vscale(v, dt).y) <= 0x400_0000_0000,
{
    assert(iabs(v.x * dt) <= (SCALE as int) * 0x400_0000_0000
        && iabs(v.y * dt) <= (SCALE as int) * 0x400_0000_0000) by (nonlinear_arith)
        requires
            1 <= dt <= 0x4_0000,
            iabs(v.x) <= 0x100_0000_0000,
            iabs(v.y) <= 0x100_0000_0000,
    ;
    lemma_vscale_bound(v, dt, 0x400_0000_0000);
}

/// The positional perturbation `a * dt^2` is small whenever the accumulator
/// and `dt` are within the solver's envelopes.
pub proof fn lemma_accel_term_bound(a: Vec2i, dt: int)
    requires
        1 <= dt <= DT_LIMIT as int,
        iabs(a.x) <= ACC_CAP as int,
        iabs(a.y) <= ACC_CAP as int,
    ensures
        iabs(accel_term(a, dt).x) <= 0x8_0000_0000,
        iabs(accel_term(a, dt).y) <= 0x8_0000_0000,
{
    assert(iabs(a.x * dt * dt) <= (SCALE_SQ as int) * 0x8_0000_0000
        && iabs(a.y * dt * dt) <= (SCALE_SQ as int) * 0x8_0000_0000) by (nonlinear_arith)
        requires
            1 <= dt <= 0x4_0000,
            iabs(a.x) <= 0x8000_0000,
            iabs(a.y) <= 0x8000_0000,
    ;
    lemma_tdiv_le(a.x * dt * dt, SCALE_SQ as int, 0x8_0000_0000);
    lemma_tdiv_le(a.y * dt * dt, SCALE_SQ as int, 0x8_0000_0000);
}

/// With no accumulated acceleration and no implicit velocity, one
/// integration step leaves the position unchanged.
pub proof fn lemma_integrate_at_rest(o: ObjState, dt: int)
    requires
        o.acceleration == vzero(),
        o.position_last == o.position,
    ensures
        integrate_m(o, dt).position == o.position,
{
    lemma_mul_basics(dt);
    assert(0 * dt == 0) by (nonlinear_arith);
    assert(accel_term(o.acceleration, dt).x == tdiv(0, SCALE_SQ as int));
    assert(tdiv(0, SCALE_SQ as int) == 0) by {
        vstd::arithmetic::div_mod::lemma_div_of0(SCALE_SQ as int);
    }
}

/// Setting a velocity and reading it straight back returns it exactly,
/// whenever the two fixed-point divisions involved are exact.
pub proof fn lemma_velocity_round_trip(o: ObjState, v: Vec2i, dt: int)
    requires
        1 <= dt,
        (v.x * dt) % (SCALE as int) == 0,
        (v.y * dt) % (SCALE as int) == 0,
    ensures
        get_velocity_m(set_velocity_m(o, v, dt), dt) == v,
{
    lemma_velocity_round_trip_comp(v.x, dt);
    lemma_velocity_round_trip_comp(v.y, dt);
}

/// One component of the velocity round trip.
proof fn lemma_velocity_round_trip_comp(c: int, dt: int)
    requires
        1 <= dt,
        (c * dt) % (SCALE as int) == 0,
    ensures
        tdiv(tdiv(c * dt, SCALE as int) * (SCALE as int), dt) == c,
{
    let s: int = SCALE as int;
    let e = tdiv(c * dt, s);
    lemma_tdiv_exact(c * dt, s);
    assert(e * s == c * dt);
    lemma_mod_multiples_basic(c, dt);
    assert((c * dt) % dt == 0);
    lemma_tdiv_exact(e * s, dt);
    assert(tdiv(e * s, dt) == (c * dt) / dt);
    lemma_mul_is_commutative(c, dt);
    lemma_div_multiples_vanish(c, dt);
}

} // verus!
