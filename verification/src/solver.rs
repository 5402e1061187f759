//! The particle solver: the particle collection, its configuration, and the
//! four-phase per-frame update pipeline (gravity, collisions, circular
//! constraint, integration), each phase specified exactly by an integer
//! model.

use crate::fixed::{
    div_trunc, iabs, lemma_floor_sqrt_square, lemma_tdiv_le, lemma_tdiv_sign, mul_i128, tdiv,
    SCALE,
};
use crate::object::{
    accelerate_m, construct_m, integrate_m, lemma_accel_term_bound, lemma_scaled_velocity_bound,
    obj_wf, set_velocity_m, Cobject, ObjState, ACC_CAP, ACC_LIMIT, DT_LIMIT, RADIUS_LIMIT,
    VEL_LIMIT,
};
use crate::vector::{
    lemma_comp_le_vmag, lemma_vmag_zero, lemma_vunit_bounds, norm2, vadd, vmag, vneg, vsub,
    vunit, vzero, Vec2i, Vector2f,
};
use vstd::arithmetic::div_mod::{
    lemma_div_multiples_vanish, lemma_div_of0, lemma_div_pos_is_pos, lemma_fundamental_div_mod,
    lemma_mod_bound,
};
use vstd::arithmetic::mul::lemma_mul_is_commutative;
use vstd::prelude::*;
use vstd::std_specs::vec::vec_index_mut;

verus! {

/// Bound on the number of particles the solver accepts.
pub const COUNT_LIMIT: usize = 4096;

/// Bound on the gravity components.
pub const GRAVITY_LIMIT: i64 = 0x400_0000;

/// Bound on the constraint-centre components.
pub const CENTER_LIMIT: i64 = 0x4000_0000;

/// Bound on the constraint radius.
pub const CONSTRAINT_LIMIT: i64 = 0x4000_0000;

/// Bound on spawn positions accepted by `add_object`.
pub const SPAWN_LIMIT: i64 = 0x2_0000_0000_0000;

/// Bound every particle position obeys right after the constraint phase.
pub const CLAMP_BOUND: i64 = 0x1_0000_0000;

/// The integer model of a particle sequence.
pub open spec fn seq_model(s: Seq<Cobject>) -> Seq<ObjState> {
    s.map_values(|o: Cobject| o@)
}

/// Gravity phase: every particle accumulates the gravity acceleration.
pub open spec fn gravity_all_m(s: Seq<ObjState>, g: Vec2i) -> Seq<ObjState> {
    s.map_values(|o: ObjState| accelerate_m(o, g))
}

/// The collision response for one ordered pair. Overlapping disks are pushed
/// apart along the unit direction between their centres, each in proportion
/// to the other's radius, by three fifths of the overlap in total (the
/// response coefficient 1.2 halved for the pair). Coincident centres
/// (distance zero) are skipped: the direction is undefined there.
pub open spec fn collide_pair_m(a: ObjState, b: ObjState) -> (ObjState, ObjState) {
    let v = vsub(a.position, b.position);
    let dist = vmag(v);
    let min_dist = a.radius + b.radius;
    if 0 < dist && dist < min_dist {
        let u = vunit(v);
        let overlap = min_dist - dist;
        let push1 = tdiv(3 * overlap * a.radius, 5 * min_dist);
        let push2 = tdiv(3 * overlap * b.radius, 5 * min_dist);
        let c1 = Vec2i { x: tdiv(u.x * push2, SCALE as int), y: tdiv(u.y * push2, SCALE as int) };
        let c2 = Vec2i { x: tdiv(u.x * push1, SCALE as int), y: tdiv(u.y * push1, SCALE as int) };
        (
            ObjState { position: vadd(a.position, c1), ..a },
            ObjState { position: vsub(b.position, c2), ..b },
        )
    } else {
        (a, b)
    }
}

/// Resolve the pair `(i, j)` within the sequence.
pub open spec fn apply_pair_m(s: Seq<ObjState>, i: int, j: int) -> Seq<ObjState> {
    let p = collide_pair_m(s[i], s[j]);
    s.update(i, p.0).update(j, p.1)
}

/// Resolve every pair from `(i, j)` onward, in ascending index order.
pub open spec fn collide_from_m(s: Seq<ObjState>, i: int, j: int) -> Seq<ObjState>
    decreases s.len() - i, s.len() - j,
{
    if !(0 <= i && i < j) {
        s
    } else if i + 1 >= s.len() {
        s
    } else if j >= s.len() {
        collide_from_m(s, i + 1, i + 2)
    } else {
        collide_from_m(apply_pair_m(s, i, j), i, j + 1)
    }
}

/// Collision phase: one pass over all unordered pairs, ascending.
pub open spec fn collide_all_m(s: Seq<ObjState>) -> Seq<ObjState> {
    collide_from_m(s, 0, 1)
}

/// Clamp one particle into the constraint disk: a particle whose centre lies
/// farther from `c` than `cr` minus its radius is pulled back onto that
/// circle, along the direction toward `c`. A particle exactly at the centre
/// is left in place: the direction is undefined there.
pub open spec fn constrain_m(o: ObjState, c: Vec2i, cr: int) -> ObjState {
    let v = vsub(c, o.position);
    let dist = vmag(v);
    let allowed = cr - o.radius;
    if dist > allowed && dist > 0 {
        let u = vunit(v);
        let back = Vec2i {
            x: tdiv(u.x * allowed, SCALE as int),
            y: tdiv(u.y * allowed, SCALE as int),
        };
        ObjState { position: vsub(c, back), ..o }
    } else {
        o
    }
}

/// Constraint phase: every particle is clamped into the disk.
pub open spec fn constrain_all_m(s: Seq<ObjState>, c: Vec2i, cr: int) -> Seq<ObjState> {
    s.map_values(|o: ObjState| constrain_m(o, c, cr))
}

/// Integration phase: every particle takes one Verlet step.
pub open spec fn integrate_all_m(s: Seq<ObjState>, dt: int) -> Seq<ObjState> {
    s.map_values(|o: ObjState| integrate_m(o, dt))
}

/// One sub-step: gravity, collisions, constraint, integration, each phase
/// applied to the whole collection before the next begins.
pub open spec fn substep_m(s: Seq<ObjState>, g: Vec2i, dt: int, c: Vec2i, cr: int) -> Seq<ObjState> {
    integrate_all_m(constrain_all_m(collide_all_m(gravity_all_m(s, g)), c, cr), dt)
}

/// `k` sub-steps in sequence.
pub open spec fn run_steps_m(
    s: Seq<ObjState>,
    g: Vec2i,
    dt: int,
    c: Vec2i,
    cr: int,
    k: nat,
) -> Seq<ObjState>
    decreases k,
{
    if k == 0 {
        s
    } else {
        run_steps_m(substep_m(s, g, dt, c, cr), g, dt, c, cr, (k - 1) as nat)
    }
}

/// The model of a push commutes with taking the model.
proof fn lemma_seq_model_push(s: Seq<Cobject>, o: Cobject)
    ensures
        seq_model(s.push(o)) == seq_model(s).push(o@),
{
    assert(seq_model(s.push(o)) =~= seq_model(s).push(o@));
}

/// The running position bound during a collision pass, after the pairs up
/// to `(i, j)` have been resolved.
pub open spec fn coll_bound(i: int, j: int, n: int) -> int {
    0x80_0000_0000_0000 + (i * n + j) * 0x1000_0000
}

/// The running collision bound never leaves the range the pair arithmetic
/// needs, and grows by one correction allowance per pair.
proof fn lemma_coll_bound_step(i: int, j: int, n: int)
    requires
        0 <= i < n,
        i + 1 <= j <= n,
        n <= 4096,
    ensures
        coll_bound(i, j + 1, n) == coll_bound(i, j, n) + 0x1000_0000,
        coll_bound(i, j, n) <= 0x100_0000_0000_0000 - 0x1000_0000,
{
    assert((i * n + (j + 1)) * 0x1000_0000 == (i * n + j) * 0x1000_0000 + 0x1000_0000
        && 0 <= (i * n + j) * 0x1000_0000
        && (i * n + j) * 0x1000_0000 <= 0x20_0000_0000_0000) by (nonlinear_arith)
        requires
            0 <= i < n,
            i + 1 <= j <= n,
            n <= 4096,
    ;
}

/// Stepping the collision pass to the next row only loosens the bound.
proof fn lemma_coll_bound_row(i: int, n: int)
    requires
        0 <= i,
        i + 1 < n,
        n <= 4096,
    ensures
        coll_bound(i, n, n) <= coll_bound(i + 1, i + 2, n),
{
    assert((i * n + n) * 0x1000_0000 <= ((i + 1) * n + (i + 2)) * 0x1000_0000) by (nonlinear_arith)
        requires
            0 <= i,
            i + 1 < n,
            n <= 4096,
    ;
}

/// The particle solver: the particle collection plus global configuration.
pub struct Slover {
    /// The particles, in insertion order.
    pub objects: Vec<Cobject>,
    /// Number of sub-steps per `update` call.
    pub sub_step: u32,
    /// Fixed-point time delta of one sub-step.
    pub step_dt: i64,
    /// Fixed-point gravity acceleration.
    pub gravity: Vector2f,
    /// Centre of the circular constraint.
    pub constraint_center: Vector2f,
    /// Radius of the circular constraint.
    pub constraint_radius: i64,
}

impl Slover {
    /// The configuration envelope within which the pipeline is verified.
    pub open spec fn config_wf(self) -> bool {
        &&& 1 <= self.step_dt <= DT_LIMIT
        &&& iabs(self.gravity@.x) <= GRAVITY_LIMIT as int
        &&& iabs(self.gravity@.y) <= GRAVITY_LIMIT as int
        &&& iabs(self.constraint_center@.x) <= CENTER_LIMIT as int
        &&& iabs(self.constraint_center@.y) <= CENTER_LIMIT as int
        &&& 1 <= self.constraint_radius <= CONSTRAINT_LIMIT
    }

    /// Configuration and every particle inside the verified envelope.
    pub open spec fn wf(self) -> bool {
        &&& self.config_wf()
        &&& self.objects@.len() <= COUNT_LIMIT
        &&& forall|i: int|
            0 <= i < self.objects@.len() ==> obj_wf((#[trigger] self.objects@[i])@)
    }

    /// A solver with the default configuration and no particles.
    pub fn new() -> (s: Slover)
        ensures
            s.objects@.len() == 0,
            s.sub_step == 4u32,
            s.step_dt as int == SCALE as int,
            s.gravity@ == vzero(),
            s.constraint_center@ == vzero(),
            s.constraint_radius as int == 100 * (SCALE as int),
            s.wf(),
    {
        Slover {
            objects: Vec::new(),
            sub_step: 4,
            step_dt: SCALE,
            gravity: Vector2f { x: 0, y: 0 },
            constraint_center: Vector2f { x: 0, y: 0 },
            constraint_radius: 100 * SCALE,
        }
    }

    /// Construct a particle at `position` with the given radius and colour
    /// tag, give it `velocity` over one sub-step, and append it.
    pub fn add_object(
        &mut self,
        position: Vector2f,
        radius: i64,
        velocity: Vector2f,
        color: u32,
    ) -> (r: &Cobject)
        requires
            old(self).wf(),
            old(self).objects@.len() < COUNT_LIMIT,
            iabs(position@.x) <= SPAWN_LIMIT as int,
            iabs(position@.y) <= SPAWN_LIMIT as int,
            1 <= radius <= RADIUS_LIMIT as int,
            iabs(velocity@.x) <= VEL_LIMIT as int,
            iabs(velocity@.y) <= VEL_LIMIT as int,
        ensures
            final(self).wf(),
            seq_model(final(self).objects@) == seq_model(old(self).objects@).push(
                set_velocity_m(
                    construct_m(position@, radius as int, color),
                    velocity@,
                    old(self).step_dt as int,
                ),
            ),
            final(self).objects@.len() == old(self).objects@.len() + 1,
            final(self).sub_step == old(self).sub_step,
            final(self).step_dt == old(self).step_dt,
            final(self).gravity == old(self).gravity,
            final(self).constraint_center == old(self).constraint_center,
            final(self).constraint_radius == old(self).constraint_radius,
            r@ == set_velocity_m(
                construct_m(position@, radius as int, color),
                velocity@,
                old(self).step_dt as int,
            ),
    {
        let mut obj = Cobject::new(position, radius, color);
        obj.set_velocity(&velocity, self.step_dt);
        proof {
            lemma_scaled_velocity_bound(velocity@, self.step_dt as int);
            lemma_seq_model_push(self.objects@, obj);
        }
        self.objects.push(obj);
        let n = self.objects.len();
        &self.objects[n - 1]
    }

    /// The particle collection, in insertion order.
    pub fn get_objects(&self) -> (r: &Vec<Cobject>)
        ensures
            r@ == self.objects@,
    {
        &self.objects
    }

    /// Gravity phase: accumulate the configured gravity into every particle.
    pub fn apply_gravity(&mut self)
        requires
            iabs(old(self).gravity@.x) <= GRAVITY_LIMIT as int,
            iabs(old(self).gravity@.y) <= GRAVITY_LIMIT as int,
            forall|i: int|
                0 <= i < old(self).objects@.len() ==> {
                    let o = (#[trigger] old(self).objects@[i])@;
                    iabs(o.acceleration.x) <= ACC_LIMIT as int
                        && iabs(o.acceleration.y) <= ACC_LIMIT as int
                },
        ensures
            seq_model(final(self).objects@) == gravity_all_m(
                seq_model(old(self).objects@),
                old(self).gravity@,
            ),
            final(self).objects@.len() == old(self).objects@.len(),
            final(self).sub_step == old(self).sub_step,
            final(self).step_dt == old(self).step_dt,
            final(self).gravity == old(self).gravity,
            final(self).constraint_center == old(self).constraint_center,
            final(self).constraint_radius == old(self).constraint_radius,
    {
        let g = self.gravity;
        let n = self.objects.len();
        let mut i: usize = 0;
        while i < n
            invariant
                i <= n,
                n == self.objects@.len(),
                g == old(self).gravity,
                iabs(g@.x) <= GRAVITY_LIMIT as int,
                iabs(g@.y) <= GRAVITY_LIMIT as int,
                self.sub_step == old(self).sub_step,
                self.step_dt == old(self).step_dt,
                self.gravity == old(self).gravity,
                self.constraint_center == old(self).constraint_center,
                self.constraint_radius == old(self).constraint_radius,
                forall|k: int|
                    i <= k < n ==> #[trigger] self.objects@[k] == old(self).objects@[k],
                forall|k: int|
                    0 <= k < n ==> {
                        let o = (#[trigger] old(self).objects@[k])@;
                        iabs(o.acceleration.x) <= ACC_LIMIT as int
                            && iabs(o.acceleration.y) <= ACC_LIMIT as int
                    },
                forall|k: int|
                    0 <= k < i ==> (#[trigger] self.objects@[k])@ == accelerate_m(
                        old(self).objects@[k]@,
                        g@,
                    ),
            decreases n - i,
        {
            let obj = vec_index_mut(&mut self.objects, i);
            obj.accelerate(&g);
            i = i + 1;
        }
        proof {
            assert(seq_model(self.objects@) =~= gravity_all_m(
                seq_model(old(self).objects@),
                old(self).gravity@,
            ));
        }
    }

    /// Collision phase: one pass over all unordered pairs in ascending index
    /// order, resolving each overlap. Ties are broken by ascending index;
    /// this iteration order is the definition of determinism.
    #[verifier::rlimit(100)]
    pub fn check_collisions(&mut self)
        requires
            old(self).objects@.len() <= COUNT_LIMIT,
            forall|i: int|
                0 <= i < old(self).objects@.len() ==> {
                    let o = (#[trigger] old(self).objects@[i])@;
                    &&& iabs(o.position.x) <= 0x80_0000_0000_0000
                    &&& iabs(o.position.y) <= 0x80_0000_0000_0000
                    &&& 1 <= o.radius <= RADIUS_LIMIT as int
                },
        ensures
            seq_model(final(self).objects@) == collide_all_m(seq_model(old(self).objects@)),
            final(self).objects@.len() == old(self).objects@.len(),
            forall|i: int|
                0 <= i < final(self).objects@.len() ==> {
                    let o = (#[trigger] final(self).objects@[i])@;
                    let p = old(self).objects@[i]@;
                    &&& iabs(o.position.x) <= 0x100_0000_0000_0000
                    &&& iabs(o.position.y) <= 0x100_0000_0000_0000
                    &&& o.position_last == p.position_last
                    &&& o.acceleration == p.acceleration
                    &&& o.radius == p.radius
                    &&& o.color == p.color
                },
            final(self).sub_step == old(self).sub_step,
            final(self).step_dt == old(self).step_dt,
            final(self).gravity == old(self).gravity,
            final(self).constraint_center == old(self).constraint_center,
            final(self).constraint_radius == old(self).constraint_radius,
    {
        let ghost m0 = seq_model(old(self).objects@);
        let n = self.objects.len();
        if n == 0 {
            proof {
                assert(collide_all_m(m0) == m0);
            }
            return;
        }
        let mut i: usize = 0;
        while i < n - 1
            invariant
                n == self.objects@.len(),
                1 <= n <= COUNT_LIMIT,
                i <= n - 1,
                self.sub_step == old(self).sub_step,
                self.step_dt == old(self).step_dt,
                self.gravity == old(self).gravity,
                self.constraint_center == old(self).constraint_center,
                self.constraint_radius == old(self).constraint_radius,
                m0 == seq_model(old(self).objects@),
                collide_from_m(seq_model(self.objects@), i as int, i as int + 1)
                    == collide_all_m(m0),
                forall|k: int|
                    0 <= k < n ==> {
                        let o = (#[trigger] self.objects@[k])@;
                        let p = old(self).objects@[k]@;
                        &&& iabs(o.position.x) <= coll_bound(i as int, i as int + 1, n as int)
                        &&& iabs(o.position.y) <= coll_bound(i as int, i as int + 1, n as int)
                        &&& o.position_last == p.position_last
                        &&& o.acceleration == p.acceleration
                        &&& o.radius == p.radius
                        &&& o.color == p.color
                        &&& 1 <= o.radius <= RADIUS_LIMIT as int
                    },
            decreases n - i,
        {
            let mut j: usize = i + 1;
            while j < n
                invariant
                    n == self.objects@.len(),
                    1 <= n <= COUNT_LIMIT,
                    i < n - 1,
                    i + 1 <= j <= n,
                    self.sub_step == old(self).sub_step,
                    self.step_dt == old(self).step_dt,
                    self.gravity == old(self).gravity,
                    self.constraint_center == old(self).constraint_center,
                    self.constraint_radius == old(self).constraint_radius,
                    m0 == seq_model(old(self).objects@),
                    collide_from_m(seq_model(self.objects@), i as int, j as int)
                        == collide_all_m(m0),
                    forall|k: int|
                        0 <= k < n ==> {
                            let o = (#[trigger] self.objects@[k])@;
                            let p = old(self).objects@[k]@;
                            &&& iabs(o.position.x) <= coll_bound(i as int, j as int, n as int)
                            &&& iabs(o.position.y) <= coll_bound(i as int, j as int, n as int)
                            &&& o.position_last == p.position_last
                            &&& o.acceleration == p.acceleration
                            &&& o.radius == p.radius
                            &&& o.color == p.color
                            &&& 1 <= o.radius <= RADIUS_LIMIT as int
                        },
                decreases n - j,
            {
                proof {
                    lemma_coll_bound_step(i as int, j as int, n as int);
                }
                let ghost vpre = self.objects@;
                let ghost mpre = seq_model(vpre);
                let o1 = self.objects[i];
                let o2 = self.objects[j];
                let v = o1.position.sub(o2.position);
                let dist = v.get_mod();
                let min_dist = o1.radius + o2.radius;
                if dist > 0 && dist < min_dist {
                    let u = v.get_unit();
                    let overlap = min_dist - dist;
                    let denom = 5 * (min_dist as i128);
                    proof {
                        let ov = overlap as int;
                        let r1 = o1.radius as int;
                        let r2 = o2.radius as int;
                        let md = min_dist as int;
                        assert(iabs(3 * ov * r1) <= (5 * md) * ov
                            && iabs(3 * ov * r2) <= (5 * md) * ov
                            && iabs(3 * ov * r1) <= 0x4000_0000_0000_0000
                            && iabs(3 * ov * r2) <= 0x4000_0000_0000_0000) by (nonlinear_arith)
                            requires
                                1 <= r1 <= 0x400_0000,
                                1 <= r2 <= 0x400_0000,
                                0 < ov <= md,
                                md == r1 + r2,
                        ;
                        lemma_tdiv_le(3 * ov * r1, 5 * md, ov);
                        lemma_tdiv_le(3 * ov * r2, 5 * md, ov);
                    }
                    let push1 = div_trunc(mul_i128(3 * (overlap as i128), o1.radius as i128), denom);
                    let push2 = div_trunc(mul_i128(3 * (overlap as i128), o2.radius as i128), denom);
                    proof {
                        let p1i = push1 as int;
                        let p2i = push2 as int;
                        assert(iabs(u@.x * p2i) <= (SCALE as int) * iabs(p2i)
                            && iabs(u@.y * p2i) <= (SCALE as int) * iabs(p2i)
                            && iabs(u@.x * p1i) <= (SCALE as int) * iabs(p1i)
                            && iabs(u@.y * p1i) <= (SCALE as int) * iabs(p1i)) by (nonlinear_arith)
                            requires
                                iabs(u@.x) <= SCALE as int,
                                iabs(u@.y) <= SCALE as int,
                        ;
                        lemma_tdiv_le(u@.x * p2i, SCALE as int, iabs(p2i));
                        lemma_tdiv_le(u@.y * p2i, SCALE as int, iabs(p2i));
                        lemma_tdiv_le(u@.x * p1i, SCALE as int, iabs(p1i));
                        lemma_tdiv_le(u@.y * p1i, SCALE as int, iabs(p1i));
                    }
                    let cx1 = div_trunc(mul_i128(u.x as i128, push2), SCALE as i128);
                    let cy1 = div_trunc(mul_i128(u.y as i128, push2), SCALE as i128);
                    let cx2 = div_trunc(mul_i128(u.x as i128, push1), SCALE as i128);
                    let cy2 = div_trunc(mul_i128(u.y as i128, push1), SCALE as i128);
                    let p1 = Vector2f {
                        x: o1.position.x + cx1 as i64,
                        y: o1.position.y + cy1 as i64,
                    };
                    let p2 = Vector2f {
                        x: o2.position.x - cx2 as i64,
                        y: o2.position.y - cy2 as i64,
                    };
                    let obj1 = vec_index_mut(&mut self.objects, i);
                    obj1.position = p1;
                    let obj2 = vec_index_mut(&mut self.objects, j);
                    obj2.position = p2;
                    proof {
                        let ii = i as int;
                        let jj = j as int;
                        let a = mpre[ii];
                        let b = mpre[jj];
                        let pr = collide_pair_m(a, b);
                        assert(a == o1@ && b == o2@);
                        assert(v@ == vsub(a.position, b.position));
                        assert(dist as int == vmag(vsub(a.position, b.position)));
                        assert(u@ == vunit(vsub(a.position, b.position)));
                        assert(self.objects@[ii]@ == pr.0);
                        assert(self.objects@[jj]@ == pr.1);
                        assert(seq_model(self.objects@) =~= mpre.update(ii, pr.0).update(jj, pr.1));
                        assert(apply_pair_m(mpre, ii, jj) == mpre.update(ii, pr.0).update(jj, pr.1));
                        assert(collide_from_m(mpre, ii, jj) == collide_from_m(
                            apply_pair_m(mpre, ii, jj),
                            ii,
                            jj + 1,
                        ));
                    }
                } else {
                    proof {
                        let ii = i as int;
                        let jj = j as int;
                        let a = mpre[ii];
                        let b = mpre[jj];
                        assert(a == o1@ && b == o2@);
                        assert(dist as int == vmag(vsub(a.position, b.position)));
                        assert(collide_pair_m(a, b) == (a, b));
                        assert(apply_pair_m(mpre, ii, jj) =~= mpre);
                        assert(collide_from_m(mpre, ii, jj) == collide_from_m(
                            apply_pair_m(mpre, ii, jj),
                            ii,
                            jj + 1,
                        ));
                        assert(collide_from_m(mpre, ii, jj) == collide_from_m(mpre, ii, jj + 1));
                    }
                }
                j = j + 1;
            }
            proof {
                lemma_coll_bound_row(i as int, n as int);
                assert(collide_from_m(seq_model(self.objects@), i as int, n as int)
                    == collide_from_m(seq_model(self.objects@), i as int + 1, i as int + 2));
            }
            i = i + 1;
        }
        proof {
            lemma_coll_bound_step(n as int - 1, n as int, n as int);
            assert(collide_from_m(seq_model(self.objects@), n as int - 1, n as int)
                == seq_model(self.objects@));
        }
    }

    /// Constraint phase: clamp every particle into the circular boundary.
    pub fn apply_constraint(&mut self)
        requires
            iabs(old(self).constraint_center@.x) <= CENTER_LIMIT as int,
            iabs(old(self).constraint_center@.y) <= CENTER_LIMIT as int,
            1 <= old(self).constraint_radius <= CONSTRAINT_LIMIT,
            forall|i: int|
                0 <= i < old(self).objects@.len() ==> {
                    let o = (#[trigger] old(self).objects@[i])@;
                    &&& iabs(o.position.x) <= 0x100_0000_0000_0000
                    &&& iabs(o.position.y) <= 0x100_0000_0000_0000
                    &&& 1 <= o.radius <= RADIUS_LIMIT as int
                },
        ensures
            seq_model(final(self).objects@) == constrain_all_m(
                seq_model(old(self).objects@),
                old(self).constraint_center@,
                old(self).constraint_radius as int,
            ),
            final(self).objects@.len() == old(self).objects@.len(),
            forall|i: int|
                0 <= i < final(self).objects@.len() ==> {
                    let o = (#[trigger] final(self).objects@[i])@;
                    iabs(o.position.x) <= CLAMP_BOUND as int
                        && iabs(o.position.y) <= CLAMP_BOUND as int
                },
            final(self).sub_step == old(self).sub_step,
            final(self).step_dt == old(self).step_dt,
            final(self).gravity == old(self).gravity,
            final(self).constraint_center == old(self).constraint_center,
            final(self).constraint_radius == old(self).constraint_radius,
    {
        let c = self.constraint_center;
        let cr = self.constraint_radius;
        let n = self.objects.len();
        let mut i: usize = 0;
        while i < n
            invariant
                i <= n,
                n == self.objects@.len(),
                c == old(self).constraint_center,
                cr == old(self).constraint_radius,
                iabs(c@.x) <= CENTER_LIMIT as int,
                iabs(c@.y) <= CENTER_LIMIT as int,
                1 <= cr <= CONSTRAINT_LIMIT,
                self.sub_step == old(self).sub_step,
                self.step_dt == old(self).step_dt,
                self.gravity == old(self).gravity,
                self.constraint_center == old(self).constraint_center,
                self.constraint_radius == old(self).constraint_radius,
                forall|k: int|
                    i <= k < n ==> #[trigger] self.objects@[k] == old(self).objects@[k],
                forall|k: int|
                    0 <= k < n ==> {
                        let o = (#[trigger] old(self).objects@[k])@;
                        &&& iabs(o.position.x) <= 0x100_0000_0000_0000
                        &&& iabs(o.position.y) <= 0x100_0000_0000_0000
                        &&& 1 <= o.radius <= RADIUS_LIMIT as int
                    },
                forall|k: int|
                    0 <= k < i ==> {
                        let o = (#[trigger] self.objects@[k])@;
                        &&& o == constrain_m(
                            old(self).objects@[k]@,
                            c@,
                            cr as int,
                        )
                        &&& iabs(o.position.x) <= CLAMP_BOUND as int
                        &&& iabs(o.position.y) <= CLAMP_BOUND as int
                    },
            decreases n - i,
        {
            let o = self.objects[i];
            let v = c.sub(o.position);
            let dist = v.get_mod();
            let allowed = cr - o.radius;
            if dist > allowed && dist > 0 {
                let u = v.get_unit();
                proof {
                    let al = allowed as int;
                    assert(iabs(u@.x * al) <= (SCALE as int) * iabs(al)
                        && iabs(u@.y * al) <= (SCALE as int) * iabs(al)) by (nonlinear_arith)
                        requires
                            iabs(u@.x) <= SCALE as int,
                            iabs(u@.y) <= SCALE as int,
                    ;
                    lemma_tdiv_le(u@.x * al, SCALE as int, iabs(al));
                    lemma_tdiv_le(u@.y * al, SCALE as int, iabs(al));
                }
                let bx = div_trunc(mul_i128(u.x as i128, allowed as i128), SCALE as i128);
                let by = div_trunc(mul_i128(u.y as i128, allowed as i128), SCALE as i128);
                let newpos = Vector2f { x: c.x - bx as i64, y: c.y - by as i64 };
                let obj = vec_index_mut(&mut self.objects, i);
                obj.position = newpos;
            } else {
                proof {
                    if dist == 0 {
                        lemma_vmag_zero(v@);
                    } else {
                        lemma_comp_le_vmag(v@);
                    }
                }
            }
            i = i + 1;
        }
        proof {
            assert(seq_model(self.objects@) =~= constrain_all_m(
                seq_model(old(self).objects@),
                old(self).constraint_center@,
                old(self).constraint_radius as int,
            ));
        }
    }

    /// Advance the simulation by one frame: run the four-phase pipeline —
    /// gravity, collisions, constraint, integration — `sub_step` times.
    /// The configuration is left untouched, and every particle ends the
    /// frame with a drained acceleration accumulator.
    pub fn update(&mut self)
        requires
            old(self).wf(),
        ensures
            final(self).wf(),
            seq_model(final(self).objects@) == run_steps_m(
                seq_model(old(self).objects@),
                old(self).gravity@,
                old(self).step_dt as int,
                old(self).constraint_center@,
                old(self).constraint_radius as int,
                old(self).sub_step as nat,
            ),
            final(self).objects@.len() == old(self).objects@.len(),
            final(self).sub_step == old(self).sub_step,
            final(self).step_dt == old(self).step_dt,
            final(self).gravity == old(self).gravity,
            final(self).constraint_center == old(self).constraint_center,
            final(self).constraint_radius == old(self).constraint_radius,
            old(self).sub_step >= 1 ==> forall|i: int|
                0 <= i < final(self).objects@.len()
                    ==> (#[trigger] final(self).objects@[i])@.acceleration == vzero(),
    {
        let ghost g = old(self).gravity@;
        let ghost dtg = old(self).step_dt as int;
        let ghost cc = old(self).constraint_center@;
        let ghost crg = old(self).constraint_radius as int;
        let ghost m_init = seq_model(old(self).objects@);
        let ghost total = old(self).sub_step as nat;
        let steps = self.sub_step;
        let mut k: u32 = 0;
        while k < steps
            invariant
                k <= steps,
                steps == old(self).sub_step,
                g == old(self).gravity@,
                dtg == old(self).step_dt as int,
                cc == old(self).constraint_center@,
                crg == old(self).constraint_radius as int,
                m_init == seq_model(old(self).objects@),
                total == old(self).sub_step as nat,
                self.sub_step == old(self).sub_step,
                self.step_dt == old(self).step_dt,
                self.gravity == old(self).gravity,
                self.constraint_center == old(self).constraint_center,
                self.constraint_radius == old(self).constraint_radius,
                self.objects@.len() == old(self).objects@.len(),
                self.wf(),
                run_steps_m(seq_model(self.objects@), g, dtg, cc, crg, (steps - k) as nat)
                    == run_steps_m(m_init, g, dtg, cc, crg, total),
                k >= 1 ==> forall|i: int|
                    0 <= i < self.objects@.len() ==> (#[trigger] self.objects@[i])@.acceleration
                        == vzero(),
            decreases steps - k,
        {
            let ghost ma = seq_model(self.objects@);
            self.apply_gravity();
            let ghost m1 = seq_model(self.objects@);
            proof {
                assert forall|q: int| 0 <= q < self.objects@.len() implies {
                    let o = (#[trigger] self.objects@[q])@;
                    &&& iabs(o.position.x) <= 0x80_0000_0000_0000
                    &&& iabs(o.position.y) <= 0x80_0000_0000_0000
                    &&& 1 <= o.radius <= RADIUS_LIMIT as int
                } by {
                    assert(m1[q] == accelerate_m(ma[q], g));
                    assert(obj_wf(ma[q]));
                }
            }
            self.check_collisions();
            let ghost m2 = seq_model(self.objects@);
            proof {
                assert(m2 == collide_all_m(m1));
                assert forall|q: int| 0 <= q < self.objects@.len() implies {
                    let o = (#[trigger] self.objects@[q])@;
                    &&& iabs(o.position.x) <= 0x100_0000_0000_0000
                    &&& iabs(o.position.y) <= 0x100_0000_0000_0000
                    &&& 1 <= o.radius <= RADIUS_LIMIT as int
                } by {
                    assert(m1[q] == accelerate_m(ma[q], g));
                    assert(obj_wf(ma[q]));
                }
            }
            self.apply_constraint();
            let ghost m3 = seq_model(self.objects@);
            proof {
                assert(m3 == constrain_all_m(m2, cc, crg));
                assert forall|q: int| 0 <= q < self.objects@.len() implies {
                    let o = (#[trigger] self.objects@[q])@;
                    &&& iabs(o.position.x) <= 0x100_0000_0000_0000
                    &&& iabs(o.position.y) <= 0x100_0000_0000_0000
                    &&& iabs(o.position_last.x) <= 0x100_0000_0000_0000
                    &&& iabs(o.position_last.y) <= 0x100_0000_0000_0000
                    &&& iabs(o.acceleration.x) <= ACC_CAP as int
                    &&& iabs(o.acceleration.y) <= ACC_CAP as int
                } by {
                    assert(m3[q] == constrain_m(m2[q], cc, crg));
                    assert(m1[q] == accelerate_m(ma[q], g));
                    assert(obj_wf(ma[q]));
                }
            }
            self.update_objects();
            proof {
                let m4 = seq_model(self.objects@);
                assert(m4 == integrate_all_m(m3, dtg));
                assert(m1 == gravity_all_m(ma, g));
                assert(m4 == substep_m(ma, g, dtg, cc, crg));
                let rem = (steps - k) as nat;
                assert(run_steps_m(ma, g, dtg, cc, crg, rem) == run_steps_m(
                    substep_m(ma, g, dtg, cc, crg),
                    g,
                    dtg,
                    cc,
                    crg,
                    (rem - 1) as nat,
                ));
                assert forall|q: int| 0 <= q < self.objects@.len() implies obj_wf(
                    (#[trigger] self.objects@[q])@,
                ) && (#[trigger] self.objects@[q])@.acceleration == vzero() by {
                    assert(m4[q] == integrate_m(m3[q], dtg));
                    assert(m3[q] == constrain_m(m2[q], cc, crg));
                    assert(m1[q] == accelerate_m(ma[q], g));
                    assert(obj_wf(ma[q]));
                    lemma_accel_term_bound(m3[q].acceleration, dtg);
                }
            }
            k = k + 1;
        }
    }

    /// Integration phase: every particle takes one Verlet step over the
    /// configured sub-step delta.
    pub fn update_objects(&mut self)
        requires
            1 <= old(self).step_dt <= DT_LIMIT,
            forall|i: int|
                0 <= i < old(self).objects@.len() ==> {
                    let o = (#[trigger] old(self).objects@[i])@;
                    &&& iabs(o.position.x) <= 0x100_0000_0000_0000
                    &&& iabs(o.position.y) <= 0x100_0000_0000_0000
                    &&& iabs(o.position_last.x) <= 0x100_0000_0000_0000
                    &&& iabs(o.position_last.y) <= 0x100_0000_0000_0000
                    &&& iabs(o.acceleration.x) <= ACC_CAP as int
                    &&& iabs(o.acceleration.y) <= ACC_CAP as int
                },
        ensures
            seq_model(final(self).objects@) == integrate_all_m(
                seq_model(old(self).objects@),
                old(self).step_dt as int,
            ),
            final(self).objects@.len() == old(self).objects@.len(),
            final(self).sub_step == old(self).sub_step,
            final(self).step_dt == old(self).step_dt,
            final(self).gravity == old(self).gravity,
            final(self).constraint_center == old(self).constraint_center,
            final(self).constraint_radius == old(self).constraint_radius,
    {
        let dt = self.step_dt;
        let n = self.objects.len();
        let mut i: usize = 0;
        while i < n
            invariant
                i <= n,
                n == self.objects@.len(),
                dt == old(self).step_dt,
                1 <= dt <= DT_LIMIT,
                self.sub_step == old(self).sub_step,
                self.step_dt == old(self).step_dt,
                self.gravity == old(self).gravity,
                self.constraint_center == old(self).constraint_center,
                self.constraint_radius == old(self).constraint_radius,
                forall|k: int|
                    i <= k < n ==> #[trigger] self.objects@[k] == old(self).objects@[k],
                forall|k: int|
                    0 <= k < n ==> {
                        let o = (#[trigger] old(self).objects@[k])@;
                        &&& iabs(o.position.x) <= 0x100_0000_0000_0000
                        &&& iabs(o.position.y) <= 0x100_0000_0000_0000
                        &&& iabs(o.position_last.x) <= 0x100_0000_0000_0000
                        &&& iabs(o.position_last.y) <= 0x100_0000_0000_0000
                        &&& iabs(o.acceleration.x) <= ACC_CAP as int
                        &&& iabs(o.acceleration.y) <= ACC_CAP as int
                    },
                forall|k: int|
                    0 <= k < i ==> (#[trigger] self.objects@[k])@ == integrate_m(
                        old(self).objects@[k]@,
                        dt as int,
                    ),
            decreases n - i,
        {
            let obj = vec_index_mut(&mut self.objects, i);
            obj.update(dt);
            i = i + 1;
        }
        proof {
            assert(seq_model(self.objects@) =~= integrate_all_m(
                seq_model(old(self).objects@),
                old(self).step_dt as int,
            ));
        }
    }
}

/// A frame over an empty particle collection is a no-op: any number of
/// sub-steps maps the empty sequence to itself.
pub proof fn lemma_run_steps_empty(g: Vec2i, dt: int, c: Vec2i, cr: int, k: nat)
    ensures
        run_steps_m(Seq::<ObjState>::empty(), g, dt, c, cr, k) == Seq::<ObjState>::empty(),
    decreases k,
{
    let e = Seq::<ObjState>::empty();
    if k == 0 {
    } else {
        assert(gravity_all_m(e, g) =~= e);
        assert(collide_all_m(e) == e);
        assert(constrain_all_m(e, c, cr) =~= e);
        assert(integrate_all_m(e, dt) =~= e);
        assert(substep_m(e, g, dt, c, cr) == e);
        lemma_run_steps_empty(g, dt, c, cr, (k - 1) as nat);
    }
}

/// Equal-radius particles receive exactly symmetric position corrections:
/// whatever one gains, the other loses, component for component.
pub proof fn lemma_collision_symmetric(a: ObjState, b: ObjState)
    requires
        a.radius == b.radius,
    ensures
        vsub(collide_pair_m(a, b).0.position, a.position) == vneg(
            vsub(collide_pair_m(a, b).1.position, b.position),
        ),
{
}

/// The constraint clamp is exact for an axis-aligned offset: a particle
/// straight below the centre and outside the allowed disk ends exactly at
/// distance `cr - radius` from the centre, in the same direction it was.
pub proof fn lemma_constraint_clamp_axis(o: ObjState, c: Vec2i, cr: int)
    requires
        o.position.x == c.x,
        o.position.y < c.y,
        c.y - o.position.y > cr - o.radius,
        0 <= cr - o.radius,
    ensures
        constrain_m(o, c, cr).position.x == c.x,
        constrain_m(o, c, cr).position.y == c.y - (cr - o.radius),
        vmag(vsub(c, constrain_m(o, c, cr).position)) == cr - o.radius,
{
    let d = c.y - o.position.y;
    let al = cr - o.radius;
    let v = vsub(c, o.position);
    let s: int = SCALE as int;
    assert(v.x == 0 && v.y == d);
    assert(0 * 0 == 0 && 0 * s == 0 && 0 * al == 0 && d * d >= 0) by (nonlinear_arith);
    assert(norm2(v) == d * d);
    assert((d * d) as nat == (d as nat) * (d as nat)) by (nonlinear_arith)
        requires d >= 1;
    lemma_floor_sqrt_square(d as nat);
    assert(vmag(v) == d);
    let u = vunit(v);
    lemma_div_of0(d);
    assert(u.x == 0);
    lemma_mul_is_commutative(d, s);
    lemma_div_multiples_vanish(s, d);
    assert(u.y == tdiv(v.y * s, d));
    assert(d * s >= 0) by (nonlinear_arith)
        requires d >= 1, s >= 1;
    assert(u.y == s);
    lemma_div_of0(s);
    assert(tdiv(u.x * al, s) == 0);
    lemma_mul_is_commutative(s, al);
    lemma_div_multiples_vanish(al, s);
    assert(s * al >= 0) by (nonlinear_arith)
        requires al >= 0, s >= 1;
    assert(tdiv(u.y * al, s) == al);
    let r = constrain_m(o, c, cr);
    assert(r.position.x == c.x && r.position.y == c.y - al);
    let w = vsub(c, r.position);
    assert(w.x == 0 && w.y == al);
    assert(norm2(w) == al * al);
    assert((al * al) as nat == (al as nat) * (al as nat)) by (nonlinear_arith)
        requires al >= 0;
    lemma_floor_sqrt_square(al as nat);
    assert(vmag(w) == al);
}

/// Any clamp leaves the particle within the allowed distance of the centre
/// in each coordinate, on the same side of the centre as it was: the
/// correction follows the particle's prior direction, up to the truncation
/// of the scaled unit vector.
pub proof fn lemma_constraint_clamp_direction(o: ObjState, c: Vec2i, cr: int)
    requires
        vmag(vsub(c, o.position)) > cr - o.radius,
        0 < vmag(vsub(c, o.position)),
        0 <= cr - o.radius,
    ensures
        iabs(vsub(c, constrain_m(o, c, cr).position).x) <= cr - o.radius,
        iabs(vsub(c, constrain_m(o, c, cr).position).y) <= cr - o.radius,
        vsub(c, o.position).x * vsub(c, constrain_m(o, c, cr).position).x >= 0,
        vsub(c, o.position).y * vsub(c, constrain_m(o, c, cr).position).y >= 0,
{
    let v = vsub(c, o.position);
    let d = vmag(v);
    let al = cr - o.radius;
    let u = vunit(v);
    let s: int = SCALE as int;
    lemma_vunit_bounds(v);
    assert(iabs(u.x * al) <= s * al && iabs(u.y * al) <= s * al) by (nonlinear_arith)
        requires
            iabs(u.x) <= s,
            iabs(u.y) <= s,
            al >= 0,
    ;
    lemma_tdiv_le(u.x * al, s, al);
    lemma_tdiv_le(u.y * al, s, al);
    let back = vsub(c, constrain_m(o, c, cr).position);
    assert(back.x == tdiv(u.x * al, s) && back.y == tdiv(u.y * al, s));
    lemma_tdiv_sign(v.x * s, d);
    lemma_tdiv_sign(v.y * s, d);
    lemma_tdiv_sign(u.x * al, s);
    lemma_tdiv_sign(u.y * al, s);
    assert((v.x >= 0 ==> v.x * s >= 0) && (v.x <= 0 ==> v.x * s <= 0)
        && (v.y >= 0 ==> v.y * s >= 0) && (v.y <= 0 ==> v.y * s <= 0)) by (nonlinear_arith)
        requires s >= 1;
    assert((u.x >= 0 ==> u.x * al >= 0) && (u.x <= 0 ==> u.x * al <= 0)
        && (u.y >= 0 ==> u.y * al >= 0) && (u.y <= 0 ==> u.y * al <= 0)) by (nonlinear_arith)
        requires al >= 0;
    assert((v.x >= 0 && back.x >= 0 ==> v.x * back.x >= 0)
        && (v.x <= 0 && back.x <= 0 ==> v.x * back.x >= 0)
        && (v.y >= 0 && back.y >= 0 ==> v.y * back.y >= 0)
        && (v.y <= 0 && back.y <= 0 ==> v.y * back.y >= 0)) by (nonlinear_arith);
}

/// The collision response never moves a particle toward the other: the
/// correction each receives has a non-negative dot product with the offset
/// pointing away from its partner.
pub proof fn lemma_collision_pushes_apart(a: ObjState, b: ObjState)
    requires
        1 <= a.radius,
        1 <= b.radius,
    ensures
        ({
            let v = vsub(a.position, b.position);
            let c1 = vsub(collide_pair_m(a, b).0.position, a.position);
            c1.x * v.x + c1.y * v.y >= 0
        }),
        ({
            let v = vsub(a.position, b.position);
            let c2 = vsub(collide_pair_m(a, b).1.position, b.position);
            c2.x * v.x + c2.y * v.y <= 0
        }),
{
    let v = vsub(a.position, b.position);
    let dist = vmag(v);
    let min_dist = a.radius + b.radius;
    if 0 < dist && dist < min_dist {
        let u = vunit(v);
        let overlap = min_dist - dist;
        let push1 = tdiv(3 * overlap * a.radius, 5 * min_dist);
        let push2 = tdiv(3 * overlap * b.radius, 5 * min_dist);
        let s: int = SCALE as int;
        lemma_tdiv_sign(3 * overlap * a.radius, 5 * min_dist);
        lemma_tdiv_sign(3 * overlap * b.radius, 5 * min_dist);
        assert(3 * overlap * a.radius >= 0 && 3 * overlap * b.radius >= 0) by (nonlinear_arith)
            requires
                overlap >= 1,
                a.radius >= 1,
                b.radius >= 1,
        ;
        assert(min_dist >= 2);
        assert(push1 >= 0 && push2 >= 0);
        lemma_tdiv_sign(v.x * s, dist);
        lemma_tdiv_sign(v.y * s, dist);
        assert((v.x >= 0 ==> v.x * s >= 0) && (v.x <= 0 ==> v.x * s <= 0)
            && (v.y >= 0 ==> v.y * s >= 0) && (v.y <= 0 ==> v.y * s <= 0)) by (nonlinear_arith)
            requires s >= 1;
        lemma_tdiv_sign(u.x * push1, s);
        lemma_tdiv_sign(u.y * push1, s);
        lemma_tdiv_sign(u.x * push2, s);
        lemma_tdiv_sign(u.y * push2, s);
        assert((u.x >= 0 ==> u.x * push1 >= 0 && u.x * push2 >= 0)
            && (u.x <= 0 ==> u.x * push1 <= 0 && u.x * push2 <= 0)
            && (u.y >= 0 ==> u.y * push1 >= 0 && u.y * push2 >= 0)
            && (u.y <= 0 ==> u.y * push1 <= 0 && u.y * push2 <= 0)) by (nonlinear_arith)
            requires
                push1 >= 0,
                push2 >= 0,
        ;
        let c1 = vsub(collide_pair_m(a, b).0.position, a.position);
        let c2 = vsub(collide_pair_m(a, b).1.position, b.position);
        assert((v.x >= 0 ==> c1.x >= 0 && c2.x <= 0) && (v.x <= 0 ==> c1.x <= 0 && c2.x >= 0));
        assert((v.y >= 0 ==> c1.y >= 0 && c2.y <= 0) && (v.y <= 0 ==> c1.y <= 0 && c2.y >= 0));
        assert(c1.x * v.x >= 0 && c1.y * v.y >= 0 && c2.x * v.x <= 0 && c2.y * v.y <= 0)
            by (nonlinear_arith)
            requires
                (v.x >= 0 ==> c1.x >= 0 && c2.x <= 0) && (v.x <= 0 ==> c1.x <= 0 && c2.x >= 0),
                (v.y >= 0 ==> c1.y >= 0 && c2.y <= 0) && (v.y <= 0 ==> c1.y <= 0 && c2.y >= 0),
        ;
    } else {
        assert(0 * v.x == 0 && 0 * v.y == 0) by (nonlinear_arith);
    }
}

/// One pair resolution along an axis: two overlapping particles on a
/// horizontal line move strictly apart (or stay), they never pass each
/// other, and the overlap between their circles does not increase.
pub proof fn lemma_collision_separates_axis(a: ObjState, b: ObjState)
    requires
        a.position.y == b.position.y,
        b.position.x < a.position.x,
        a.position.x - b.position.x < a.radius + b.radius,
        1 <= a.radius,
        1 <= b.radius,
    ensures
        collide_pair_m(a, b).0.position.y == a.position.y,
        collide_pair_m(a, b).1.position.y == b.position.y,
        collide_pair_m(a, b).0.position.x >= a.position.x,
        collide_pair_m(a, b).1.position.x <= b.position.x,
        collide_pair_m(a, b).0.position.x - collide_pair_m(a, b).1.position.x <= a.radius
            + b.radius,
        collide_pair_m(a, b).0.position.x - collide_pair_m(a, b).1.position.x >= a.position.x
            - b.position.x,
{
    let d = a.position.x - b.position.x;
    let md = a.radius + b.radius;
    let ov = md - d;
    let r1 = a.radius;
    let r2 = b.radius;
    let v = vsub(a.position, b.position);
    let s: int = SCALE as int;
    assert(v.x == d && v.y == 0);
    assert(0 * 0 == 0 && 0 * s == 0 && d * d >= 0) by (nonlinear_arith);
    assert(norm2(v) == d * d);
    assert((d * d) as nat == (d as nat) * (d as nat)) by (nonlinear_arith)
        requires d >= 1;
    lemma_floor_sqrt_square(d as nat);
    assert(vmag(v) == d);
    let u = vunit(v);
    lemma_div_of0(d);
    assert(u.y == 0);
    lemma_mul_is_commutative(d, s);
    lemma_div_multiples_vanish(s, d);
    assert(d * s >= 0) by (nonlinear_arith)
        requires d >= 1, s >= 1;
    assert(u.x == s);
    let p1 = tdiv(3 * ov * r1, 5 * md);
    let p2 = tdiv(3 * ov * r2, 5 * md);
    assert(3 * ov * r1 >= 0 && 3 * ov * r2 >= 0 && 5 * md >= 2) by (nonlinear_arith)
        requires ov >= 1, r1 >= 1, r2 >= 1, md >= 2;
    lemma_div_pos_is_pos(3 * ov * r1, 5 * md);
    lemma_div_pos_is_pos(3 * ov * r2, 5 * md);
    assert(p1 >= 0 && p2 >= 0);
    // corrections along the axis are exactly the pushes
    lemma_div_of0(s);
    lemma_mul_is_commutative(s, p1);
    lemma_mul_is_commutative(s, p2);
    lemma_div_multiples_vanish(p1, s);
    lemma_div_multiples_vanish(p2, s);
    assert(s * p1 >= 0 && s * p2 >= 0) by (nonlinear_arith)
        requires p1 >= 0, p2 >= 0, s >= 1;
    assert(tdiv(u.x * p1, s) == p1);
    assert(tdiv(u.x * p2, s) == p2);
    assert(tdiv(u.y * p1, s) == 0);
    assert(tdiv(u.y * p2, s) == 0);
    // together the two pushes never exceed the overlap
    lemma_fundamental_div_mod(3 * ov * r1, 5 * md);
    lemma_fundamental_div_mod(3 * ov * r2, 5 * md);
    lemma_mod_bound(3 * ov * r1, 5 * md);
    lemma_mod_bound(3 * ov * r2, 5 * md);
    assert((5 * md) * p1 <= 3 * ov * r1);
    assert((5 * md) * p2 <= 3 * ov * r2);
    assert(5 * (p1 + p2) <= 3 * ov) by (nonlinear_arith)
        requires
            (5 * md) * p1 <= 3 * ov * r1,
            (5 * md) * p2 <= 3 * ov * r2,
            md == r1 + r2,
            md >= 2,
            ov >= 1,
    ;
    assert(p1 + p2 <= ov);
}

} // verus!
