//! The 2-D fixed-point vector type, its arithmetic, and its integer model.

use crate::fixed::{
    div_trunc, floor_sqrt, iabs, isqrt_u128, lemma_floor_sqrt_mono, lemma_floor_sqrt_square,
    lemma_tdiv_le, mul_i128, tdiv, SCALE,
};
use vstd::prelude::*;

verus! {

/// The mathematical value of a vector: a pair of unbounded integers, each
/// `SCALE` times the real component it stands for.
pub struct Vec2i {
    pub x: int,
    pub y: int,
}

/// The zero vector.
pub open spec fn vzero() -> Vec2i {
    Vec2i { x: 0, y: 0 }
}

/// Componentwise sum.
pub open spec fn vadd(a: Vec2i, b: Vec2i) -> Vec2i {
    Vec2i { x: a.x + b.x, y: a.y + b.y }
}

/// Componentwise difference.
pub open spec fn vsub(a: Vec2i, b: Vec2i) -> Vec2i {
    Vec2i { x: a.x - b.x, y: a.y - b.y }
}

/// Componentwise negation.
pub open spec fn vneg(a: Vec2i) -> Vec2i {
    Vec2i { x: -a.x, y: -a.y }
}

/// Fixed-point scaling: the vector times the scalar `k / SCALE`, each
/// component truncated toward zero.
pub open spec fn vscale(a: Vec2i, k: int) -> Vec2i {
    Vec2i { x: tdiv(a.x * k, SCALE as int), y: tdiv(a.y * k, SCALE as int) }
}

/// Fixed-point division: the vector divided by the scalar `k / SCALE`,
/// each component truncated toward zero.
pub open spec fn vdiv(a: Vec2i, k: int) -> Vec2i {
    Vec2i { x: tdiv(a.x * (SCALE as int), k), y: tdiv(a.y * (SCALE as int), k) }
}

/// The squared Euclidean length.
pub open spec fn norm2(a: Vec2i) -> int {
    a.x * a.x + a.y * a.y
}

/// Fixed-point magnitude: the floor of the square root of the squared length.
pub open spec fn vmag(a: Vec2i) -> int {
    floor_sqrt(norm2(a) as nat) as int
}

/// The truncated unit direction of `a`, scaled by `SCALE` (so a unit length
/// reads as `SCALE`). Meaningful only when `vmag(a) >= 1`.
pub open spec fn vunit(a: Vec2i) -> Vec2i {
    Vec2i {
        x: tdiv(a.x * (SCALE as int), vmag(a)),
        y: tdiv(a.y * (SCALE as int), vmag(a)),
    }
}

/// The squared length is never negative.
pub proof fn lemma_norm2_nonneg(a: Vec2i)
    ensures
        norm2(a) >= 0,
        a.x * a.x >= 0,
        a.y * a.y >= 0,
{
    assert(a.x * a.x >= 0 && a.y * a.y >= 0) by (nonlinear_arith);
}

/// Each component is bounded in magnitude by the vector's magnitude.
pub proof fn lemma_comp_le_vmag(a: Vec2i)
    ensures
        iabs(a.x) <= vmag(a),
        iabs(a.y) <= vmag(a),
{
    lemma_norm2_nonneg(a);
    assert(iabs(a.x) * iabs(a.x) == a.x * a.x && iabs(a.y) * iabs(a.y) == a.y * a.y)
        by (nonlinear_arith);
    lemma_floor_sqrt_square(iabs(a.x) as nat);
    lemma_floor_sqrt_square(iabs(a.y) as nat);
    lemma_floor_sqrt_mono((iabs(a.x) * iabs(a.x)) as nat, norm2(a) as nat);
    lemma_floor_sqrt_mono((iabs(a.y) * iabs(a.y)) as nat, norm2(a) as nat);
}

/// A vector of magnitude zero is the zero vector.
pub proof fn lemma_vmag_zero(a: Vec2i)
    requires
        vmag(a) == 0,
    ensures
        a == vzero(),
{
    lemma_comp_le_vmag(a);
    assert(a == vzero());
}

/// The scaled unit direction has components bounded by `SCALE`.
pub proof fn lemma_vunit_bounds(a: Vec2i)
    requires
        1 <= vmag(a),
    ensures
        iabs(vunit(a).x) <= SCALE as int,
        iabs(vunit(a).y) <= SCALE as int,
{
    lemma_comp_le_vmag(a);
    let m = vmag(a);
    let s: int = SCALE as int;
    assert(iabs(a.x * s) <= m * s && iabs(a.y * s) <= m * s) by (nonlinear_arith)
        requires
            iabs(a.x) <= m,
            iabs(a.y) <= m,
            s == 0x1_0000,
    ;
    lemma_tdiv_le(a.x * s, m, s);
    lemma_tdiv_le(a.y * s, m, s);
}

/// A 2-D fixed-point vector; each component is `SCALE` times the real value
/// it stands for.
#[derive(Clone, Copy)]
pub struct Vector2f {
    pub x: i64,
    pub y: i64,
}

impl View for Vector2f {
    type V = Vec2i;

    open spec fn view(&self) -> Vec2i {
        Vec2i { x: self.x as int, y: self.y as int }
    }
}

impl Vector2f {
    /// Zero both components.
    pub fn set_zero(&mut self)
        ensures
            final(self)@ == vzero(),
    {
        self.x = 0;
        self.y = 0;
    }

    /// Componentwise sum.
    pub fn add(self, other: Vector2f) -> (r: Vector2f)
        requires
            iabs(self@.x + other@.x) <= 0x4000_0000_0000_0000,
            iabs(self@.y + other@.y) <= 0x4000_0000_0000_0000,
        ensures
            r@ == vadd(self@, other@),
    {
        Vector2f { x: self.x + other.x, y: self.y + other.y }
    }

    /// Componentwise difference.
    pub fn sub(self, other: Vector2f) -> (r: Vector2f)
        requires
            iabs(self@.x - other@.x) <= 0x4000_0000_0000_0000,
            iabs(self@.y - other@.y) <= 0x4000_0000_0000_0000,
        ensures
            r@ == vsub(self@, other@),
    {
        Vector2f { x: self.x - other.x, y: self.y - other.y }
    }

    /// Fixed-point scaling by the scalar `k / SCALE`.
    pub fn mul_fx(self, k: i64) -> (r: Vector2f)
        requires
            iabs(self@.x) <= 0x4000_0000_0000,
            iabs(self@.y) <= 0x4000_0000_0000,
            iabs(k as int) <= 0x1_0000_0000,
        ensures
            r@ == vscale(self@, k as int),
    {
        proof {
            lemma_scale_fits(self@, k as int);
        }
        let rx = div_trunc(mul_i128(self.x as i128, k as i128), SCALE as i128);
        let ry = div_trunc(mul_i128(self.y as i128, k as i128), SCALE as i128);
        Vector2f { x: rx as i64, y: ry as i64 }
    }

    /// Fixed-point division by the scalar `k / SCALE`; the divisor must be
    /// positive.
    pub fn div_fx(self, k: i64) -> (r: Vector2f)
        requires
            1 <= k,
            iabs(self@.x) <= 0x4000_0000_0000,
            iabs(self@.y) <= 0x4000_0000_0000,
        ensures
            r@ == vdiv(self@, k as int),
    {
        proof {
            lemma_div_fits(self@, k as int);
        }
        let rx = div_trunc(mul_i128(self.x as i128, SCALE as i128), k as i128);
        let ry = div_trunc(mul_i128(self.y as i128, SCALE as i128), k as i128);
        Vector2f { x: rx as i64, y: ry as i64 }
    }

    /// Fixed-point magnitude, `sqrt(x^2 + y^2)` rounded down.
    pub fn get_mod(&self) -> (r: i64)
        requires
            iabs(self@.x) <= 0x400_0000_0000_0000,
            iabs(self@.y) <= 0x400_0000_0000_0000,
        ensures
            r as int == vmag(self@),
            0 <= r,
    {
        proof {
            lemma_norm2_nonneg(self@);
            let c: int = 0x400_0000_0000_0000;
            assert(self@.x * self@.x <= c * c && self@.y * self@.y <= c * c) by (nonlinear_arith)
                requires
                    iabs(self@.x) <= c,
                    iabs(self@.y) <= c,
            ;
        }
        let xx = mul_i128(self.x as i128, self.x as i128);
        let yy = mul_i128(self.y as i128, self.y as i128);
        let s = xx + yy;
        let rt = isqrt_u128(s as u128);
        proof {
            let c: int = 0x400_0000_0000_0000;
            assert((rt as int) * (rt as int) <= s as int);
            assert(rt as int <= 2 * c) by (nonlinear_arith)
                requires
                    (rt as int) * (rt as int) <= s as int,
                    s as int <= 2 * (c * c),
                    0 <= rt as int,
                    c == 0x400_0000_0000_0000,
            ;
        }
        rt as i64
    }

    /// The unit direction scaled by `SCALE`; the vector must be nonzero.
    pub fn get_unit(&self) -> (u: Vector2f)
        requires
            iabs(self@.x) <= 0x400_0000_0000_0000,
            iabs(self@.y) <= 0x400_0000_0000_0000,
            1 <= vmag(self@),
        ensures
            u@ == vunit(self@),
            iabs(u@.x) <= SCALE as int,
            iabs(u@.y) <= SCALE as int,
    {
        proof {
            lemma_vunit_bounds(self@);
        }
        let m = self.get_mod();
        let ux = div_trunc(mul_i128(self.x as i128, SCALE as i128), m as i128);
        let uy = div_trunc(mul_i128(self.y as i128, SCALE as i128), m as i128);
        Vector2f { x: ux as i64, y: uy as i64 }
    }
}

/// A bound on a fixed-point scaling, from a bound on the raw products.
pub proof fn lemma_vscale_bound(a: Vec2i, k: int, c: int)
    requires
        0 <= c,
        iabs(a.x * k) <= (SCALE as int) * c,
        iabs(a.y * k) <= (SCALE as int) * c,
    ensures
        iabs(vscale(a, k).x) <= c,
        iabs(vscale(a, k).y) <= c,
{
    lemma_tdiv_le(a.x * k, SCALE as int, c);
    lemma_tdiv_le(a.y * k, SCALE as int, c);
}

/// Range facts for `vscale` under the bounds `mul_fx` imposes.
proof fn lemma_scale_fits(a: Vec2i, k: int)
    requires
        iabs(a.x) <= 0x4000_0000_0000,
        iabs(a.y) <= 0x4000_0000_0000,
        iabs(k) <= 0x1_0000_0000,
    ensures
        iabs(a.x * k) <= (SCALE as int) * 0x4000_0000_0000_0000,
        iabs(a.y * k) <= (SCALE as int) * 0x4000_0000_0000_0000,
        iabs(vscale(a, k).x) <= 0x4000_0000_0000_0000,
        iabs(vscale(a, k).y) <= 0x4000_0000_0000_0000,
{
    assert(iabs(a.x * k) <= (SCALE as int) * 0x4000_0000_0000_0000
        && iabs(a.y * k) <= (SCALE as int) * 0x4000_0000_0000_0000) by (nonlinear_arith)
        requires
            iabs(a.x) <= 0x4000_0000_0000,
            iabs(a.y) <= 0x4000_0000_0000,
            iabs(k) <= 0x1_0000_0000,
    ;
    lemma_tdiv_le(a.x * k, SCALE as int, 0x4000_0000_0000_0000);
    lemma_tdiv_le(a.y * k, SCALE as int, 0x4000_0000_0000_0000);
}

/// Range facts for `vdiv` under the bounds `div_fx` imposes.
proof fn lemma_div_fits(a: Vec2i, k: int)
    requires
        1 <= k,
        iabs(a.x) <= 0x4000_0000_0000,
        iabs(a.y) <= 0x4000_0000_0000,
    ensures
        iabs(a.x * (SCALE as int)) <= 0x4000_0000_0000_0000,
        iabs(a.y * (SCALE as int)) <= 0x4000_0000_0000_0000,
        iabs(vdiv(a, k).x) <= 0x4000_0000_0000_0000,
        iabs(vdiv(a, k).y) <= 0x4000_0000_0000_0000,
{
    assert(iabs(a.x * (SCALE as int)) <= 0x4000_0000_0000_0000
        && iabs(a.y * (SCALE as int)) <= 0x4000_0000_0000_0000
        && iabs(a.x * (SCALE as int)) <= k * 0x4000_0000_0000_0000
        && iabs(a.y * (SCALE as int)) <= k * 0x4000_0000_0000_0000) by (nonlinear_arith)
        requires
            1 <= k,
            iabs(a.x) <= 0x4000_0000_0000,
            iabs(a.y) <= 0x4000_0000_0000,
    ;
    lemma_tdiv_le(a.x * (SCALE as int), k, 0x4000_0000_0000_0000);
    lemma_tdiv_le(a.y * (SCALE as int), k, 0x4000_0000_0000_0000);
}

} // verus!
