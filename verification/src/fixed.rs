//! Fixed-point scalar arithmetic: the scale constant, truncating division,
//! the integer square root, and the lemmas about them that the solver needs.

use vstd::arithmetic::div_mod::*;
use vstd::arithmetic::mul::*;
use vstd::prelude::*;

verus! {

/// Fixed-point scale: a raw value `r` denotes the real number `r / SCALE`.
pub const SCALE: i64 = 0x1_0000;

/// `SCALE * SCALE`, the divisor after multiplying two fixed-point factors.
pub const SCALE_SQ: i64 = 0x1_0000_0000;

/// Absolute value of a mathematical integer.
pub open spec fn iabs(a: int) -> int {
    if a >= 0 {
        a
    } else {
        -a
    }
}

/// Truncating (round-toward-zero) division, the behaviour of `/` on Rust's
/// signed integers, for a positive divisor.
pub open spec fn tdiv(a: int, b: int) -> int {
    if a >= 0 {
        a / b
    } else {
        -((-a) / b)
    }
}

/// Magnitude bound for truncating division: if `|a| <= b * c`, then
/// `|tdiv(a, b)| <= c`.
pub proof fn lemma_tdiv_le(a: int, b: int, c: int)
    requires
        1 <= b,
        0 <= c,
        iabs(a) <= b * c,
    ensures
        iabs(tdiv(a, b)) <= c,
{
    if a >= 0 {
        lemma_div_is_ordered(a, b * c, b);
        lemma_div_multiples_vanish(c, b);
        lemma_div_pos_is_pos(a, b);
    } else {
        lemma_div_is_ordered(-a, b * c, b);
        lemma_div_multiples_vanish(c, b);
        lemma_div_pos_is_pos(-a, b);
    }
}

/// Truncating division never changes the sign of the dividend.
pub proof fn lemma_tdiv_sign(a: int, b: int)
    requires
        1 <= b,
    ensures
        a >= 0 ==> tdiv(a, b) >= 0,
        a <= 0 ==> tdiv(a, b) <= 0,
{
    if a >= 0 {
        lemma_div_pos_is_pos(a, b);
    } else {
        lemma_div_pos_is_pos(-a, b);
    }
}

/// When `b` divides `a` exactly, truncating division agrees with the exact
/// rational quotient.
pub proof fn lemma_tdiv_exact(a: int, b: int)
    requires
        1 <= b,
        a % b == 0,
    ensures
        tdiv(a, b) * b == a,
        tdiv(a, b) == a / b,
{
    lemma_fundamental_div_mod(a, b);
    if a >= 0 {
        assert(a == b * (a / b));
        lemma_mul_is_commutative(b, a / b);
    } else {
        let q = a / b;
        assert(a == b * q);
        assert(-a == (-q) * b) by (nonlinear_arith)
            requires a == b * q;
        lemma_mod_multiples_basic(-q, b);
        lemma_fundamental_div_mod(-a, b);
        assert(-a == b * ((-a) / b));
        assert((-a) / b == -q) by (nonlinear_arith)
            requires
                -a == b * ((-a) / b),
                -a == (-q) * b,
                b >= 1,
        ;
        assert(tdiv(a, b) == q);
        lemma_mul_is_commutative(b, q);
    }
}

/// `floor(sqrt(n))`, defined by recursion over `n`.
pub open spec fn floor_sqrt(n: nat) -> nat
    decreases n,
{
    if n == 0 {
        0
    } else {
        let r = floor_sqrt((n - 1) as nat);
        if (r + 1) * (r + 1) <= n {
            r + 1
        } else {
            r
        }
    }
}

/// What it means for `r` to be the floor of the square root of `n`.
pub open spec fn is_floor_sqrt(n: nat, r: nat) -> bool {
    r * r <= n < (r + 1) * (r + 1)
}

/// `floor_sqrt` satisfies its characterisation.
pub proof fn lemma_floor_sqrt(n: nat)
    ensures
        is_floor_sqrt(n, floor_sqrt(n)),
    decreases n,
{
    if n == 0 {
        assert(floor_sqrt(0) == 0);
        assert(0 * 0 == 0) by (nonlinear_arith);
        assert(1 * 1 == 1) by (nonlinear_arith);
    } else {
        lemma_floor_sqrt((n - 1) as nat);
        let r = floor_sqrt((n - 1) as nat);
        assert(is_floor_sqrt((n - 1) as nat, r));
        if (r + 1) * (r + 1) <= n {
            assert(floor_sqrt(n) == r + 1);
            assert((r + 1 + 1) * (r + 1 + 1) > n) by (nonlinear_arith)
                requires
                    n - 1 < (r + 1) * (r + 1),
                    n >= 1,
            ;
            assert(is_floor_sqrt(n, r + 1));
        } else {
            assert(floor_sqrt(n) == r);
            assert(is_floor_sqrt(n, r));
        }
    }
}

/// The characterisation determines `r` uniquely.
pub proof fn lemma_floor_sqrt_unique(n: nat, r: nat)
    requires
        is_floor_sqrt(n, r),
    ensures
        r == floor_sqrt(n),
{
    let f = floor_sqrt(n);
    lemma_floor_sqrt(n);
    if r < f {
        assert((r + 1) * (r + 1) <= f * f) by (nonlinear_arith)
            requires r + 1 <= f;
    }
    if f < r {
        assert((f + 1) * (f + 1) <= r * r) by (nonlinear_arith)
            requires f + 1 <= r;
    }
}

/// `floor_sqrt` is monotone.
pub proof fn lemma_floor_sqrt_mono(a: nat, b: nat)
    requires
        a <= b,
    ensures
        floor_sqrt(a) <= floor_sqrt(b),
{
    let fa = floor_sqrt(a);
    let fb = floor_sqrt(b);
    lemma_floor_sqrt(a);
    lemma_floor_sqrt(b);
    if fb < fa {
        assert((fb + 1) * (fb + 1) <= fa * fa) by (nonlinear_arith)
            requires fb + 1 <= fa;
    }
}

/// The square root of a perfect square.
pub proof fn lemma_floor_sqrt_square(m: nat)
    ensures
        floor_sqrt(m * m) == m,
{
    assert(m * m < (m + 1) * (m + 1)) by (nonlinear_arith);
    lemma_floor_sqrt_unique(m * m, m);
}

/// Truncating division on `i128` for a positive divisor.
pub fn div_trunc(a: i128, b: i128) -> (r: i128)
    requires
        1 <= b,
        iabs(a as int) <= 0x4000_0000_0000_0000_0000_0000_0000_0000,
    ensures
        r as int == tdiv(a as int, b as int),
        iabs(r as int) <= iabs(a as int),
{
    proof {
        if a as int >= 0 {
            lemma_div_is_ordered(0, a as int, b as int);
            lemma_div_is_ordered_by_denominator(a as int, 1, b as int);
            lemma_div_multiples_vanish(a as int, 1);
        } else {
            lemma_div_is_ordered(0, -(a as int), b as int);
            lemma_div_is_ordered_by_denominator(-(a as int), 1, b as int);
            lemma_div_multiples_vanish(-(a as int), 1);
        }
    }
    if a >= 0 {
        ((a as u128) / (b as u128)) as i128
    } else {
        let m = -a;
        -((m as u128 / (b as u128)) as i128)
    }
}

/// Product of two bounded `i128` values; the bounds keep it in range.
pub fn mul_i128(a: i128, b: i128) -> (r: i128)
    requires
        iabs(a as int) <= 0x4000_0000_0000_0000,
        iabs(b as int) <= 0x4000_0000_0000_0000,
    ensures
        r as int == a as int * b as int,
        iabs(r as int) <= iabs(a as int) * iabs(b as int),
{
    proof {
        let bound: int = 0x4000_0000_0000_0000;
        assert(-(bound * bound) <= (a as int) * (b as int) <= bound * bound
            && iabs((a as int) * (b as int)) == iabs(a as int) * iabs(b as int)) by (nonlinear_arith)
            requires
                iabs(a as int) <= bound,
                iabs(b as int) <= bound,
        ;
    }
    a * b
}

/// Floor of the square root on `u128`, by binary search.
pub fn isqrt_u128(n: u128) -> (r: u128)
    requires
        n < 0x4000_0000_0000_0000_0000_0000_0000_0000,
    ensures
        r as nat == floor_sqrt(n as nat),
        is_floor_sqrt(n as nat, r as nat),
{
    let mut lo: u128 = 0;
    let mut hi: u128 = 0x8000_0000_0000_0000;
    proof {
        assert((hi as nat) * (hi as nat) == 0x4000_0000_0000_0000_0000_0000_0000_0000) by (nonlinear_arith)
            requires hi == 0x8000_0000_0000_0000;
    }
    while lo + 1 < hi
        invariant
            lo < hi <= 0x8000_0000_0000_0000,
            (lo as nat) * (lo as nat) <= n as nat,
            (n as nat) < (hi as nat) * (hi as nat),
        decreases hi - lo,
    {
        let mid = lo + (hi - lo) / 2;
        proof {
            assert((mid as nat) * (mid as nat) <= 0x4000_0000_0000_0000_0000_0000_0000_0000) by (nonlinear_arith)
                requires mid <= 0x8000_0000_0000_0000;
        }
        if mid * mid <= n {
            lo = mid;
        } else {
            hi = mid;
        }
    }
    proof {
        assert(is_floor_sqrt(n as nat, lo as nat));
        lemma_floor_sqrt_unique(n as nat, lo as nat);
    }
    lo
}

} // verus!
