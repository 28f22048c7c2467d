//! Fixed-point 2D vector arithmetic.
//!
//! A world coordinate is an `i64` holding a multiple of 1/`SCALE` of a
//! world unit.  Lengths are floor square roots of exact squared lengths,
//! and divisions truncate toward zero, so every operation is an exact
//! function on integers.

use vstd::prelude::*;
use vstd::arithmetic::div_mod::{
    lemma_div_nonincreasing, lemma_div_pos_is_pos, lemma_multiply_divide_le,
};

verus! {

/// Fixed-point sub-units per world unit.
pub const SCALE: i64 = 100;

/// Mathematical value of a 2D fixed-point vector.
pub ghost struct Vec2View {
    pub x: int,
    pub y: int,
}

/// A 2D vector of fixed-point world coordinates.
#[derive(Clone, Copy, Debug, PartialEq, Eq, Structural)]
pub struct Vec2 {
    pub x: i64,
    pub y: i64,
}

impl View for Vec2 {
    type V = Vec2View;

    open spec fn view(&self) -> Vec2View {
        Vec2View { x: self.x as int, y: self.y as int }
    }
}

/// Absolute value.
pub open spec fn abs_val(a: int) -> int {
    if a >= 0 {
        a
    } else {
        -a
    }
}

/// Division truncated toward zero (the rounding Rust's `/` uses).
pub open spec fn tdiv(a: int, b: int) -> int
    recommends
        b >= 1,
{
    if a >= 0 {
        a / b
    } else {
        -((-a) / b)
    }
}

/// Floor of the square root of `n` (0 for negative `n`).
pub open spec fn isqrt(n: int) -> int
    decreases n,
{
    if n <= 0 {
        0
    } else {
        let p: int = isqrt(n - 1);
        if (p + 1) * (p + 1) <= n {
            p + 1
        } else {
            p
        }
    }
}

/// Sum of the two vectors.
pub open spec fn v_add(a: Vec2View, b: Vec2View) -> Vec2View {
    Vec2View { x: a.x + b.x, y: a.y + b.y }
}

/// Difference of the two vectors.
pub open spec fn v_sub(a: Vec2View, b: Vec2View) -> Vec2View {
    Vec2View { x: a.x - b.x, y: a.y - b.y }
}

/// Dot product.
pub open spec fn v_dot(a: Vec2View, b: Vec2View) -> int {
    a.x * b.x + a.y * b.y
}

/// Squared Euclidean length.
pub open spec fn v_sq(a: Vec2View) -> int {
    a.x * a.x + a.y * a.y
}

/// Fixed-point Euclidean length: floor square root of the exact square.
pub open spec fn v_len(a: Vec2View) -> int {
    isqrt(v_sq(a))
}

/// Movement toward a target, clamped by a maximum step: the target
/// itself when it lies within `amount`, otherwise the point advanced
/// from `from` toward the target by `amount` (with truncating
/// fixed-point division).
pub open spec fn spec_move_to(from: Vec2View, target: Vec2View, amount: int) -> Vec2View {
    let d = v_sub(target, from);
    let dd = v_sq(d);
    if dd <= amount * amount {
        target
    } else {
        let dist = isqrt(dd);
        Vec2View { x: from.x + tdiv(d.x * amount, dist), y: from.y + tdiv(d.y * amount, dist) }
    }
}

/// A product is bounded by the product of the factors' bounds.
pub proof fn lemma_mul_bound(a: int, b: int, m: int, n: int)
    requires
        abs_val(a) <= m,
        abs_val(b) <= n,
    ensures
        -(m * n) <= a * b <= m * n,
{
    assert(-(m * n) <= a * b <= m * n) by (nonlinear_arith)
        requires
            abs_val(a) <= m,
            abs_val(b) <= n,
    ;
}

/// `isqrt` is the floor square root.
pub proof fn lemma_isqrt_bounds(n: int)
    requires
        n >= 0,
    ensures
        isqrt(n) >= 0,
        isqrt(n) * isqrt(n) <= n,
        n < (isqrt(n) + 1) * (isqrt(n) + 1),
    decreases n,
{
    if n == 0 {
    } else {
        lemma_isqrt_bounds(n - 1);
        let p: int = isqrt(n - 1);
        if (p + 1) * (p + 1) <= n {
            assert(n < (p + 2) * (p + 2)) by (nonlinear_arith)
                requires
                    p >= 0,
                    n - 1 < (p + 1) * (p + 1),
            ;
        }
    }
}

/// The floor square root is the only `r` with `r^2 <= n < (r+1)^2`.
pub proof fn lemma_isqrt_unique(n: int, r: int)
    requires
        n >= 0,
        r >= 0,
        r * r <= n,
        n < (r + 1) * (r + 1),
    ensures
        r == isqrt(n),
{
    lemma_isqrt_bounds(n);
    let s: int = isqrt(n);
    assert(r == s) by (nonlinear_arith)
        requires
            r >= 0,
            s >= 0,
            r * r <= n,
            n < (r + 1) * (r + 1),
            s * s <= n,
            n < (s + 1) * (s + 1),
    ;
}

/// A square-root bound transfers: if `n < (b+1)^2` the root is at most `b`.
pub proof fn lemma_isqrt_le(n: int, b: int)
    requires
        n >= 0,
        b >= 0,
        n < (b + 1) * (b + 1),
    ensures
        isqrt(n) <= b,
{
    lemma_isqrt_bounds(n);
    let s: int = isqrt(n);
    assert(s <= b) by (nonlinear_arith)
        requires
            s >= 0,
            b >= 0,
            s * s <= n,
            n < (b + 1) * (b + 1),
    ;
}

/// A positive argument has a positive floor square root.
pub proof fn lemma_isqrt_pos(n: int)
    requires
        n >= 1,
    ensures
        isqrt(n) >= 1,
{
    lemma_isqrt_bounds(n);
    let s: int = isqrt(n);
    assert(s >= 1) by (nonlinear_arith)
        requires
            s >= 0,
            n >= 1,
            n < (s + 1) * (s + 1),
    ;
}

/// Squares are nonnegative.
pub proof fn lemma_sq_nonneg(a: int)
    ensures
        a * a >= 0,
{
    assert(a * a >= 0) by (nonlinear_arith);
}

/// Truncated division keeps any magnitude bound of the exact quotient.
pub proof fn lemma_tdiv_mag(a: int, b: int, c: int)
    requires
        b >= 1,
        c >= 0,
        -(b * c) <= a <= b * c,
    ensures
        -c <= tdiv(a, b) <= c,
{
    if a >= 0 {
        lemma_div_pos_is_pos(a, b);
        lemma_multiply_divide_le(a, b, c);
    } else {
        lemma_div_pos_is_pos(-a, b);
        lemma_multiply_divide_le(-a, b, c);
    }
}

/// Floor square root of `n` (`n` as an exact integer).
pub fn int_sqrt(n: u128) -> (r: u128)
    ensures
        r == isqrt(n as int),
{
    proof {
        lemma_isqrt_bounds(n as int);
    }
    let mut lo: u128 = 0;
    let mut hi: u128 = 0x1_0000_0000_0000_0000;
    assert((n as int) < hi * hi) by (nonlinear_arith)
        requires
            hi == 0x1_0000_0000_0000_0000,
            n <= 0xffff_ffff_ffff_ffff_ffff_ffff_ffff_ffff,
    ;
    while lo + 1 < hi
        invariant
            lo < hi <= 0x1_0000_0000_0000_0000,
            lo * lo <= n,
            (n as int) < hi * hi,
        decreases hi - lo,
    {
        let mid: u128 = lo + (hi - lo) / 2;
        assert((mid as int) * (mid as int) < 0x1_0000_0000_0000_0000_0000_0000_0000_0000)
            by (nonlinear_arith)
            requires
                0 <= (mid as int) < 0x1_0000_0000_0000_0000,
        ;
        if mid * mid <= n {
            lo = mid;
        } else {
            hi = mid;
        }
    }
    proof {
        lemma_isqrt_unique(n as int, lo as int);
    }
    lo
}

/// Truncated (round-toward-zero) division of `i64` values.
pub fn div_trunc(a: i64, b: i64) -> (r: i64)
    requires
        b >= 1,
        a > i64::MIN,
    ensures
        r == tdiv(a as int, b as int),
{
    if a >= 0 {
        proof {
            lemma_div_nonincreasing(a as int, b as int);
            lemma_div_pos_is_pos(a as int, b as int);
        }
        ((a as u64) / (b as u64)) as i64
    } else {
        let m: u64 = (-a) as u64;
        proof {
            lemma_div_nonincreasing(m as int, b as int);
            lemma_div_pos_is_pos(m as int, b as int);
        }
        -((m / (b as u64)) as i64)
    }
}

/// Truncated (round-toward-zero) division of `i128` values.
pub fn div_trunc_wide(a: i128, b: i128) -> (r: i128)
    requires
        b >= 1,
        a > i128::MIN,
    ensures
        r == tdiv(a as int, b as int),
{
    if a >= 0 {
        proof {
            lemma_div_nonincreasing(a as int, b as int);
            lemma_div_pos_is_pos(a as int, b as int);
        }
        ((a as u128) / (b as u128)) as i128
    } else {
        let m: u128 = (-a) as u128;
        proof {
            lemma_div_nonincreasing(m as int, b as int);
            lemma_div_pos_is_pos(m as int, b as int);
        }
        -((m / (b as u128)) as i128)
    }
}

impl Vec2 {
    /// The vector with the given coordinates.
    pub fn new(x: i64, y: i64) -> (v: Vec2)
        ensures
            v@ == (Vec2View { x: x as int, y: y as int }),
    {
        Vec2 { x, y }
    }

    /// The zero vector.
    pub fn zero() -> (v: Vec2)
        ensures
            v@ == (Vec2View { x: 0, y: 0 }),
    {
        Vec2 { x: 0, y: 0 }
    }

    /// Component-wise sum.
    pub fn add(self, rhs: Vec2) -> (v: Vec2)
        requires
            i64::MIN <= self@.x + rhs@.x <= i64::MAX,
            i64::MIN <= self@.y + rhs@.y <= i64::MAX,
        ensures
            v@ == v_add(self@, rhs@),
    {
        Vec2 { x: self.x + rhs.x, y: self.y + rhs.y }
    }

    /// Component-wise difference.
    pub fn sub(self, rhs: Vec2) -> (v: Vec2)
        requires
            i64::MIN <= self@.x - rhs@.x <= i64::MAX,
            i64::MIN <= self@.y - rhs@.y <= i64::MAX,
        ensures
            v@ == v_sub(self@, rhs@),
    {
        Vec2 { x: self.x - rhs.x, y: self.y - rhs.y }
    }

    /// Exact dot product, in squared fixed-point units.
    pub fn dot(self, rhs: Vec2) -> (r: i128)
        requires
            abs_val(self@.x) <= 0x2000_0000_0000_0000,
            abs_val(self@.y) <= 0x2000_0000_0000_0000,
            abs_val(rhs@.x) <= 0x2000_0000_0000_0000,
            abs_val(rhs@.y) <= 0x2000_0000_0000_0000,
        ensures
            r == v_dot(self@, rhs@),
    {
        proof {
            lemma_mul_bound(self@.x, rhs@.x, 0x2000_0000_0000_0000, 0x2000_0000_0000_0000);
            lemma_mul_bound(self@.y, rhs@.y, 0x2000_0000_0000_0000, 0x2000_0000_0000_0000);
        }
        (self.x as i128) * (rhs.x as i128) + (self.y as i128) * (rhs.y as i128)
    }

    /// Fixed-point Euclidean length: the floor square root of the exact
    /// squared length, again in fixed-point units.
    pub fn length(self) -> (r: i64)
        requires
            abs_val(self@.x) <= 0x1_0000_0000_0000,
            abs_val(self@.y) <= 0x1_0000_0000_0000,
        ensures
            r == v_len(self@),
            r >= 0,
    {
        proof {
            lemma_sq_nonneg(self@.x);
            lemma_sq_nonneg(self@.y);
            lemma_mul_bound(self@.x, self@.x, 0x1_0000_0000_0000, 0x1_0000_0000_0000);
            lemma_mul_bound(self@.y, self@.y, 0x1_0000_0000_0000, 0x1_0000_0000_0000);
        }
        let sq: i128 = (self.x as i128) * (self.x as i128) + (self.y as i128) * (self.y as i128);
        proof {
            lemma_isqrt_le(sq as int, 0x2_0000_0000_0000);
        }
        let r: u128 = int_sqrt(sq as u128);
        r as i64
    }

    /// The unit direction of `self` in fixed-point form: each component
    /// scaled by `SCALE` and divided (truncating) by the length.  The
    /// zero vector has no direction, so callers must guard it out.
    pub fn normalized(self) -> (v: Vec2)
        requires
            v_sq(self@) >= 1,
            abs_val(self@.x) <= 0x1_0000_0000_0000,
            abs_val(self@.y) <= 0x1_0000_0000_0000,
        ensures
            v@.x == tdiv(self@.x * SCALE, v_len(self@)),
            v@.y == tdiv(self@.y * SCALE, v_len(self@)),
    {
        let len: i64 = self.length();
        proof {
            lemma_isqrt_pos(v_sq(self@));
            lemma_mul_bound(self@.x, SCALE as int, 0x1_0000_0000_0000, 100);
            lemma_mul_bound(self@.y, SCALE as int, 0x1_0000_0000_0000, 100);
        }
        Vec2 { x: div_trunc(self.x * SCALE, len), y: div_trunc(self.y * SCALE, len) }
    }

    /// Move toward `target`: reach it when it lies within `amount`,
    /// otherwise advance by exactly `amount` (up to the fixed-point
    /// truncation) along the straight line toward it.
    pub fn move_to(self, target: Vec2, amount: i64) -> (v: Vec2)
        requires
            0 <= amount <= 0x1_0000_0000_0000,
            abs_val(self@.x) <= 0x1_0000_0000_0000,
            abs_val(self@.y) <= 0x1_0000_0000_0000,
            abs_val(target@.x) <= 0x1_0000_0000_0000,
            abs_val(target@.y) <= 0x1_0000_0000_0000,
        ensures
            v@ == spec_move_to(self@, target@, amount as int),
    {
        let dx: i64 = target.x - self.x;
        let dy: i64 = target.y - self.y;
        proof {
            lemma_sq_nonneg(dx as int);
            lemma_sq_nonneg(dy as int);
            lemma_sq_nonneg(amount as int);
            lemma_mul_bound(dx as int, dx as int, 0x2_0000_0000_0000, 0x2_0000_0000_0000);
            lemma_mul_bound(dy as int, dy as int, 0x2_0000_0000_0000, 0x2_0000_0000_0000);
            lemma_mul_bound(amount as int, amount as int, 0x1_0000_0000_0000, 0x1_0000_0000_0000);
        }
        let dd: i128 = (dx as i128) * (dx as i128) + (dy as i128) * (dy as i128);
        let aa: i128 = (amount as i128) * (amount as i128);
        if dd <= aa {
            target
        } else {
            proof {
                lemma_isqrt_le(dd as int, 0x4_0000_0000_0000);
                lemma_isqrt_pos(dd as int);
            }
            let dist: i64 = int_sqrt(dd as u128) as i64;
            proof {
                lemma_isqrt_bounds(dd as int);
                assert(amount as int <= dist as int) by (nonlinear_arith)
                    requires
                        amount >= 0,
                        dist as int >= 0,
                        (amount as int) * (amount as int) < dd as int,
                        (dd as int) < (dist as int + 1) * (dist as int + 1),
                ;
                lemma_mul_bound(dx as int, amount as int, 0x2_0000_0000_0000, 0x1_0000_0000_0000);
                lemma_mul_bound(dy as int, amount as int, 0x2_0000_0000_0000, 0x1_0000_0000_0000);
                lemma_mul_bound(
                    abs_val(dx as int),
                    dist as int,
                    0x2_0000_0000_0000,
                    0x4_0000_0000_0000,
                );
                lemma_mul_bound(
                    abs_val(dy as int),
                    dist as int,
                    0x2_0000_0000_0000,
                    0x4_0000_0000_0000,
                );
                assert(-(dist as int * abs_val(dx as int)) <= dx as int * (amount as int) <= dist
                    as int * abs_val(dx as int)) by (nonlinear_arith)
                    requires
                        0 <= amount as int <= dist as int,
                        abs_val(dx as int) >= 0,
                        (dx as int == abs_val(dx as int) || dx as int == -abs_val(dx as int)),
                ;
                assert(-(dist as int * abs_val(dy as int)) <= dy as int * (amount as int) <= dist
                    as int * abs_val(dy as int)) by (nonlinear_arith)
                    requires
                        0 <= amount as int <= dist as int,
                        abs_val(dy as int) >= 0,
                        (dy as int == abs_val(dy as int) || dy as int == -abs_val(dy as int)),
                ;
                lemma_tdiv_mag(dx as int * (amount as int), dist as int, abs_val(dx as int));
                lemma_tdiv_mag(dy as int * (amount as int), dist as int, abs_val(dy as int));
            }
            let cx: i64 = div_trunc_wide((dx as i128) * (amount as i128), dist as i128) as i64;
            let cy: i64 = div_trunc_wide((dy as i128) * (amount as i128), dist as i128) as i64;
            Vec2 { x: self.x + cx, y: self.y + cy }
        }
    }
}

} // verus!
