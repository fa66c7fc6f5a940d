//! Integer helpers for the fixed-point force law: a floor square root and
//! truncated (round-toward-zero) division, with the lemmas the force pass
//! needs about them.

use vstd::prelude::*;
use vstd::arithmetic::div_mod::{
    lemma_div_by_multiple, lemma_div_denominator, lemma_div_is_ordered,
    lemma_div_is_ordered_by_denominator, lemma_div_pos_is_pos,
};
use vstd::arithmetic::mul::lemma_mul_upper_bound;
use vstd::math::abs;

verus! {

/// The floor of the square root of `n`.
pub open spec fn sqrt_floor(n: nat) -> nat
    decreases n,
{
    if n == 0 {
        0
    } else {
        let p = sqrt_floor((n - 1) as nat);
        if (p + 1) * (p + 1) <= n {
            p + 1
        } else {
            p
        }
    }
}

/// `sqrt_floor(n)` is the unique `r` with `r^2 <= n < (r+1)^2`.
pub proof fn lemma_sqrt_floor_bounds(n: nat)
    ensures
        sqrt_floor(n) * sqrt_floor(n) <= n,
        n < (sqrt_floor(n) + 1) * (sqrt_floor(n) + 1),
    decreases n,
{
    if n == 0 {
        assert(sqrt_floor(n) == 0);
        assert(sqrt_floor(n) * sqrt_floor(n) <= n) by (nonlinear_arith)
            requires n == 0nat, sqrt_floor(n) == 0,
        ;
        assert(n < (sqrt_floor(n) + 1) * (sqrt_floor(n) + 1)) by (nonlinear_arith)
            requires n == 0nat, sqrt_floor(n) == 0,
        ;
    } else {
        lemma_sqrt_floor_bounds((n - 1) as nat);
        let p = sqrt_floor((n - 1) as nat);
        if (p + 1) * (p + 1) <= n {
            assert(sqrt_floor(n) == p + 1);
            assert(sqrt_floor(n) * sqrt_floor(n) <= n) by (nonlinear_arith)
                requires sqrt_floor(n) == p + 1, (p + 1) * (p + 1) <= n,
            ;
            assert(n < (sqrt_floor(n) + 1) * (sqrt_floor(n) + 1)) by (nonlinear_arith)
                requires sqrt_floor(n) == p + 1, n - 1 < (p + 1) * (p + 1),
            ;
        } else {
            assert(sqrt_floor(n) == p);
            assert(sqrt_floor(n) * sqrt_floor(n) <= n) by (nonlinear_arith)
                requires sqrt_floor(n) == p, p * p <= n - 1,
            ;
            assert(n < (sqrt_floor(n) + 1) * (sqrt_floor(n) + 1)) by (nonlinear_arith)
                requires sqrt_floor(n) == p, !((p + 1) * (p + 1) <= n),
            ;
        }
    }
}

/// Any `r` satisfying the square-root bracketing equals `sqrt_floor(n)`.
pub proof fn lemma_sqrt_floor_unique(n: nat, r: nat)
    requires
        r * r <= n,
        n < (r + 1) * (r + 1),
    ensures
        r == sqrt_floor(n),
{
    lemma_sqrt_floor_bounds(n);
    let s = sqrt_floor(n);
    assert(r == s) by (nonlinear_arith)
        requires
            r * r <= n,
            n < (r + 1) * (r + 1),
            s * s <= n,
            n < (s + 1) * (s + 1),
    ;
}

/// Division rounded toward zero, as the machine division of signed
/// integers behaves for a positive divisor.
pub open spec fn div_trunc(a: int, b: int) -> int {
    if a >= 0 {
        a / b
    } else {
        -((-a) / b)
    }
}

/// For a positive divisor, the magnitude of a truncated quotient is the
/// floor quotient of the magnitudes.
pub proof fn lemma_div_trunc_mag(a: int, b: int)
    requires
        b >= 1,
    ensures
        abs(div_trunc(a, b)) == abs(a) as int / b,
        a >= 0 ==> div_trunc(a, b) >= 0,
        a < 0 ==> div_trunc(a, b) <= 0,
{
    if a >= 0 {
        lemma_div_pos_is_pos(a, b);
    } else {
        lemma_div_pos_is_pos(-a, b);
    }
}

/// Dividing three times by `r` is dividing once by `r^3`.
pub proof fn lemma_div_trunc_chain3(x: int, r: int)
    requires
        r >= 1,
    ensures
        div_trunc(div_trunc(div_trunc(x, r), r), r) == div_trunc(x, r * r * r),
{
    let m = abs(x) as int;
    lemma_div_pos_is_pos(m, r);
    lemma_div_pos_is_pos(m / r, r);
    lemma_div_denominator(m, r, r);
    lemma_div_denominator(m, r * r, r);
    assert(r * r * r == (r * r) * r) by (nonlinear_arith);
    assert(((m / r) / r) / r == m / (r * r * r));
    if x >= 0 {
        assert(div_trunc(div_trunc(div_trunc(x, r), r), r) == ((m / r) / r) / r);
    } else {
        assert(div_trunc(x, r) == -(m / r));
        if m / r == 0 {
            assert(div_trunc(div_trunc(x, r), r) == 0int / r);
            assert(0int / r == 0) by {
                lemma_div_by_multiple(0int, r);
            }
            assert((m / r) / r == 0) by {
                lemma_div_by_multiple(0int, r);
            }
        } else {
            assert(div_trunc(div_trunc(x, r), r) == -((m / r) / r));
        }
        if (m / r) / r == 0 {
            assert(div_trunc(div_trunc(div_trunc(x, r), r), r) == 0int / r);
            assert(0int / r == 0) by {
                lemma_div_by_multiple(0int, r);
            }
            assert(((m / r) / r) / r == 0) by {
                lemma_div_by_multiple(0int, r);
            }
        } else {
            lemma_div_pos_is_pos((m / r) / r, r);
            assert(div_trunc(div_trunc(div_trunc(x, r), r), r) == -(((m / r) / r) / r));
        }
        lemma_div_pos_is_pos(m, r * r * r);
        assert(r * r * r >= 1) by (nonlinear_arith)
            requires r >= 1,
        ;
    }
}

/// Shrinking the magnitude of the dividend shrinks the magnitude of a
/// truncated quotient; the bound `abs(x) <= c * r` yields the closed-form
/// bound `c / r^2` on the quotient by `r^3`.
pub proof fn lemma_div_trunc_cube_bound(x: int, r: int, c: int)
    requires
        r >= 1,
        c >= 0,
        abs(x) <= c * r,
    ensures
        abs(div_trunc(x, r * r * r)) <= c / (r * r),
{
    let rrr = r * r * r;
    assert(r * r * r >= 1) by (nonlinear_arith)
        requires r >= 1,
    ;
    lemma_div_trunc_mag(x, rrr);
    lemma_div_is_ordered(abs(x) as int, c * r, rrr);
    assert(r * r * r == r * (r * r)) by (nonlinear_arith);
    lemma_div_denominator(c * r, r, r * r);
    assert(r * r >= 1) by (nonlinear_arith)
        requires r >= 1,
    ;
    lemma_div_by_multiple(c, r);
    assert((c * r) / r == c);
}

/// A truncated quotient by a denominator at least `d` is bounded by the
/// quotient of the magnitude bound by `d`.
pub proof fn lemma_div_bound_by_denominator(x: int, d: int, e: int)
    requires
        1 <= d <= e,
        x >= 0,
    ensures
        x / e <= x / d,
{
    lemma_div_is_ordered_by_denominator(x, d, e);
}

/// Magnitude bounds on the factors give a magnitude bound on a product.
pub proof fn lemma_mul_abs_bound(a: int, b: int, ab: int, bb: int)
    requires
        abs(a) <= ab,
        abs(b) <= bb,
    ensures
        abs(a * b) <= ab * bb,
{
    assert(-(ab * bb) <= a * b <= ab * bb) by (nonlinear_arith)
        requires -ab <= a <= ab, -bb <= b <= bb,
    ;
}

/// Truncated division of machine integers, named so that callers can tie the
/// machine result to `div_trunc` without repeating the sign analysis.
pub fn div_trunc_i128(a: i128, b: i128) -> (q: i128)
    requires
        b >= 1,
    ensures
        q as int == div_trunc(a as int, b as int),
        abs(q as int) <= abs(a as int),
{
    proof {
        lemma_div_trunc_mag(a as int, b as int);
        vstd::arithmetic::div_mod::lemma_div_nonincreasing(abs(a as int) as int, b as int);
    }
    a / b
}

/// An executable floor square root over the full `u128` range.
pub fn isqrt(n: u128) -> (r: u64)
    ensures
        r as nat == sqrt_floor(n as nat),
{
    let mut lo: u128 = 0;
    let mut hi: u128 = 0xFFFF_FFFF_FFFF_FFFF;
    proof {
        assert((hi as int + 1) * (hi as int + 1) > n as int) by (nonlinear_arith)
            requires n <= u128::MAX, hi == 0xFFFF_FFFF_FFFF_FFFFu128,
        ;
    }
    while lo < hi
        invariant
            lo <= hi,
            hi <= 0xFFFF_FFFF_FFFF_FFFF,
            lo * lo <= n,
            (hi as int + 1) * (hi as int + 1) > n as int,
        decreases hi - lo,
    {
        let mid = lo + (hi - lo + 1) / 2;
        proof {
            assert(lo < mid <= hi);
            lemma_mul_upper_bound(mid as int, 0xFFFF_FFFF_FFFF_FFFFint, mid as int, 0xFFFF_FFFF_FFFF_FFFFint);
        }
        if mid * mid <= n {
            lo = mid;
        } else {
            hi = mid - 1;
        }
    }
    proof {
        lemma_sqrt_floor_unique(n as nat, lo as nat);
    }
    lo as u64
}

} // verus!
