//! Fixed-point scalar arithmetic: rounded division, quantization to an
//! interval, and the integer square root.
//!
//! A scalar stores `value * FX_ONE` rounded to the nearest integer, so the
//! spec functions here describe every rounding step exactly.

use vstd::arithmetic::div_mod::{
    lemma_fundamental_div_mod, lemma_mod_bound, lemma_mod_multiples_basic,
};
use vstd::prelude::*;

verus! {

/// Number of fixed-point units in one world-space unit.
pub const FX_ONE: i128 = 10_000;

/// Magnitude cap on the arguments of `rdiv_i` and `quantize_to_interval`
/// (2^125, far above anything the geometry produces).
pub const RDIV_LIM: i128 = 0x2000_0000_0000_0000_0000_0000_0000_0000;

/// Domain cap for `isqrt` (2^126).
pub const ISQRT_LIM: i128 = 0x4000_0000_0000_0000_0000_0000_0000_0000;

/// Absolute value of a mathematical integer.
pub open spec fn iabs(x: int) -> int {
    if x < 0 {
        -x
    } else {
        x
    }
}

/// Sign of a mathematical integer: -1, 0 or 1.
pub open spec fn sgn(x: int) -> int {
    if x > 0 {
        1
    } else if x < 0 {
        -1
    } else {
        0
    }
}

/// Rounded division for a positive divisor: the integer nearest to `a / b`,
/// ties rounded away from zero.
pub open spec fn rdiv_pos(a: int, b: int) -> int
    recommends
        b > 0,
{
    if a >= 0 {
        (2 * a + b) / (2 * b)
    } else {
        -((2 * (-a) + b) / (2 * b))
    }
}

/// Rounded division: the integer nearest to `a / b`, ties away from zero.
pub open spec fn rdiv(a: int, b: int) -> int
    recommends
        b != 0,
{
    if b >= 0 {
        rdiv_pos(a, b)
    } else {
        rdiv_pos(-a, -b)
    }
}

/// `rdiv(a, b) * b` misses `a` by at most half a divisor.
pub proof fn lemma_rdiv_rounds(a: int, b: int)
    requires
        b != 0,
    ensures
        2 * iabs(rdiv(a, b) * b - a) <= iabs(b),
{
    if b >= 0 {
        lemma_rdiv_pos_rounds(a, b);
    } else {
        lemma_rdiv_pos_rounds(-a, -b);
        let q = rdiv_pos(-a, -b);
        assert(q * b - a == -(q * (-b) - (-a))) by (nonlinear_arith);
    }
}

proof fn lemma_rdiv_pos_rounds(a: int, b: int)
    requires
        b > 0,
    ensures
        2 * iabs(rdiv_pos(a, b) * b - a) <= b,
{
    if a >= 0 {
        lemma_rdiv_nn_rounds(a, b);
    } else {
        lemma_rdiv_nn_rounds(-a, b);
        let q = (2 * (-a) + b) / (2 * b);
        assert((-q) * b - a == -(q * b - (-a))) by (nonlinear_arith);
    }
}

proof fn lemma_rdiv_nn_rounds(a: int, b: int)
    requires
        a >= 0,
        b > 0,
    ensures
        2 * iabs(((2 * a + b) / (2 * b)) * b - a) <= b,
{
    let q = (2 * a + b) / (2 * b);
    lemma_fundamental_div_mod(2 * a + b, 2 * b);
    lemma_mod_bound(2 * a + b, 2 * b);
    let r = (2 * a + b) % (2 * b);
    assert(2 * (q * b - a) == b - r) by (nonlinear_arith)
        requires
            2 * a + b == 2 * b * q + r,
    ;
}

/// `|a| <= cap * |b|` bounds the rounded quotient by `cap`.
pub proof fn lemma_rdiv_mag(a: int, b: int, cap: int)
    requires
        b != 0,
        0 <= cap,
        iabs(a) <= cap * iabs(b),
    ensures
        iabs(rdiv(a, b)) <= cap,
{
    lemma_rdiv_rounds(a, b);
    let q = rdiv(a, b);
    assert(2 * iabs(q * b - a) <= iabs(b));
    assert(iabs(q) <= cap) by (nonlinear_arith)
        requires
            b != 0,
            0 <= cap,
            iabs(a) <= cap * iabs(b),
            2 * iabs(q * b - a) <= iabs(b),
            iabs(b) == if b < 0 { -b } else { b },
            iabs(a) == if a < 0 { -a } else { a },
            iabs(q) == if q < 0 { -q } else { q },
            iabs(q * b - a) == if q * b - a < 0 { -(q * b - a) } else { q * b - a },
    ;
}

/// Rounded division, executable.  The ghost `cap` carries the magnitude
/// bound of `lemma_rdiv_mag` to the caller.
pub(crate) fn rdiv_i(a: i128, b: i128, Ghost(cap): Ghost<int>) -> (r: i128)
    requires
        b != 0,
        0 <= cap,
        iabs(a as int) <= cap * iabs(b as int),
        iabs(a as int) <= RDIV_LIM as int,
        iabs(b as int) <= RDIV_LIM as int,
    ensures
        r as int == rdiv(a as int, b as int),
        iabs(r as int) <= cap,
        iabs(r as int) <= iabs(a as int),
{
    let am: u128 = if a < 0 {
        (-a) as u128
    } else {
        a as u128
    };
    let bm: u128 = if b < 0 {
        (-b) as u128
    } else {
        b as u128
    };
    let q: u128 = (2 * am + bm) / (2 * bm);
    proof {
        let aa = a as int;
        let bb = b as int;
        lemma_rdiv_mag(aa, bb, cap);
        assert(iabs(aa) <= iabs(aa) * iabs(bb)) by (nonlinear_arith)
            requires
                iabs(bb) >= 1,
                iabs(aa) >= 0,
        ;
        lemma_rdiv_mag(aa, bb, iabs(aa));
        assert(q as int == (2 * iabs(aa) + iabs(bb)) / (2 * iabs(bb)));
        if bb >= 0 {
            if aa >= 0 {
                assert(rdiv(aa, bb) == q as int);
            } else {
                assert(rdiv(aa, bb) == -(q as int));
            }
        } else {
            if aa > 0 {
                assert(rdiv(aa, bb) == rdiv_pos(-aa, -bb));
                assert(rdiv_pos(-aa, -bb) == -((2 * aa + (-bb)) / (2 * (-bb))));
                assert(rdiv(aa, bb) == -(q as int));
            } else if aa == 0 {
                lemma_fundamental_div_mod(iabs(bb), 2 * iabs(bb));
                lemma_mod_bound(iabs(bb), 2 * iabs(bb));
                assert(iabs(bb) / (2 * iabs(bb)) == 0) by (nonlinear_arith)
                    requires
                        iabs(bb) >= 1,
                        iabs(bb) == 2 * iabs(bb) * (iabs(bb) / (2 * iabs(bb))) + iabs(bb) % (2
                            * iabs(bb)),
                        0 <= iabs(bb) % (2 * iabs(bb)) < 2 * iabs(bb),
                ;
                assert(rdiv(aa, bb) == 0);
                assert(q as int == 0);
            } else {
                assert(rdiv(aa, bb) == rdiv_pos(-aa, -bb));
                assert(rdiv(aa, bb) == q as int);
            }
        }
    }
    if (a < 0) != (b < 0) {
        -(q as i128)
    } else {
        q as i128
    }
}

/// Product guarded by magnitude caps, so the multiplication cannot overflow.
pub(crate) fn mul_c(a: i128, b: i128, Ghost(ca): Ghost<int>, Ghost(cb): Ghost<int>) -> (r: i128)
    requires
        0 <= ca,
        0 <= cb,
        iabs(a as int) <= ca,
        iabs(b as int) <= cb,
        ca * cb <= i128::MAX as int,
    ensures
        r as int == a as int * b as int,
        iabs(r as int) <= ca * cb,
{
    proof {
        let aa = a as int;
        let bb = b as int;
        assert(-(ca * cb) <= aa * bb <= ca * cb) by (nonlinear_arith)
            requires
                -ca <= aa <= ca,
                -cb <= bb <= cb,
                0 <= ca,
                0 <= cb,
        ;
    }
    a * b
}

/// The nearest multiple of `interval` (ties away from zero); a non-positive
/// interval leaves the value unchanged.
pub open spec fn quant(x: int, interval: int) -> int {
    if interval <= 0 {
        x
    } else {
        interval * rdiv(x, interval)
    }
}

/// Maps a scalar to the nearest multiple of `interval`; `interval <= 0`
/// selects the no-op policy rather than an error.
pub fn quantize_to_interval(x: i128, interval: i128) -> (r: i128)
    requires
        iabs(x as int) <= RDIV_LIM as int,
        iabs(interval as int) <= RDIV_LIM as int,
    ensures
        r as int == quant(x as int, interval as int),
        iabs(r as int) <= iabs(x as int) + iabs(interval as int),
{
    if interval <= 0 {
        x
    } else {
        let ghost xi = x as int;
        let ghost iv = interval as int;
        let ghost q0 = iabs(xi) / iv;
        proof {
            lemma_fundamental_div_mod(iabs(xi), iv);
            lemma_mod_bound(iabs(xi), iv);
            assert(iabs(xi) <= (q0 + 1) * iv) by (nonlinear_arith)
                requires
                    iabs(xi) == iv * q0 + iabs(xi) % iv,
                    0 <= iabs(xi) % iv < iv,
            ;
            assert((q0 + 1) * iv == (q0 + 1) * iabs(iv));
        }
        let k = rdiv_i(x, interval, Ghost(q0 + 1));
        proof {
            lemma_rdiv_rounds(xi, iv);
            let kk = rdiv(xi, iv);
            assert(iabs(iv * kk) <= iabs(xi) + iv) by (nonlinear_arith)
                requires
                    2 * iabs(kk * iv - xi) <= iabs(iv),
                    iv > 0,
                    iabs(iv) == iv,
                    iabs(xi) == if xi < 0 { -xi } else { xi },
                    iabs(kk * iv - xi) == if kk * iv - xi < 0 { -(kk * iv - xi) } else { kk * iv - xi },
                    iabs(iv * kk) == if iv * kk < 0 { -(iv * kk) } else { iv * kk },
            ;
        }
        interval * k
    }
}

/// Law: for a positive interval, `quant(x, interval)` is an exact multiple
/// of the interval and is at least as close to `x` as any other multiple.
pub proof fn lemma_quant_nearest(x: int, interval: int)
    requires
        interval > 0,
    ensures
        quant(x, interval) % interval == 0,
        2 * iabs(quant(x, interval) - x) <= interval,
        forall|m: int| iabs(quant(x, interval) - x) <= iabs(#[trigger] (m * interval) - x),
{
    let k = rdiv(x, interval);
    lemma_rdiv_rounds(x, interval);
    lemma_mod_multiples_basic(k, interval);
    assert(interval * k == k * interval) by (nonlinear_arith);
    assert(quant(x, interval) % interval == 0);
    assert(2 * iabs(quant(x, interval) - x) <= interval);
    assert forall|m: int| iabs(quant(x, interval) - x) <= iabs(#[trigger] (m * interval) - x) by {
        if m != k {
            assert(iabs(m * interval - k * interval) >= interval) by (nonlinear_arith)
                requires
                    m != k,
                    interval > 0,
            ;
            assert(2 * iabs(m * interval - x) >= 2 * iabs(m * interval - k * interval) - 2 * iabs(
                k * interval - x,
            ));
        }
    }
}

/// A quotient rounded down still covers the dividend after one more step.
pub proof fn lemma_div_cap(n: int, d: int)
    requires
        0 <= n,
        0 < d,
    ensures
        n <= (n / d + 1) * d,
{
    lemma_fundamental_div_mod(n, d);
    lemma_mod_bound(n, d);
    assert(n <= (n / d + 1) * d) by (nonlinear_arith)
        requires
            n == d * (n / d) + n % d,
            0 <= n % d < d,
    ;
}

/// `r` is the integer square root of `n`, rounded down.
pub open spec fn is_isqrt(n: int, r: int) -> bool {
    0 <= r && r * r <= n && n < (r + 1) * (r + 1)
}

/// The integer square root (uniquely characterized by `is_isqrt`).
pub open spec fn isqrt_s(n: int) -> int {
    choose|r: int| is_isqrt(n, r)
}

pub proof fn lemma_isqrt_exists(n: int)
    requires
        0 <= n,
    ensures
        is_isqrt(n, isqrt_s(n)),
    decreases n,
{
    if n == 0 {
        assert(is_isqrt(0, 0));
    } else {
        lemma_isqrt_exists(n - 1);
        let r = isqrt_s(n - 1);
        if n < (r + 1) * (r + 1) {
            assert(is_isqrt(n, r));
        } else {
            assert(is_isqrt(n, r + 1)) by (nonlinear_arith)
                requires
                    0 <= r,
                    r * r <= n - 1,
                    n - 1 < (r + 1) * (r + 1),
                    (r + 1) * (r + 1) <= n,
            ;
        }
        assert(is_isqrt(n, isqrt_s(n)));
    }
}

pub proof fn lemma_isqrt_unique(n: int, r1: int, r2: int)
    requires
        is_isqrt(n, r1),
        is_isqrt(n, r2),
    ensures
        r1 == r2,
{
    if r1 < r2 {
        assert(false) by (nonlinear_arith)
            requires
                0 <= r1 < r2,
                r2 * r2 <= n,
                n < (r1 + 1) * (r1 + 1),
        ;
    }
    if r2 < r1 {
        assert(false) by (nonlinear_arith)
            requires
                0 <= r2 < r1,
                r1 * r1 <= n,
                n < (r2 + 1) * (r2 + 1),
        ;
    }
}

/// Integer square root, rounded down.
pub fn isqrt(n: i128) -> (r: i128)
    requires
        0 <= n,
        n < ISQRT_LIM as int,
    ensures
        r as int == isqrt_s(n as int),
        is_isqrt(n as int, r as int),
        0 <= r,
{
    let mut lo: i128 = 0;
    let mut hi: i128 = 0x8000_0000_0000_0000;
    proof {
        assert((0x8000_0000_0000_0000 as int) * (0x8000_0000_0000_0000 as int) == ISQRT_LIM as int)
            by (nonlinear_arith);
    }
    while lo + 1 < hi
        invariant
            0 <= lo < hi <= 0x8000_0000_0000_0000,
            lo as int * lo as int <= n as int,
            (n as int) < hi as int * hi as int,
            0 <= n,
            n < ISQRT_LIM as int,
        decreases hi - lo,
    {
        let mid: i128 = lo + (hi - lo) / 2;
        proof {
            assert(lo < mid < hi);
            assert(mid as int * mid as int <= ISQRT_LIM as int) by (nonlinear_arith)
                requires
                    0 <= mid as int <= 0x8000_0000_0000_0000,
                    ISQRT_LIM as int == (0x8000_0000_0000_0000 as int) * (
                    0x8000_0000_0000_0000 as int),
            ;
        }
        if mid * mid <= n {
            lo = mid;
        } else {
            hi = mid;
        }
    }
    proof {
        assert(is_isqrt(n as int, lo as int));
        lemma_isqrt_exists(n as int);
        lemma_isqrt_unique(n as int, lo as int, isqrt_s(n as int));
    }
    lo
}

} // verus!
