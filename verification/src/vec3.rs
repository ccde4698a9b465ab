//! Fixed-point 3-vectors and orientation matrices.
//!
//! A `Vec3` stores each coordinate as a fixed-point scalar (`FX_ONE` units
//! per world unit).  The spec functions model every operation over triples
//! of mathematical integers, including the rounding of the scale-preserving
//! products, so exec results are pinned exactly.

use crate::math::{
    iabs, lemma_div_cap, mul_c, rdiv, rdiv_i, FX_ONE, RDIV_LIM,
};
use vstd::prelude::*;

verus! {

/// A 3-vector of fixed-point coordinates.
#[derive(Clone, Copy, Debug, PartialEq, Eq, Structural)]
pub struct Vec3 {
    pub x: i128,
    pub y: i128,
    pub z: i128,
}

/// An orientation, stored as the three rows of a rotation matrix, each row
/// a fixed-point vector (the identity has rows `(FX_ONE,0,0)` etc.).
#[derive(Clone, Copy, Debug, PartialEq, Eq, Structural)]
pub struct Mat3 {
    pub rx: Vec3,
    pub ry: Vec3,
    pub rz: Vec3,
}

/// The mathematical value of a vector: its coordinates as integers.
pub open spec fn v3(v: Vec3) -> (int, int, int) {
    (v.x as int, v.y as int, v.z as int)
}

/// All three coordinates bounded by `cap` in magnitude.
pub open spec fn ok3(t: (int, int, int), cap: int) -> bool {
    iabs(t.0) <= cap && iabs(t.1) <= cap && iabs(t.2) <= cap
}

pub open spec fn add3(a: (int, int, int), b: (int, int, int)) -> (int, int, int) {
    (a.0 + b.0, a.1 + b.1, a.2 + b.2)
}

pub open spec fn sub3(a: (int, int, int), b: (int, int, int)) -> (int, int, int) {
    (a.0 - b.0, a.1 - b.1, a.2 - b.2)
}

pub open spec fn neg3(a: (int, int, int)) -> (int, int, int) {
    (-a.0, -a.1, -a.2)
}

/// Dot product at raw scale: the exact integer sum of coordinate products
/// (scale `FX_ONE * FX_ONE` when both arguments are fixed-point vectors).
pub open spec fn dot3(a: (int, int, int), b: (int, int, int)) -> int {
    a.0 * b.0 + a.1 * b.1 + a.2 * b.2
}

/// Scale-preserving cross product: each raw coordinate is divided by
/// `FX_ONE` with rounding to nearest.
pub open spec fn crs3(a: (int, int, int), b: (int, int, int)) -> (int, int, int) {
    (
        rdiv(a.1 * b.2 - a.2 * b.1, FX_ONE as int),
        rdiv(a.2 * b.0 - a.0 * b.2, FX_ONE as int),
        rdiv(a.0 * b.1 - a.1 * b.0, FX_ONE as int),
    )
}

/// Scale-preserving product with a fixed-point scalar `k`.
pub open spec fn scl3(a: (int, int, int), k: int) -> (int, int, int) {
    (
        rdiv(a.0 * k, FX_ONE as int),
        rdiv(a.1 * k, FX_ONE as int),
        rdiv(a.2 * k, FX_ONE as int),
    )
}

/// Product with a plain integer sign (`-1`, `0` or `1`).
pub open spec fn sgn3(a: (int, int, int), s: int) -> (int, int, int) {
    (a.0 * s, a.1 * s, a.2 * s)
}

/// Rotation: each coordinate is the fixed-point dot of a matrix row with
/// the vector.
pub open spec fn rot3(m: Mat3, u: (int, int, int)) -> (int, int, int) {
    (
        rdiv(dot3(v3(m.rx), u), FX_ONE as int),
        rdiv(dot3(v3(m.ry), u), FX_ONE as int),
        rdiv(dot3(v3(m.rz), u), FX_ONE as int),
    )
}

/// All matrix rows bounded by `cap`.
pub open spec fn okm(m: Mat3, cap: int) -> bool {
    ok3(v3(m.rx), cap) && ok3(v3(m.ry), cap) && ok3(v3(m.rz), cap)
}

pub(crate) fn v_add(a: Vec3, b: Vec3, Ghost(cap): Ghost<int>) -> (r: Vec3)
    requires
        ok3(v3(a), cap),
        ok3(v3(b), cap),
        2 * cap <= i128::MAX as int,
    ensures
        v3(r) == add3(v3(a), v3(b)),
        ok3(v3(r), 2 * cap),
{
    Vec3 { x: a.x + b.x, y: a.y + b.y, z: a.z + b.z }
}

pub(crate) fn v_sub(a: Vec3, b: Vec3, Ghost(cap): Ghost<int>) -> (r: Vec3)
    requires
        ok3(v3(a), cap),
        ok3(v3(b), cap),
        2 * cap <= i128::MAX as int,
    ensures
        v3(r) == sub3(v3(a), v3(b)),
        ok3(v3(r), 2 * cap),
{
    Vec3 { x: a.x - b.x, y: a.y - b.y, z: a.z - b.z }
}

pub(crate) fn v_neg(a: Vec3, Ghost(cap): Ghost<int>) -> (r: Vec3)
    requires
        ok3(v3(a), cap),
        cap <= i128::MAX as int,
    ensures
        v3(r) == neg3(v3(a)),
        ok3(v3(r), cap),
{
    Vec3 { x: -a.x, y: -a.y, z: -a.z }
}

/// Exact raw-scale dot product.
pub(crate) fn v_dot(a: Vec3, b: Vec3, Ghost(ca): Ghost<int>, Ghost(cb): Ghost<int>) -> (r: i128)
    requires
        0 <= ca,
        0 <= cb,
        ok3(v3(a), ca),
        ok3(v3(b), cb),
        3 * (ca * cb) <= i128::MAX as int,
    ensures
        r as int == dot3(v3(a), v3(b)),
        iabs(r as int) <= 3 * (ca * cb),
{
    let px: i128 = mul_c(a.x, b.x, Ghost(ca), Ghost(cb));
    let py: i128 = mul_c(a.y, b.y, Ghost(ca), Ghost(cb));
    let pz: i128 = mul_c(a.z, b.z, Ghost(ca), Ghost(cb));
    px + py + pz
}

/// Scale-preserving cross product.
pub(crate) fn v_cross(a: Vec3, b: Vec3, Ghost(ca): Ghost<int>, Ghost(cb): Ghost<int>) -> (r: Vec3)
    requires
        0 <= ca,
        0 <= cb,
        ok3(v3(a), ca),
        ok3(v3(b), cb),
        2 * (ca * cb) <= RDIV_LIM as int,
    ensures
        v3(r) == crs3(v3(a), v3(b)),
        ok3(v3(r), 2 * (ca * cb) / (FX_ONE as int) + 1),
{
    let ghost cap = 2 * (ca * cb) / (FX_ONE as int) + 1;
    proof {
        lemma_div_cap(2 * (ca * cb), FX_ONE as int);
    }
    let p1: i128 = mul_c(a.y, b.z, Ghost(ca), Ghost(cb));
    let p2: i128 = mul_c(a.z, b.y, Ghost(ca), Ghost(cb));
    let p3: i128 = mul_c(a.z, b.x, Ghost(ca), Ghost(cb));
    let p4: i128 = mul_c(a.x, b.z, Ghost(ca), Ghost(cb));
    let p5: i128 = mul_c(a.x, b.y, Ghost(ca), Ghost(cb));
    let p6: i128 = mul_c(a.y, b.x, Ghost(ca), Ghost(cb));
    let rx: i128 = rdiv_i(p1 - p2, FX_ONE, Ghost(cap));
    let ry: i128 = rdiv_i(p3 - p4, FX_ONE, Ghost(cap));
    let rz: i128 = rdiv_i(p5 - p6, FX_ONE, Ghost(cap));
    Vec3 { x: rx, y: ry, z: rz }
}

/// Scale-preserving product with a fixed-point scalar.
pub(crate) fn v_scale(v: Vec3, k: i128, Ghost(cv): Ghost<int>, Ghost(ck): Ghost<int>) -> (r: Vec3)
    requires
        0 <= cv,
        0 <= ck,
        ok3(v3(v), cv),
        iabs(k as int) <= ck,
        cv * ck <= RDIV_LIM as int,
    ensures
        v3(r) == scl3(v3(v), k as int),
        ok3(v3(r), cv * ck / (FX_ONE as int) + 1),
{
    let ghost cap = cv * ck / (FX_ONE as int) + 1;
    proof {
        lemma_div_cap(cv * ck, FX_ONE as int);
    }
    let px: i128 = mul_c(v.x, k, Ghost(cv), Ghost(ck));
    let py: i128 = mul_c(v.y, k, Ghost(cv), Ghost(ck));
    let pz: i128 = mul_c(v.z, k, Ghost(cv), Ghost(ck));
    let rx: i128 = rdiv_i(px, FX_ONE, Ghost(cap));
    let ry: i128 = rdiv_i(py, FX_ONE, Ghost(cap));
    let rz: i128 = rdiv_i(pz, FX_ONE, Ghost(cap));
    Vec3 { x: rx, y: ry, z: rz }
}

/// Product with a sign in `{-1, 0, 1}`.
pub(crate) fn v_sgn(v: Vec3, s: i128, Ghost(cap): Ghost<int>) -> (r: Vec3)
    requires
        s == -1 || s == 0 || s == 1,
        ok3(v3(v), cap),
        cap <= i128::MAX as int,
    ensures
        v3(r) == sgn3(v3(v), s as int),
        ok3(v3(r), cap),
{
    proof {
        assert(v.x as int * 1 == v.x as int) by (nonlinear_arith);
        assert(v.y as int * 1 == v.y as int) by (nonlinear_arith);
        assert(v.z as int * 1 == v.z as int) by (nonlinear_arith);
        assert(v.x as int * -1 == -(v.x as int)) by (nonlinear_arith);
        assert(v.y as int * -1 == -(v.y as int)) by (nonlinear_arith);
        assert(v.z as int * -1 == -(v.z as int)) by (nonlinear_arith);
        assert(v.x as int * 0 == 0) by (nonlinear_arith);
        assert(v.y as int * 0 == 0) by (nonlinear_arith);
        assert(v.z as int * 0 == 0) by (nonlinear_arith);
    }
    if s == 1 {
        v
    } else if s == -1 {
        Vec3 { x: -v.x, y: -v.y, z: -v.z }
    } else {
        Vec3 { x: 0, y: 0, z: 0 }
    }
}

/// Rotation of a vector by an orientation matrix.
pub(crate) fn v_rot(m: Mat3, u: Vec3, Ghost(cm): Ghost<int>, Ghost(cu): Ghost<int>) -> (r: Vec3)
    requires
        0 <= cm,
        0 <= cu,
        okm(m, cm),
        ok3(v3(u), cu),
        3 * (cm * cu) <= RDIV_LIM as int,
    ensures
        v3(r) == rot3(m, v3(u)),
        ok3(v3(r), 3 * (cm * cu) / (FX_ONE as int) + 1),
{
    let ghost cap = 3 * (cm * cu) / (FX_ONE as int) + 1;
    proof {
        lemma_div_cap(3 * (cm * cu), FX_ONE as int);
    }
    let dx: i128 = v_dot(m.rx, u, Ghost(cm), Ghost(cu));
    let dy: i128 = v_dot(m.ry, u, Ghost(cm), Ghost(cu));
    let dz: i128 = v_dot(m.rz, u, Ghost(cm), Ghost(cu));
    let rx: i128 = rdiv_i(dx, FX_ONE, Ghost(cap));
    let ry: i128 = rdiv_i(dy, FX_ONE, Ghost(cap));
    let rz: i128 = rdiv_i(dz, FX_ONE, Ghost(cap));
    Vec3 { x: rx, y: ry, z: rz }
}

} // verus!
