//! The translation handle: pick/drag protocol, drag-point geometry and
//! snapping.
//!
//! Geometry follows the classic constructions: the drag point of an axis
//! handle is the closest point on the axis line to the pointer ray (the
//! 2x2 normal-equations solution for two skew lines), the drag point of a
//! plane handle is the ray/plane intersection, and snapping quantizes the
//! drag delta to multiples of the configured snap distance.

use crate::math::{
    iabs, is_isqrt, isqrt, isqrt_s, lemma_isqrt_exists, lemma_isqrt_unique, lemma_quant_nearest,
    lemma_rdiv_rounds, mul_c, quant, quantize_to_interval, rdiv, rdiv_i, sgn, FX_ONE,
};
use crate::vec3::{
    add3, crs3, dot3, neg3, ok3, okm, rot3, scl3, sgn3, sub3, v3, v_add, v_cross, v_dot, v_neg,
    v_rot, v_scale, v_sgn, v_sub, Mat3, Vec3,
};
use vstd::arithmetic::div_mod::{
    lemma_div_pos_is_pos, lemma_fundamental_div_mod, lemma_fundamental_div_mod_converse,
    lemma_mod_bound,
};
use vstd::prelude::*;

verus! {

/// Magnitude cap on configuration coordinates, ray coordinates and the
/// snap distance (10^4 world units).
pub const CFG_MAX: i128 = 100_000_000;

/// Cap on a clamped ray/axis parameter (10^8 world units of travel).
pub const T_MAX: i128 = 1_000_000_000_000;

/// Cap on the coordinates of a handle normal or in-plane basis vector.
pub const NRM_MAX: i128 = 30_001;

/// Cap on the coordinates of a freshly computed drag point or grab point.
pub const RAW_MAX: i128 = 100_000_000_000_000_000;

/// Cap on the coordinates of a delta handed to the snap functions.
pub const DELTA_IN_MAX: i128 = 400_000_000_000_000_000;

/// Cap on the coordinates of a snapped delta.
pub const SNAP_MAX: i128 = 50_000_000_000_000_000_000;

/// Cap on the coordinates held in the interaction state.
pub const LAST_MAX: i128 = 100_000_000_000_000_000_000;

/// Which geometry a translation handle drags along.
#[derive(Clone, Copy, Debug, PartialEq, Eq, Structural)]
pub enum TransformKind {
    Axis,
    Plane,
}

/// The configured cardinal direction of a handle.
#[derive(Clone, Copy, Debug, PartialEq, Eq, Structural)]
pub enum GizmoDirection {
    X,
    Y,
    Z,
}

/// The transform mode a result reports.
#[derive(Clone, Copy, Debug, PartialEq, Eq, Structural)]
pub enum GizmoMode {
    Translate,
}

/// A pointer ray cast into the scene, supplied fresh each frame.
#[derive(Clone, Copy, Debug, PartialEq, Eq, Structural)]
pub struct Ray {
    pub origin: Vec3,
    pub direction: Vec3,
}

/// Shared handle configuration, owned by the caller and read-only here
/// except that the emitted result carries an updated translation.
#[derive(Clone, Copy, Debug, PartialEq, Eq, Structural)]
pub struct HandleConfig {
    pub translation: Vec3,
    pub rotation: Mat3,
    pub scale: Vec3,
    pub snapping: bool,
    pub snap_distance: i128,
    pub local_space: bool,
    pub direction: GizmoDirection,
    pub transform_kind: TransformKind,
}

/// Transient per-handle interaction state, fully reset by every pick.
#[derive(Clone, Copy, Debug, PartialEq, Eq, Structural)]
pub struct TranslationState {
    pub start_point: Vec3,
    pub last_point: Vec3,
    pub current_delta: Vec3,
}

/// What the caller's hit-test collaborator reports for the pointer ray.
#[derive(Clone, Copy, Debug, PartialEq, Eq, Structural)]
pub struct HitTestResult {
    pub picked: bool,
    pub t: i128,
    pub visibility: i128,
    pub point: Vec3,
}

/// The per-frame output bundle of a successful update.
#[derive(Clone, Copy, Debug, PartialEq, Eq, Structural)]
pub struct GizmoResult {
    pub scale: Vec3,
    pub rotation: Mat3,
    pub translation: Vec3,
    pub mode: GizmoMode,
    pub value: Vec3,
}

/// A translation handle: configuration, interaction state and the opacity
/// the last pick decided.
#[derive(Clone, Copy, Debug, PartialEq, Eq, Structural)]
pub struct TranslationSubGizmo {
    pub config: HandleConfig,
    pub state: TranslationState,
    pub opacity: i128,
}

impl Default for TranslationState {
    /// The zero-initialized state that precedes any interaction.
    fn default() -> (s: Self)
        ensures
            v3(s.start_point) == (0int, 0int, 0int),
            v3(s.last_point) == (0int, 0int, 0int),
            v3(s.current_delta) == (0int, 0int, 0int),
    {
        TranslationState {
            start_point: Vec3 { x: 0, y: 0, z: 0 },
            last_point: Vec3 { x: 0, y: 0, z: 0 },
            current_delta: Vec3 { x: 0, y: 0, z: 0 },
        }
    }
}

/// The unit vector of a cardinal direction, in fixed-point coordinates.
pub open spec fn dir3(d: GizmoDirection) -> (int, int, int) {
    match d {
        GizmoDirection::X => (FX_ONE as int, 0int, 0int),
        GizmoDirection::Y => (0int, FX_ONE as int, 0int),
        GizmoDirection::Z => (0int, 0int, FX_ONE as int),
    }
}

/// First in-plane basis direction (binormal) for a handle direction.
pub open spec fn bin_dir3(d: GizmoDirection) -> (int, int, int) {
    match d {
        GizmoDirection::X => dir3(GizmoDirection::Y),
        GizmoDirection::Y => dir3(GizmoDirection::Z),
        GizmoDirection::Z => dir3(GizmoDirection::X),
    }
}

/// Second in-plane basis direction (tangent) for a handle direction.
pub open spec fn tan_dir3(d: GizmoDirection) -> (int, int, int) {
    match d {
        GizmoDirection::X => dir3(GizmoDirection::Z),
        GizmoDirection::Y => dir3(GizmoDirection::X),
        GizmoDirection::Z => dir3(GizmoDirection::Y),
    }
}

/// The handle's normal: its direction vector, rotated by the configured
/// orientation when local-space mode is active.
pub open spec fn normal3(c: HandleConfig) -> (int, int, int) {
    if c.local_space {
        rot3(c.rotation, dir3(c.direction))
    } else {
        dir3(c.direction)
    }
}

/// The in-plane binormal, rotated in local-space mode.
pub open spec fn binormal3(c: HandleConfig) -> (int, int, int) {
    if c.local_space {
        rot3(c.rotation, bin_dir3(c.direction))
    } else {
        bin_dir3(c.direction)
    }
}

/// The in-plane tangent, rotated in local-space mode.
pub open spec fn tangent3(c: HandleConfig) -> (int, int, int) {
    if c.local_space {
        rot3(c.rotation, tan_dir3(c.direction))
    } else {
        tan_dir3(c.direction)
    }
}

/// Clamp a scaled line parameter to the machine travel limit.
pub open spec fn clampt(t: int) -> int {
    if t > T_MAX as int {
        T_MAX as int
    } else if t < -(T_MAX as int) {
        -(T_MAX as int)
    } else {
        t
    }
}

/// Parameters of the mutually closest points of two lines `ao + s * ad`
/// and `bo + t * bd` (both parameters scaled by `FX_ONE`), from the 2x2
/// normal-equations system over the dot products.  A non-positive
/// determinant (parallel or degenerate directions) falls back to the
/// line origins.
pub open spec fn rr2(
    ao: (int, int, int),
    ad: (int, int, int),
    bo: (int, int, int),
    bd: (int, int, int),
) -> (int, int) {
    let a = dot3(ad, ad);
    let b = dot3(ad, bd);
    let c = dot3(bd, bd);
    let w = sub3(ao, bo);
    let d = dot3(ad, w);
    let e = dot3(bd, w);
    let den = a * c - b * b;
    if den <= 0 {
        (0int, 0int)
    } else {
        (
            clampt(rdiv((b * e - c * d) * (FX_ONE as int), den)),
            clampt(rdiv((a * e - b * d) * (FX_ONE as int), den)),
        )
    }
}

/// The scaled ray parameter of the ray/plane intersection (the plane has
/// normal `n` and passes through `o`); meaningful only when
/// `dot3(rd, n) != 0`.
pub open spec fn plane_t3(
    n: (int, int, int),
    o: (int, int, int),
    ro: (int, int, int),
    rd: (int, int, int),
) -> int {
    clampt(rdiv(dot3(sub3(o, ro), n) * (FX_ONE as int), dot3(rd, n)))
}

/// The ray/plane intersection point.
pub open spec fn plane_point3(n: (int, int, int), o: (int, int, int), r: Ray) -> (int, int, int) {
    add3(v3(r.origin), scl3(v3(r.direction), plane_t3(n, o, v3(r.origin), v3(r.direction))))
}

/// The closest point on the handle's axis line to the pointer ray.
pub open spec fn axis_point3(c: HandleConfig, r: Ray) -> (int, int, int) {
    let o = v3(c.translation);
    let n = normal3(c);
    let t = rr2(v3(r.origin), v3(r.direction), o, n).1;
    add3(o, scl3(n, t))
}

/// Configuration coordinates, rotation rows and snap distance in range.
pub open spec fn cfg_ok(c: HandleConfig) -> bool {
    &&& ok3(v3(c.translation), CFG_MAX as int)
    &&& ok3(v3(c.scale), CFG_MAX as int)
    &&& okm(c.rotation, FX_ONE as int)
    &&& iabs(c.snap_distance as int) <= CFG_MAX as int
}

/// Ray coordinates in range.
pub open spec fn ray_ok(r: Ray) -> bool {
    ok3(v3(r.origin), CFG_MAX as int) && ok3(v3(r.direction), CFG_MAX as int)
}

/// Interaction-state coordinates in range (established by `pick`,
/// preserved by `update`).
pub open spec fn state_ok(s: TranslationState) -> bool {
    &&& ok3(v3(s.start_point), RAW_MAX as int)
    &&& ok3(v3(s.last_point), LAST_MAX as int)
    &&& ok3(v3(s.current_delta), LAST_MAX as int)
}

fn clamp_i(t: i128) -> (r: i128)
    ensures
        r as int == clampt(t as int),
        iabs(r as int) <= T_MAX as int,
{
    if t > T_MAX {
        T_MAX
    } else if t < -T_MAX {
        -T_MAX
    } else {
        t
    }
}

fn sgn_i(x: i128) -> (s: i128)
    ensures
        s as int == sgn(x as int),
{
    if x > 0 {
        1
    } else if x < 0 {
        -1
    } else {
        0
    }
}

/// The handle direction as a fixed-point unit vector.
fn dir_vec(d: GizmoDirection) -> (v: Vec3)
    ensures
        v3(v) == dir3(d),
        ok3(v3(v), FX_ONE as int),
{
    match d {
        GizmoDirection::X => Vec3 { x: FX_ONE, y: 0, z: 0 },
        GizmoDirection::Y => Vec3 { x: 0, y: FX_ONE, z: 0 },
        GizmoDirection::Z => Vec3 { x: 0, y: 0, z: FX_ONE },
    }
}

/// Rotate a base direction by the configured orientation in local-space
/// mode; otherwise keep the world-space direction.
fn orient(c: &HandleConfig, base: Vec3) -> (v: Vec3)
    requires
        cfg_ok(*c),
        ok3(v3(base), FX_ONE as int),
    ensures
        v3(v) == if c.local_space {
            rot3(c.rotation, v3(base))
        } else {
            v3(base)
        },
        ok3(v3(v), NRM_MAX as int),
{
    if c.local_space {
        let r = v_rot(c.rotation, base, Ghost(FX_ONE as int), Ghost(FX_ONE as int));
        r
    } else {
        base
    }
}

/// The handle's normal vector.
pub fn normal(c: &HandleConfig) -> (n: Vec3)
    requires
        cfg_ok(*c),
    ensures
        v3(n) == normal3(*c),
        ok3(v3(n), NRM_MAX as int),
{
    let base = dir_vec(c.direction);
    orient(c, base)
}

/// The in-plane binormal vector.
fn binormal(c: &HandleConfig) -> (b: Vec3)
    requires
        cfg_ok(*c),
    ensures
        v3(b) == binormal3(*c),
        ok3(v3(b), NRM_MAX as int),
{
    let base = match c.direction {
        GizmoDirection::X => dir_vec(GizmoDirection::Y),
        GizmoDirection::Y => dir_vec(GizmoDirection::Z),
        GizmoDirection::Z => dir_vec(GizmoDirection::X),
    };
    orient(c, base)
}

/// The in-plane tangent vector.
fn tangent(c: &HandleConfig) -> (t: Vec3)
    requires
        cfg_ok(*c),
    ensures
        v3(t) == tangent3(*c),
        ok3(v3(t), NRM_MAX as int),
{
    let base = match c.direction {
        GizmoDirection::X => dir_vec(GizmoDirection::Z),
        GizmoDirection::Y => dir_vec(GizmoDirection::X),
        GizmoDirection::Z => dir_vec(GizmoDirection::Y),
    };
    orient(c, base)
}

/// Scaled parameters of the mutually closest points of two lines.
pub fn ray_to_ray(a_origin: Vec3, a_dir: Vec3, b_origin: Vec3, b_dir: Vec3) -> (ts: (
    i128,
    i128,
))
    requires
        ok3(v3(a_origin), CFG_MAX as int),
        ok3(v3(a_dir), CFG_MAX as int),
        ok3(v3(b_origin), CFG_MAX as int),
        ok3(v3(b_dir), CFG_MAX as int),
    ensures
        ts.0 as int == rr2(v3(a_origin), v3(a_dir), v3(b_origin), v3(b_dir)).0,
        ts.1 as int == rr2(v3(a_origin), v3(a_dir), v3(b_origin), v3(b_dir)).1,
        iabs(ts.0 as int) <= T_MAX as int,
        iabs(ts.1 as int) <= T_MAX as int,
{
    let ghost ca = CFG_MAX as int;
    let ghost dd = 3 * (ca * ca);
    let ghost de = 3 * (ca * (2 * ca));
    proof {
        assert(ca * ca == 10_000_000_000_000_000) by (nonlinear_arith)
            requires
                ca == 100_000_000,
        ;
        assert(ca * (2 * ca) == 20_000_000_000_000_000) by (nonlinear_arith)
            requires
                ca == 100_000_000,
        ;
        assert(dd * dd == 900_000_000_000_000_000_000_000_000_000_000) by (nonlinear_arith)
            requires
                dd == 30_000_000_000_000_000,
        ;
        assert(dd * de == 1_800_000_000_000_000_000_000_000_000_000_000) by (nonlinear_arith)
            requires
                dd == 30_000_000_000_000_000,
                de == 60_000_000_000_000_000,
        ;
    }
    let a: i128 = v_dot(a_dir, a_dir, Ghost(ca), Ghost(ca));
    let b: i128 = v_dot(a_dir, b_dir, Ghost(ca), Ghost(ca));
    let c: i128 = v_dot(b_dir, b_dir, Ghost(ca), Ghost(ca));
    let w: Vec3 = v_sub(a_origin, b_origin, Ghost(ca));
    let d: i128 = v_dot(a_dir, w, Ghost(ca), Ghost(2 * ca));
    let e: i128 = v_dot(b_dir, w, Ghost(ca), Ghost(2 * ca));
    let den_p: i128 = mul_c(a, c, Ghost(dd), Ghost(dd));
    let den_q: i128 = mul_c(b, b, Ghost(dd), Ghost(dd));
    let den: i128 = den_p - den_q;
    if den <= 0 {
        (0, 0)
    } else {
        let ghost nn = 2 * (dd * de);
        let n0a: i128 = mul_c(b, e, Ghost(dd), Ghost(de));
        let n0b: i128 = mul_c(c, d, Ghost(dd), Ghost(de));
        let n1a: i128 = mul_c(a, e, Ghost(dd), Ghost(de));
        let n1b: i128 = mul_c(b, d, Ghost(dd), Ghost(de));
        proof {
            assert(nn * (FX_ONE as int) == 36_000_000_000_000_000_000_000_000_000_000_000_000)
                by (nonlinear_arith)
                requires
                    nn == 3_600_000_000_000_000_000_000_000_000_000_000,
                    FX_ONE as int == 10_000,
            ;
        }
        let num0: i128 = mul_c(n0a - n0b, FX_ONE, Ghost(nn), Ghost(FX_ONE as int));
        let num1: i128 = mul_c(n1a - n1b, FX_ONE, Ghost(nn), Ghost(FX_ONE as int));
        let ghost cap = nn * (FX_ONE as int);
        proof {
            assert(cap * (den as int) >= cap * 1) by (nonlinear_arith)
                requires
                    den as int >= 1,
                    cap >= 0,
            ;
        }
        let t0p: i128 = rdiv_i(num0, den, Ghost(cap));
        let t1p: i128 = rdiv_i(num1, den, Ghost(cap));
        let t0: i128 = clamp_i(t0p);
        let t1: i128 = clamp_i(t1p);
        (t0, t1)
    }
}

/// The scaled ray parameter at which the ray meets the plane, or `None`
/// when the ray direction lies exactly in the plane.
pub fn intersect_plane(
    plane_normal: Vec3,
    plane_origin: Vec3,
    ray_origin: Vec3,
    ray_direction: Vec3,
) -> (r: Option<i128>)
    requires
        ok3(v3(plane_normal), CFG_MAX as int),
        ok3(v3(plane_origin), CFG_MAX as int),
        ok3(v3(ray_origin), CFG_MAX as int),
        ok3(v3(ray_direction), CFG_MAX as int),
    ensures
        r is Some <==> dot3(v3(ray_direction), v3(plane_normal)) != 0,
        r matches Some(t) ==> t as int == plane_t3(
            v3(plane_normal),
            v3(plane_origin),
            v3(ray_origin),
            v3(ray_direction),
        ) && iabs(t as int) <= T_MAX as int,
{
    let ghost ca = CFG_MAX as int;
    proof {
        assert(ca * ca == 10_000_000_000_000_000) by (nonlinear_arith)
            requires
                ca == 100_000_000,
        ;
    }
    let den: i128 = v_dot(ray_direction, plane_normal, Ghost(ca), Ghost(ca));
    if den == 0 {
        None
    } else {
        let diff: Vec3 = v_sub(plane_origin, ray_origin, Ghost(ca));
        let ghost nn = 3 * ((2 * ca) * ca);
        proof {
            assert((2 * ca) * ca == 20_000_000_000_000_000) by (nonlinear_arith)
                requires
                    ca == 100_000_000,
            ;
            assert(nn * (FX_ONE as int) == 600_000_000_000_000_000_000) by (nonlinear_arith)
                requires
                    nn == 60_000_000_000_000_000,
                    FX_ONE as int == 10_000,
            ;
        }
        let dn: i128 = v_dot(diff, plane_normal, Ghost(2 * ca), Ghost(ca));
        let num: i128 = mul_c(dn, FX_ONE, Ghost(nn), Ghost(FX_ONE as int));
        let ghost cap = nn * (FX_ONE as int);
        proof {
            assert(cap * iabs(den as int) >= cap * 1) by (nonlinear_arith)
                requires
                    iabs(den as int) >= 1,
                    cap >= 0,
            ;
        }
        let tp: i128 = rdiv_i(num, den, Ghost(cap));
        let t: i128 = clamp_i(tp);
        Some(t)
    }
}

/// Finds the nearest point on the line that points in the handle
/// direction through the configured translation origin.
pub fn point_on_axis(c: &HandleConfig, ray: Ray) -> (p: Vec3)
    requires
        cfg_ok(*c),
        ray_ok(ray),
    ensures
        v3(p) == axis_point3(*c, ray),
        ok3(v3(p), RAW_MAX as int),
{
    let n = normal(c);
    let ts = ray_to_ray(ray.origin, ray.direction, c.translation, n);
    let ghost xx = (NRM_MAX as int) * (T_MAX as int);
    let ghost pc = xx / (FX_ONE as int) + 1;
    proof {
        assert((NRM_MAX as int) * (T_MAX as int) == 30_001_000_000_000_000) by (nonlinear_arith)
            requires
                NRM_MAX as int == 30_001,
                T_MAX as int == 1_000_000_000_000,
        ;
        assert(xx == 3_000_100_000_000 * 10_000 + 0) by (nonlinear_arith)
            requires
                xx == 30_001_000_000_000_000,
        ;
        lemma_fundamental_div_mod_converse(xx, FX_ONE as int, 3_000_100_000_000, 0);
    }
    let sc = v_scale(n, ts.1, Ghost(NRM_MAX as int), Ghost(T_MAX as int));
    let p = v_add(c.translation, sc, Ghost(pc));
    p
}

/// Intersects the ray with the plane through `plane_origin` with normal
/// `plane_normal`; `None` when the ray is parallel to the plane.
pub fn point_on_plane(plane_normal: Vec3, plane_origin: Vec3, ray: Ray) -> (r: Option<Vec3>)
    requires
        ok3(v3(plane_normal), CFG_MAX as int),
        ok3(v3(plane_origin), CFG_MAX as int),
        ray_ok(ray),
    ensures
        r is Some <==> dot3(v3(ray.direction), v3(plane_normal)) != 0,
        r matches Some(p) ==> v3(p) == plane_point3(v3(plane_normal), v3(plane_origin), ray) && ok3(
            v3(p),
            RAW_MAX as int,
        ),
{
    let t_opt = intersect_plane(plane_normal, plane_origin, ray.origin, ray.direction);
    match t_opt {
        None => None,
        Some(t) => {
            let ghost xx = (CFG_MAX as int) * (T_MAX as int);
            let ghost pc = xx / (FX_ONE as int) + 1;
            proof {
                assert((CFG_MAX as int) * (T_MAX as int) == 100_000_000_000_000_000_000)
                    by (nonlinear_arith)
                    requires
                        CFG_MAX as int == 100_000_000,
                        T_MAX as int == 1_000_000_000_000,
                ;
                assert(xx == 10_000_000_000_000_000 * 10_000 + 0) by (nonlinear_arith)
                    requires
                        xx == 100_000_000_000_000_000_000,
                ;
                lemma_fundamental_div_mod_converse(xx, FX_ONE as int, 10_000_000_000_000_000, 0);
            }
            let sc = v_scale(ray.direction, t, Ghost(CFG_MAX as int), Ghost(T_MAX as int));
            let p = v_add(ray.origin, sc, Ghost(pc));
            Some(p)
        },
    }
}


/// The length of a fixed-point vector: the integer square root of its
/// raw-scale dot square (the result is again at fixed-point scale).
pub open spec fn len3(d: (int, int, int)) -> int {
    isqrt_s(dot3(d, d))
}

/// Axis snapping: rescale the delta so that its length is quantized to
/// the snap distance; a zero-length delta is returned unchanged.
pub open spec fn snap_axis3(delta: (int, int, int), sd: int) -> (int, int, int) {
    let l = len3(delta);
    if l <= 0 {
        delta
    } else {
        let q = quant(l, sd);
        (rdiv(delta.0 * q, l), rdiv(delta.1 * q, l), rdiv(delta.2 * q, l))
    }
}

/// Plane snapping: decompose the delta against the in-plane basis via
/// cross products, quantize the two magnitudes, and rebuild the delta
/// with the signs that the dot products with the normal resolve.  When
/// either magnitude vanishes the delta is returned unchanged.
pub open spec fn snap_plane3(c: HandleConfig, delta: (int, int, int)) -> (int, int, int) {
    let b0 = binormal3(c);
    let t0 = tangent3(c);
    let n = normal3(c);
    let cb = crs3(delta, neg3(b0));
    let ct = crs3(delta, t0);
    let lb = isqrt_s(dot3(cb, cb));
    let lt = isqrt_s(dot3(ct, ct));
    if lb > 0 && lt > 0 {
        add3(
            sgn3(scl3(b0, quant(lt, c.snap_distance as int)), sgn(dot3(ct, n))),
            sgn3(scl3(t0, quant(lb, c.snap_distance as int)), sgn(dot3(cb, n))),
        )
    } else {
        delta
    }
}

/// Snaps the translation delta of an axis handle.
pub fn snap_translation_vector(c: &HandleConfig, new_delta: Vec3) -> (r: Vec3)
    requires
        cfg_ok(*c),
        ok3(v3(new_delta), DELTA_IN_MAX as int),
    ensures
        v3(r) == snap_axis3(v3(new_delta), c.snap_distance as int),
        ok3(v3(r), SNAP_MAX as int),
{
    let ghost dc = DELTA_IN_MAX as int;
    let ghost d0 = new_delta.x as int;
    let ghost d1 = new_delta.y as int;
    let ghost d2 = new_delta.z as int;
    proof {
        assert(3 * (dc * dc) == 480_000_000_000_000_000_000_000_000_000_000_000)
            by (nonlinear_arith)
            requires
                dc == 400_000_000_000_000_000,
        ;
        assert(d0 * d0 + d1 * d1 + d2 * d2 >= 0) by (nonlinear_arith);
    }
    let l2: i128 = v_dot(new_delta, new_delta, Ghost(dc), Ghost(dc));
    let l: i128 = isqrt(l2);
    if l <= 0 {
        new_delta
    } else {
        let ghost lv = l as int;
        let ghost qc = 800_000_000_000_000_000int;
        proof {
            assert(lv < 700_000_000_000_000_000) by (nonlinear_arith)
                requires
                    0 <= lv,
                    lv * lv <= 480_000_000_000_000_000_000_000_000_000_000_000,
            ;
        }
        let q: i128 = quantize_to_interval(l, c.snap_distance);
        let ghost qv = q as int;
        proof {
            if c.snap_distance as int <= 0 {
                assert(qv == lv);
            } else {
                let sd = c.snap_distance as int;
                lemma_div_pos_is_pos(2 * lv + sd, 2 * sd);
                assert(rdiv(lv, sd) >= 0);
                assert(sd * rdiv(lv, sd) >= 0) by (nonlinear_arith)
                    requires
                        sd > 0,
                        rdiv(lv, sd) >= 0,
                ;
            }
            assert(qv >= 0);
            assert(dc * qc == 320_000_000_000_000_000_000_000_000_000_000_000)
                by (nonlinear_arith)
                requires
                    dc == 400_000_000_000_000_000,
                    qc == 800_000_000_000_000_000,
            ;
            assert(d0 * d0 <= l2 as int && d1 * d1 <= l2 as int && d2 * d2 <= l2 as int)
                by (nonlinear_arith)
                requires
                    l2 as int == d0 * d0 + d1 * d1 + d2 * d2,
            ;
            assert(iabs(d0) <= lv && iabs(d1) <= lv && iabs(d2) <= lv) by (nonlinear_arith)
                requires
                    0 <= lv,
                    d0 * d0 <= l2 as int,
                    d1 * d1 <= l2 as int,
                    d2 * d2 <= l2 as int,
                    (l2 as int) < (lv + 1) * (lv + 1),
                    iabs(d0) == if d0 < 0 { -d0 } else { d0 },
                    iabs(d1) == if d1 < 0 { -d1 } else { d1 },
                    iabs(d2) == if d2 < 0 { -d2 } else { d2 },
            ;
            assert(iabs(d0 * qv) <= qv * iabs(lv) && iabs(d1 * qv) <= qv * iabs(lv) && iabs(
                d2 * qv,
            ) <= qv * iabs(lv)) by (nonlinear_arith)
                requires
                    0 <= qv,
                    0 <= lv,
                    iabs(lv) == lv,
                    iabs(d0) <= lv,
                    iabs(d1) <= lv,
                    iabs(d2) <= lv,
                    iabs(d0 * qv) == if d0 * qv < 0 { -(d0 * qv) } else { d0 * qv },
                    iabs(d1 * qv) == if d1 * qv < 0 { -(d1 * qv) } else { d1 * qv },
                    iabs(d2 * qv) == if d2 * qv < 0 { -(d2 * qv) } else { d2 * qv },
                    iabs(d0) == if d0 < 0 { -d0 } else { d0 },
                    iabs(d1) == if d1 < 0 { -d1 } else { d1 },
                    iabs(d2) == if d2 < 0 { -d2 } else { d2 },
            ;
        }
        let px: i128 = mul_c(new_delta.x, q, Ghost(dc), Ghost(qc));
        let py: i128 = mul_c(new_delta.y, q, Ghost(dc), Ghost(qc));
        let pz: i128 = mul_c(new_delta.z, q, Ghost(dc), Ghost(qc));
        let rx: i128 = rdiv_i(px, l, Ghost(qv));
        let ry: i128 = rdiv_i(py, l, Ghost(qv));
        let rz: i128 = rdiv_i(pz, l, Ghost(qv));
        Vec3 { x: rx, y: ry, z: rz }
    }
}

/// Snaps the translation delta of a plane handle.
pub fn snap_translation_plane(c: &HandleConfig, new_delta: Vec3) -> (r: Vec3)
    requires
        cfg_ok(*c),
        ok3(v3(new_delta), DELTA_IN_MAX as int),
    ensures
        v3(r) == snap_plane3(*c, v3(new_delta)),
        ok3(v3(r), SNAP_MAX as int),
{
    let b0 = binormal(c);
    let t0 = tangent(c);
    let n = normal(c);
    let nb0 = v_neg(b0, Ghost(NRM_MAX as int));
    let ghost dc = DELTA_IN_MAX as int;
    let ghost nc = NRM_MAX as int;
    let ghost xc = 3_000_000_000_000_000_000int;
    proof {
        assert(dc * nc == 12_000_400_000_000_000_000_000) by (nonlinear_arith)
            requires
                dc == 400_000_000_000_000_000,
                nc == 30_001,
        ;
        assert(2 * (dc * nc) == 2_400_080_000_000_000_000 * 10_000 + 0) by (nonlinear_arith)
            requires
                dc * nc == 12_000_400_000_000_000_000_000,
        ;
        lemma_fundamental_div_mod_converse(
            2 * (dc * nc),
            FX_ONE as int,
            2_400_080_000_000_000_000,
            0,
        );
        assert(3 * (xc * xc) == 27_000_000_000_000_000_000_000_000_000_000_000_000)
            by (nonlinear_arith)
            requires
                xc == 3_000_000_000_000_000_000,
        ;
    }
    let cbv = v_cross(new_delta, nb0, Ghost(dc), Ghost(nc));
    let ctv = v_cross(new_delta, t0, Ghost(dc), Ghost(nc));
    proof {
        let cb0 = cbv.x as int;
        let cb1 = cbv.y as int;
        let cb2 = cbv.z as int;
        let ct0 = ctv.x as int;
        let ct1 = ctv.y as int;
        let ct2 = ctv.z as int;
        assert(cb0 * cb0 + cb1 * cb1 + cb2 * cb2 >= 0) by (nonlinear_arith);
        assert(ct0 * ct0 + ct1 * ct1 + ct2 * ct2 >= 0) by (nonlinear_arith);
    }
    let l2b: i128 = v_dot(cbv, cbv, Ghost(xc), Ghost(xc));
    let l2t: i128 = v_dot(ctv, ctv, Ghost(xc), Ghost(xc));
    let lb: i128 = isqrt(l2b);
    let lt: i128 = isqrt(l2t);
    if lb > 0 && lt > 0 {
        let ghost qc = 7_000_000_000_000_000_000int;
        proof {
            assert((lb as int) < 6_000_000_000_000_000_000 && (lt as int) < 6_000_000_000_000_000_000)
                by (nonlinear_arith)
                requires
                    0 <= lb as int,
                    0 <= lt as int,
                    lb as int * lb as int <= 27_000_000_000_000_000_000_000_000_000_000_000_000,
                    lt as int * lt as int <= 27_000_000_000_000_000_000_000_000_000_000_000_000,
            ;
            assert(nc * qc == 210_007_000_000_000_000_000_000) by (nonlinear_arith)
                requires
                    nc == 30_001,
                    qc == 7_000_000_000_000_000_000,
            ;
            assert(nc * qc == 21_000_700_000_000_000_000 * 10_000 + 0) by (nonlinear_arith)
                requires
                    nc * qc == 210_007_000_000_000_000_000_000,
            ;
            lemma_fundamental_div_mod_converse(
                nc * qc,
                FX_ONE as int,
                21_000_700_000_000_000_000,
                0,
            );
        }
        let ghost sc = nc * qc / (FX_ONE as int) + 1;
        let qt: i128 = quantize_to_interval(lt, c.snap_distance);
        let qb: i128 = quantize_to_interval(lb, c.snap_distance);
        let dt: i128 = v_dot(ctv, n, Ghost(xc), Ghost(nc));
        let db: i128 = v_dot(cbv, n, Ghost(xc), Ghost(nc));
        let st: i128 = sgn_i(dt);
        let sb: i128 = sgn_i(db);
        let term_b = v_scale(b0, qt, Ghost(nc), Ghost(qc));
        let term_bs = v_sgn(term_b, st, Ghost(sc));
        let term_t = v_scale(t0, qb, Ghost(nc), Ghost(qc));
        let term_ts = v_sgn(term_t, sb, Ghost(sc));
        let r = v_add(term_bs, term_ts, Ghost(sc));
        r
    } else {
        new_delta
    }
}

/// The drag point the frame's ray selects, before snapping: the closest
/// point on the axis line, or the ray/plane intersection (meaningful for
/// a plane handle only when the ray is not parallel to the plane).
pub open spec fn raw_point3(c: HandleConfig, r: Ray) -> (int, int, int) {
    if c.transform_kind is Axis {
        axis_point3(c, r)
    } else {
        plane_point3(normal3(c), v3(c.translation), r)
    }
}

/// The delta an update stores and emits: the raw drag point minus the
/// grab point, quantized by the configured snap policy when snapping is
/// enabled.
pub open spec fn upd_delta3(c: HandleConfig, s: TranslationState, r: Ray) -> (int, int, int) {
    let rawd = sub3(raw_point3(c, r), v3(s.start_point));
    if c.snapping {
        if c.transform_kind is Axis {
            snap_axis3(rawd, c.snap_distance as int)
        } else {
            snap_plane3(c, rawd)
        }
    } else {
        rawd
    }
}

/// The point an update stores as the new last point: with snapping the
/// grab point plus the snapped delta, otherwise the raw drag point.
pub open spec fn upd_point3(c: HandleConfig, s: TranslationState, r: Ray) -> (int, int, int) {
    if c.snapping {
        add3(v3(s.start_point), upd_delta3(c, s, r))
    } else {
        raw_point3(c, r)
    }
}

impl TranslationSubGizmo {
    /// Establishes a new interaction from the caller's hit-test report:
    /// stores the reported visibility as the handle opacity, resets the
    /// interaction state to the reported contact point whether or not the
    /// handle was picked, and returns the hit parameter only on a pick.
    pub fn pick(&mut self, hit: HitTestResult) -> (res: Option<i128>)
        requires
            ok3(v3(hit.point), RAW_MAX as int),
        ensures
            final(self).config == old(self).config,
            final(self).opacity == hit.visibility,
            final(self).state.start_point == hit.point,
            final(self).state.last_point == hit.point,
            final(self).state.start_point == final(self).state.last_point,
            v3(final(self).state.current_delta) == (0int, 0int, 0int),
            state_ok(final(self).state),
            res == if hit.picked {
                Some(hit.t)
            } else {
                None::<i128>
            },
    {
        self.opacity = hit.visibility;
        self.state.start_point = hit.point;
        self.state.last_point = hit.point;
        self.state.current_delta = Vec3 { x: 0, y: 0, z: 0 };
        if hit.picked {
            Some(hit.t)
        } else {
            None
        }
    }

    /// Per-frame drag update.  Computes the drag point for the frame's
    /// ray, optionally snaps the delta since the grab point, accumulates
    /// the translation incrementally against the previous frame's point,
    /// and stores the new point and delta.  Returns `None` exactly when a
    /// plane handle sees a ray parallel to its plane; the state is then
    /// left untouched.
    pub fn update(&mut self, ray: Ray) -> (res: Option<GizmoResult>)
        requires
            cfg_ok(old(self).config),
            ray_ok(ray),
            state_ok(old(self).state),
        ensures
            final(self).config == old(self).config,
            final(self).opacity == old(self).opacity,
            final(self).state.start_point == old(self).state.start_point,
            state_ok(final(self).state),
            res is Some <==> !(old(self).config.transform_kind is Plane && dot3(
                v3(ray.direction),
                normal3(old(self).config),
            ) == 0),
            res is None ==> final(self).state == old(self).state,
            res matches Some(g) ==> {
                &&& v3(final(self).state.last_point) == upd_point3(
                    old(self).config,
                    old(self).state,
                    ray,
                )
                &&& v3(final(self).state.current_delta) == upd_delta3(
                    old(self).config,
                    old(self).state,
                    ray,
                )
                &&& g.scale == old(self).config.scale
                &&& g.rotation == old(self).config.rotation
                &&& g.mode is Translate
                &&& v3(g.value) == upd_delta3(old(self).config, old(self).state, ray)
                &&& v3(g.translation) == add3(
                    v3(old(self).config.translation),
                    sub3(
                        upd_point3(old(self).config, old(self).state, ray),
                        v3(old(self).state.last_point),
                    ),
                )
            },
    {
        let c = self.config;
        let start = self.state.start_point;
        let maybe_raw: Option<Vec3> = match c.transform_kind {
            TransformKind::Axis => Some(point_on_axis(&c, ray)),
            TransformKind::Plane => {
                let n = normal(&c);
                point_on_plane(n, c.translation, ray)
            },
        };
        match maybe_raw {
            None => None,
            Some(raw) => {
                let mut new_point = raw;
                let mut new_delta = v_sub(raw, start, Ghost(RAW_MAX as int));
                if c.snapping {
                    new_delta = match c.transform_kind {
                        TransformKind::Axis => snap_translation_vector(&c, new_delta),
                        TransformKind::Plane => snap_translation_plane(&c, new_delta),
                    };
                    new_point = v_add(start, new_delta, Ghost(SNAP_MAX as int));
                }
                let old_last = self.state.last_point;
                self.state.last_point = new_point;
                self.state.current_delta = new_delta;
                let step = v_sub(new_point, old_last, Ghost(LAST_MAX as int));
                let new_translation = v_add(c.translation, step, Ghost(2 * (LAST_MAX as int)));
                Some(
                    GizmoResult {
                        scale: c.scale,
                        rotation: c.rotation,
                        translation: new_translation,
                        mode: GizmoMode::Translate,
                        value: new_delta,
                    },
                )
            },
        }
    }
}

/// Law: with snapping disabled, the delta an update emits is exactly the
/// geometric drag point of the frame's ray minus the grab point.
pub proof fn lemma_unsnapped_delta_exact(c: HandleConfig, s: TranslationState, r: Ray)
    requires
        !c.snapping,
    ensures
        upd_delta3(c, s, r) == sub3(raw_point3(c, r), v3(s.start_point)),
{
}

/// Law: axis snapping with a positive snap distance rescales the delta to
/// the quantized length, which is an exact multiple of the snap distance;
/// a zero-length delta is left unchanged.
pub proof fn lemma_axis_snap_quantized(delta: (int, int, int), sd: int)
    requires
        sd > 0,
    ensures
        len3(delta) == 0 ==> snap_axis3(delta, sd) == delta,
        len3(delta) > 0 ==> quant(len3(delta), sd) % sd == 0,
        len3(delta) > 0 ==> snap_axis3(delta, sd) == (
            rdiv(delta.0 * quant(len3(delta), sd), len3(delta)),
            rdiv(delta.1 * quant(len3(delta), sd), len3(delta)),
            rdiv(delta.2 * quant(len3(delta), sd), len3(delta)),
        ),
{
    lemma_quant_nearest(len3(delta), sd);
}

/// Law: an update repeated with the identical ray is a fixpoint.  Once
/// the state holds the point and delta of the first update, the second
/// computes the same point and delta, and its incremental translation
/// update is zero.
pub proof fn lemma_update_idempotent(
    c: HandleConfig,
    s: TranslationState,
    s2: TranslationState,
    r: Ray,
)
    requires
        s2.start_point == s.start_point,
        v3(s2.last_point) == upd_point3(c, s, r),
    ensures
        upd_delta3(c, s2, r) == upd_delta3(c, s, r),
        upd_point3(c, s2, r) == upd_point3(c, s, r),
        add3(v3(c.translation), sub3(upd_point3(c, s2, r), v3(s2.last_point))) == v3(
            c.translation,
        ),
{
}

/// Law: for a positive delta along a single coordinate axis (the shape
/// every world-space axis handle produces), axis snapping is exact: the
/// result is the quantized length along that axis, an exact multiple of
/// a positive snap distance.
pub proof fn lemma_axis_snap_exact_on_axis(x: int, sd: int)
    requires
        sd > 0,
        x > 0,
    ensures
        len3((x, 0, 0)) == x,
        snap_axis3((x, 0, 0), sd) == (quant(x, sd), 0int, 0int),
        quant(x, sd) % sd == 0,
{
    assert(x * x >= 0 && x * x <= x * x && x * x < (x + 1) * (x + 1)) by (nonlinear_arith)
        requires
            x > 0,
    ;
    assert(is_isqrt(x * x, x));
    lemma_isqrt_exists(x * x);
    lemma_isqrt_unique(x * x, x, isqrt_s(x * x));
    assert(dot3((x, 0, 0), (x, 0, 0)) == x * x);
    assert(len3((x, 0, 0)) == x);
    let q = quant(x, sd);
    lemma_quant_nearest(x, sd);
    lemma_rdiv_rounds(x * q, x);
    let r = rdiv(x * q, x);
    assert(r == q) by (nonlinear_arith)
        requires
            x > 0,
            2 * iabs(r * x - x * q) <= iabs(x),
            iabs(x) == x,
            iabs(r * x - x * q) == if r * x - x * q < 0 { -(r * x - x * q) } else { r * x - x * q },
    ;
    lemma_fundamental_div_mod(x, 2 * x);
    lemma_mod_bound(x, 2 * x);
    assert(x / (2 * x) == 0) by (nonlinear_arith)
        requires
            x >= 1,
            x == 2 * x * (x / (2 * x)) + x % (2 * x),
            0 <= x % (2 * x) < 2 * x,
    ;
    assert(rdiv(0, x) == 0);
    assert(snap_axis3((x, 0, 0), sd) == (q, 0int, 0int));
}

} // verus!
