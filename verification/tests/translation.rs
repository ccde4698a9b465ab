//! Scenario tests for the translation handle, all in fixed-point
//! coordinates with 10_000 units per world unit.

use gizmo_translation::math::{isqrt, quantize_to_interval};
use gizmo_translation::translation::{
    point_on_axis, point_on_plane, snap_translation_plane, snap_translation_vector, GizmoDirection,
    GizmoMode, HandleConfig, HitTestResult, Ray, TransformKind, TranslationState,
    TranslationSubGizmo,
};
use gizmo_translation::vec3::{Mat3, Vec3};

const S: i128 = 10_000;

fn v(x: i128, y: i128, z: i128) -> Vec3 {
    Vec3 { x, y, z }
}

fn identity() -> Mat3 {
    Mat3 { rx: v(S, 0, 0), ry: v(0, S, 0), rz: v(0, 0, S) }
}

/// Rotation by 90 degrees about the Z axis: x -> y.
fn rot_z_90() -> Mat3 {
    Mat3 { rx: v(0, -S, 0), ry: v(S, 0, 0), rz: v(0, 0, S) }
}

fn config(
    kind: TransformKind,
    direction: GizmoDirection,
    snapping: bool,
    snap_distance: i128,
) -> HandleConfig {
    HandleConfig {
        translation: v(0, 0, 0),
        rotation: identity(),
        scale: v(S, S, S),
        snapping,
        snap_distance,
        local_space: false,
        direction,
        transform_kind: kind,
    }
}

fn gizmo(c: HandleConfig) -> TranslationSubGizmo {
    TranslationSubGizmo { config: c, state: TranslationState::default(), opacity: 0 }
}

fn hit(picked: bool, t: i128, visibility: i128, point: Vec3) -> HitTestResult {
    HitTestResult { picked, t, visibility, point }
}

#[test]
fn quantize_nearest_multiples() {
    assert_eq!(quantize_to_interval(24_000, 10_000), 20_000);
    assert_eq!(quantize_to_interval(26_000, 10_000), 30_000);
    assert_eq!(quantize_to_interval(25_000, 10_000), 30_000);
    assert_eq!(quantize_to_interval(-24_000, 10_000), -20_000);
    assert_eq!(quantize_to_interval(-25_000, 10_000), -30_000);
    assert_eq!(quantize_to_interval(0, 10_000), 0);
    assert_eq!(quantize_to_interval(4_999, 10_000), 0);
}

#[test]
fn quantize_nonpositive_interval_is_identity() {
    assert_eq!(quantize_to_interval(12_345, 0), 12_345);
    assert_eq!(quantize_to_interval(12_345, -7), 12_345);
    assert_eq!(quantize_to_interval(-9_999, 0), -9_999);
}

#[test]
fn isqrt_rounds_down() {
    assert_eq!(isqrt(0), 0);
    assert_eq!(isqrt(1), 1);
    assert_eq!(isqrt(24), 4);
    assert_eq!(isqrt(25), 5);
    assert_eq!(isqrt(26), 5);
}

#[test]
fn default_state_is_zero() {
    let s = TranslationState::default();
    assert_eq!(s.start_point, v(0, 0, 0));
    assert_eq!(s.last_point, v(0, 0, 0));
    assert_eq!(s.current_delta, v(0, 0, 0));
}

#[test]
fn pick_resets_state_on_miss() {
    let mut g = gizmo(config(TransformKind::Axis, GizmoDirection::X, false, 0));
    g.state.start_point = v(1, 2, 3);
    g.state.last_point = v(4, 5, 6);
    g.state.current_delta = v(7, 8, 9);
    let r = g.pick(hit(false, 77, 2_500, v(20_000, 0, 0)));
    assert_eq!(r, None);
    assert_eq!(g.opacity, 2_500);
    assert_eq!(g.state.start_point, v(20_000, 0, 0));
    assert_eq!(g.state.last_point, v(20_000, 0, 0));
    assert_eq!(g.state.current_delta, v(0, 0, 0));
}

#[test]
fn pick_resets_state_on_hit() {
    let mut g = gizmo(config(TransformKind::Axis, GizmoDirection::X, false, 0));
    let r = g.pick(hit(true, 42, S, v(20_000, 0, 0)));
    assert_eq!(r, Some(42));
    assert_eq!(g.opacity, S);
    assert_eq!(g.state.start_point, g.state.last_point);
    assert_eq!(g.state.current_delta, v(0, 0, 0));
}

/// Axis handle along +X at the origin, snapping off: grab point (2,0,0),
/// new axis point (5,0,0), so the delta is (3,0,0) and the translation
/// grows by (3,0,0).
#[test]
fn axis_drag_without_snapping() {
    let mut g = gizmo(config(TransformKind::Axis, GizmoDirection::X, false, 0));
    g.pick(hit(true, 0, S, v(2 * S, 0, 0)));
    let ray = Ray { origin: v(5 * S, 0, S), direction: v(0, 0, -S) };
    let res = g.update(ray).expect("axis update must produce a result");
    assert_eq!(res.value, v(3 * S, 0, 0));
    assert_eq!(res.translation, v(3 * S, 0, 0));
    assert_eq!(res.mode, GizmoMode::Translate);
    assert_eq!(res.scale, v(S, S, S));
    assert_eq!(res.rotation, identity());
    assert_eq!(g.state.current_delta, v(3 * S, 0, 0));
    assert_eq!(g.state.last_point, v(5 * S, 0, 0));
    assert_eq!(g.state.start_point, v(2 * S, 0, 0));
}

/// Same axis handle with snap distance 1.0: raw axis point (2.4,0,0) from
/// grab point (0,0,0) quantizes the delta length 2.4 to 2.0.
#[test]
fn axis_drag_snaps_delta_length() {
    let mut g = gizmo(config(TransformKind::Axis, GizmoDirection::X, true, S));
    g.pick(hit(true, 0, S, v(0, 0, 0)));
    let ray = Ray { origin: v(24_000, 0, S), direction: v(0, 0, -S) };
    let res = g.update(ray).expect("axis update must produce a result");
    assert_eq!(g.state.current_delta, v(2 * S, 0, 0));
    assert_eq!(res.value, v(2 * S, 0, 0));
    assert_eq!(g.state.last_point, v(2 * S, 0, 0));
    assert_eq!(res.translation, v(2 * S, 0, 0));
}

/// A zero delta is left unchanged by axis snapping.
#[test]
fn axis_snap_keeps_zero_delta() {
    let c = config(TransformKind::Axis, GizmoDirection::X, true, S);
    assert_eq!(snap_translation_vector(&c, v(0, 0, 0)), v(0, 0, 0));
}

/// Axis snapping rescales a diagonal delta: (3,4,0) with snap distance
/// 2.0 has length 5.0, quantized to 6.0, giving (3.6,4.8,0) whose length
/// 6.0 is an exact multiple of the snap distance.
#[test]
fn axis_snap_scales_diagonal_delta() {
    let c = config(TransformKind::Axis, GizmoDirection::X, true, 2 * S);
    let snapped = snap_translation_vector(&c, v(3 * S, 4 * S, 0));
    assert_eq!(snapped, v(36_000, 48_000, 0));
    let l2 = snapped.x * snapped.x + snapped.y * snapped.y + snapped.z * snapped.z;
    assert_eq!(l2, 60_000 * 60_000);
}

/// Plane handle with normal +Z and a ray parallel to the plane: the
/// update produces nothing and leaves the state alone.
#[test]
fn plane_parallel_ray_yields_none() {
    let mut g = gizmo(config(TransformKind::Plane, GizmoDirection::Z, false, 0));
    g.pick(hit(true, 0, S, v(0, 0, 0)));
    let before = g.state;
    let ray = Ray { origin: v(5 * S, 0, S), direction: v(S, 0, 0) };
    assert!(g.update(ray).is_none());
    assert_eq!(g.state, before);
}

#[test]
fn plane_drag_without_snapping() {
    let mut g = gizmo(config(TransformKind::Plane, GizmoDirection::Z, false, 0));
    g.pick(hit(true, 0, S, v(0, 0, 0)));
    let ray = Ray { origin: v(24_000, 16_000, S), direction: v(0, 0, -S) };
    let res = g.update(ray).expect("plane update must produce a result");
    assert_eq!(res.value, v(24_000, 16_000, 0));
    assert_eq!(g.state.current_delta, v(24_000, 16_000, 0));
    assert_eq!(g.state.last_point, v(24_000, 16_000, 0));
}

/// Plane snapping with snap distance 1.0 quantizes both in-plane
/// coordinates: (2.4,1.6,0) snaps to (2.0,2.0,0).
#[test]
fn plane_drag_snaps_both_axes() {
    let mut g = gizmo(config(TransformKind::Plane, GizmoDirection::Z, true, S));
    g.pick(hit(true, 0, S, v(0, 0, 0)));
    let ray = Ray { origin: v(24_000, 16_000, S), direction: v(0, 0, -S) };
    let res = g.update(ray).expect("plane update must produce a result");
    assert_eq!(g.state.current_delta, v(2 * S, 2 * S, 0));
    assert_eq!(res.value, v(2 * S, 2 * S, 0));
}

/// A delta aligned with one in-plane basis vector has a vanishing cross
/// product magnitude, so plane snapping falls back to the raw delta.
#[test]
fn plane_snap_keeps_axis_aligned_delta() {
    let c = config(TransformKind::Plane, GizmoDirection::Z, true, S);
    assert_eq!(snap_translation_plane(&c, v(24_000, 0, 0)), v(24_000, 0, 0));
}

/// Two updates with the identical ray emit the identical delta and the
/// second adds nothing to the translation.
#[test]
fn update_twice_with_same_ray_is_stable() {
    let mut g = gizmo(config(TransformKind::Axis, GizmoDirection::X, true, S));
    g.pick(hit(true, 0, S, v(0, 0, 0)));
    let ray = Ray { origin: v(24_000, 0, S), direction: v(0, 0, -S) };
    let first = g.update(ray).expect("first update");
    let state_after_first = g.state;
    let second = g.update(ray).expect("second update");
    assert_eq!(first.value, second.value);
    assert_eq!(g.state, state_after_first);
    assert_eq!(second.translation, g.config.translation);
}

/// In local-space mode the handle direction is rotated by the configured
/// orientation: with a 90-degree Z rotation the X handle drags along +Y.
#[test]
fn local_space_rotates_axis() {
    let mut c = config(TransformKind::Axis, GizmoDirection::X, false, 0);
    c.rotation = rot_z_90();
    c.local_space = true;
    let mut g = gizmo(c);
    g.pick(hit(true, 0, S, v(0, 0, 0)));
    let ray = Ray { origin: v(0, 3 * S, S), direction: v(0, 0, -S) };
    let res = g.update(ray).expect("axis update must produce a result");
    assert_eq!(res.value, v(0, 3 * S, 0));
    assert_eq!(g.state.last_point, v(0, 3 * S, 0));
}

/// The axis point solver finds the closest point on the axis line even
/// for a ray that misses the line.
#[test]
fn point_on_axis_closest_point() {
    let c = config(TransformKind::Axis, GizmoDirection::X, false, 0);
    let ray = Ray { origin: v(5 * S, 2 * S, S), direction: v(0, 0, -S) };
    assert_eq!(point_on_axis(&c, ray), v(5 * S, 0, 0));
}

#[test]
fn point_on_plane_intersection() {
    let n = v(0, 0, S);
    let o = v(0, 0, 0);
    let ray = Ray { origin: v(7 * S, -2 * S, 4 * S), direction: v(0, 0, -S) };
    assert_eq!(point_on_plane(n, o, ray), Some(v(7 * S, -2 * S, 0)));
    let parallel = Ray { origin: v(7 * S, -2 * S, 4 * S), direction: v(S, 0, 0) };
    assert_eq!(point_on_plane(n, o, parallel), None);
}

/// A delta shorter than half the snap interval quantizes to zero.
#[test]
fn axis_snap_to_zero_for_short_delta() {
    let mut g = gizmo(config(TransformKind::Axis, GizmoDirection::X, true, S));
    g.pick(hit(true, 0, S, v(0, 0, 0)));
    let ray = Ray { origin: v(4_000, 0, S), direction: v(0, 0, -S) };
    let res = g.update(ray).expect("axis update must produce a result");
    assert_eq!(g.state.current_delta, v(0, 0, 0));
    assert_eq!(res.value, v(0, 0, 0));
    assert_eq!(g.state.last_point, v(0, 0, 0));
}

/// Plane snapping in local-space mode works in the rotated basis and the
/// cross-product/normal sign resolution keeps the delta's orientation.
#[test]
fn local_space_plane_snap_keeps_orientation() {
    let mut c = config(TransformKind::Plane, GizmoDirection::Z, true, S);
    c.rotation = rot_z_90();
    c.local_space = true;
    let mut g = gizmo(c);
    g.pick(hit(true, 0, S, v(0, 0, 0)));
    let ray = Ray { origin: v(24_000, 16_000, S), direction: v(0, 0, -S) };
    let res = g.update(ray).expect("plane update must produce a result");
    assert_eq!(g.state.current_delta, v(2 * S, 2 * S, 0));
    assert_eq!(res.value, v(2 * S, 2 * S, 0));
}

/// The translation accumulates incrementally against the previous
/// frame's point, not from the grab point.
#[test]
fn translation_accumulates_incrementally() {
    let mut c = config(TransformKind::Axis, GizmoDirection::X, false, 0);
    c.translation = v(S, 0, 0);
    let mut g = gizmo(c);
    g.pick(hit(true, 0, S, v(2 * S, 0, 0)));
    let first = g
        .update(Ray { origin: v(5 * S, 0, S), direction: v(0, 0, -S) })
        .expect("first update");
    assert_eq!(first.translation, v(4 * S, 0, 0));
    let second = g
        .update(Ray { origin: v(7 * S, 0, S), direction: v(0, 0, -S) })
        .expect("second update");
    assert_eq!(second.translation, v(3 * S, 0, 0));
    assert_eq!(g.state.current_delta, v(5 * S, 0, 0));
}
