use odometries::context::{InContext, WithContext};
use odometries::eskf::{NoModel, UnbiasedState};
use odometries::fixed::{floor_div, pack_index, packable, voxel_index, Vec3Fx};
use odometries::frame::{Body, Framed, Imu, World};
use odometries::layout::{MarkedState, Velocity};
use odometries::measurement::{ImuInitAccumulator, ImuSampleFx, StampedMeasurement};
use odometries::plane::{point_moments, quad_form, PlaneFx, UPointFx, NSCALE};
use odometries::voxel_map::{RootTreeID, TreeID};

#[test]
fn framed_wrappers() {
    let p: Framed<i64, Body> = Framed::new(5);
    assert_eq!(p.inner, 5);
    let q = Framed::new_with_frame(7i64, World);
    assert_eq!(q.inner, 7);
    let r = q.map_framed(|x| x + 1);
    assert_eq!(r.inner, 8);
    let s = r.as_ref();
    assert_eq!(*s.inner, 8);
    let t = Framed::new_transform(3i64, Body, Imu);
    assert_eq!(t.inner, 3);
}

#[test]
fn marked_state_retagging() {
    let v: MarkedState<i64, Velocity> = MarkedState::new(11);
    assert_eq!(v.0, 11);
    let w: MarkedState<i64, odometries::layout::Gravity> = v.map_state_marker();
    assert_eq!(w.0, 11);
}

#[test]
fn stamped_measurement_constructors() {
    let a: StampedMeasurement<i64, u8> = StampedMeasurement::new(10, 3);
    assert_eq!(a.timestamp, 10);
    assert_eq!(a.measured, 3);
    let b: StampedMeasurement<i64, u8> = StampedMeasurement::from_tuple((20, 4));
    assert_eq!(b.timestamp, 20);
    assert_eq!(b.measured, 4);
}

#[test]
fn in_context_carries_both() {
    let c = InContext::new(1i32, "cfg");
    assert_eq!(c.inner, 1);
    assert_eq!(c.context, "cfg");
    let d = c.map_context(|s| s.len());
    assert_eq!(d.context, 3);
    let e = 9i32.with_context(0.5f64);
    assert_eq!(e.inner, 9);
}

#[test]
fn observation_markers() {
    // the no-model marker and the unbiased-sub-state tag are plain
    // zero-sized values observation types carry
    let _model = NoModel::new();
    let _unbiased: UnbiasedState<odometries::layout::LinearAcc> = UnbiasedState::new();
}

#[test]
fn tree_ids() {
    let id = TreeID::new(3);
    assert_eq!(id.index, 3);
    assert!(TreeID::new_maybe_root(0).is_none());
    assert_eq!(TreeID::new_maybe_root(2).unwrap().index, 2);
    assert_eq!(RootTreeID::new().index(), 0);
}

#[test]
fn floor_division_rounds_down() {
    assert_eq!(floor_div(7, 2), 3);
    assert_eq!(floor_div(-7, 2), -4);
    assert_eq!(floor_div(-8, 2), -4);
    assert_eq!(floor_div(0, 5), 0);
}

#[test]
fn voxel_index_and_packing() {
    let p = Vec3Fx::new(-1, 0, 5001);
    let idx = voxel_index(p, 5000);
    assert_eq!(idx, Vec3Fx::new(-1, 0, 1));
    assert!(packable(idx));
    let other = voxel_index(Vec3Fx::new(-4999, 4999, 9999), 5000);
    assert_eq!(other, Vec3Fx::new(-1, 0, 1));
    assert_eq!(pack_index(idx), pack_index(other));
    let elsewhere = voxel_index(Vec3Fx::new(5000, 0, 0), 5000);
    assert_ne!(pack_index(idx), pack_index(elsewhere));
}

#[test]
fn plane_checks_unit_normal() {
    let cov = vec![0i64; 36];
    // a unit z normal at the normal scale is accepted
    let ok = PlaneFx::new(Vec3Fx::new(0, 0, NSCALE), Vec3Fx::new(0, 0, 0), 100, cov.clone());
    assert!(ok.is_some());
    // a normal of half length is refused
    let bad = PlaneFx::new(Vec3Fx::new(0, 0, NSCALE / 2), Vec3Fx::new(0, 0, 0), 100, cov.clone());
    assert!(bad.is_none());
    // a negative squared radius is refused
    let neg = PlaneFx::new(Vec3Fx::new(0, 0, NSCALE), Vec3Fx::new(0, 0, 0), -1, cov);
    assert!(neg.is_none());
}

#[test]
fn quadratic_form_exact_value() {
    // [[1,2],[3,4]] over (5,6) embedded as a 3x3 with zero padding:
    // 1*25 + 2*30 + 3*30 + 4*36 = 319
    let c = vec![1i64, 2, 0, 3, 4, 0, 0, 0, 0];
    let e = vec![5i64, 6, 0];
    assert_eq!(quad_form(&c, &e, 3), 319);
}

#[test]
fn accumulator_refuses_out_of_range_samples() {
    // the verified fold admits a sample exactly when it is in range and
    // the cap is not reached, and changes nothing otherwise
    let mut acc = ImuInitAccumulator::new();
    let good = StampedMeasurement::new(
        10,
        ImuSampleFx { lin: Vec3Fx::new(1, 2, 3), ang: Vec3Fx::new(0, 0, 0) },
    );
    let bad = StampedMeasurement::new(
        20,
        ImuSampleFx { lin: Vec3Fx::new(i64::MAX, 0, 0), ang: Vec3Fx::new(0, 0, 0) },
    );
    assert!(acc.try_push(&good));
    assert!(!acc.try_push(&bad));
    assert_eq!(acc.count, 1);
    assert_eq!(acc.lin_sum, Vec3Fx::new(1, 2, 3));
}

#[test]
fn point_moments_exact_values() {
    let up = |x: i64, y: i64, z: i64| UPointFx { p: Vec3Fx::new(x, y, z), cov: vec![0i64; 9] };
    let pts = vec![up(1, 2, 3), up(-4, 5, -6)];
    let m = point_moments(&pts);
    assert_eq!(m.count, 2);
    assert_eq!((m.sx, m.sy, m.sz), (-3, 7, -3));
    assert_eq!((m.xx, m.yy, m.zz), (17, 29, 45));
    assert_eq!((m.xy, m.xz, m.yz), (-18, 27, -24));
}

#[test]
fn framed_transform_composition() {
    // integer stand-ins for transforms: composition adds the offsets, and
    // the frame tags keep source and destination straight
    let body_to_imu: Framed<i64, odometries::frame::FrameMap<Body, Imu>> = Framed::new(10);
    let imu_to_world: Framed<i64, odometries::frame::FrameMap<Imu, World>> = Framed::new(200);
    let body_to_world = body_to_imu.and_then(&imu_to_world, |a, b| a + b);
    assert_eq!(body_to_world.inner, 210);
    let moved = body_to_world.apply(Framed::<i64, Body>::new(5), |t, p| t + p);
    assert_eq!(moved.inner, 215);
}
