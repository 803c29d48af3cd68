use odometries::clock::{FilterClock, KFTime, step_runs};
use odometries::downsample::Downsampler;
use odometries::fixed::Vec3Fx;
use odometries::measurement::{ImuInitAccumulator, ImuSampleFx, StampedMeasurement};

// Lattice scale used by these tests: 10_000 steps per meter.
const S: i64 = 10_000;

#[test]
fn downsample_barycenter() {
    // three points in one half-meter voxel collapse to their barycenter
    let mut ds = Downsampler::new(S / 2);
    ds.insert(Vec3Fx::new(3 * S, 3 * S, 0));
    ds.insert(Vec3Fx::new(32_000, 32_000, 0));
    ds.insert(Vec3Fx::new(34_000, 34_000, 0));
    let out = ds.drain();
    assert_eq!(out.len(), 1);
    assert_eq!(out[0], Vec3Fx::new(32_000, 32_000, 0));
}

#[test]
fn downsample_idempotent() {
    let pts = [
        Vec3Fx::new(100, 200, 300),
        Vec3Fx::new(140, 210, 280),
        Vec3Fx::new(-7 * S, 2 * S, 0),
        Vec3Fx::new(-7 * S + 30, 2 * S + 40, 25),
        Vec3Fx::new(9 * S, -3 * S, 4 * S),
    ];
    let mut ds = Downsampler::new(S / 2);
    for p in pts.iter() {
        ds.insert(*p);
    }
    let mut once = ds.drain();

    let mut ds2 = Downsampler::new(S / 2);
    for p in once.iter() {
        ds2.insert(*p);
    }
    let mut twice = ds2.drain();

    let key = |p: &Vec3Fx| (p.x, p.y, p.z);
    once.sort_by_key(key);
    twice.sort_by_key(key);
    assert_eq!(once, twice);
}

#[test]
fn downsample_keeps_separate_voxels() {
    let mut ds = Downsampler::new(S / 2);
    ds.insert(Vec3Fx::new(0, 0, 0));
    ds.insert(Vec3Fx::new(S, 0, 0));
    ds.insert(Vec3Fx::new(-S, 0, 0));
    let out = ds.drain();
    assert_eq!(out.len(), 3);
}

#[test]
fn clock_zero_delta_skips_both_steps() {
    // the first update after initialization sees a zero delta: nothing runs
    let mut clock = FilterClock::new(1_000_000);
    let dt = clock.begin_update(1_000_000);
    assert_eq!(dt.predict, 0);
    assert_eq!(dt.observe, 0);
    assert!(!step_runs(dt.predict));
    assert!(!step_runs(dt.observe));
}

#[test]
fn clock_advances_without_observation() {
    // a measurement that yields no observation still advances prediction
    let mut clock = FilterClock::new(0);
    let dt = clock.begin_update(500_000);
    assert_eq!(dt.predict, 500_000);
    assert!(step_runs(dt.predict));
    // no observation applied: the observe stamp stays, so the next
    // covariance step covers the whole gap
    let dt2 = clock.begin_update(700_000);
    assert_eq!(dt2.predict, 200_000);
    assert_eq!(dt2.observe, 700_000);
}

#[test]
fn clock_timestamp_regression_is_skipped() {
    let mut clock = FilterClock::new(900);
    let dt = clock.begin_update(400);
    assert!(dt.predict < 0);
    assert!(!step_runs(dt.predict));
}

#[test]
fn clock_confirm_observe() {
    let mut clock = FilterClock::new(0);
    let _ = clock.begin_update(100);
    clock.confirm_observe(100);
    let dt = clock.begin_update(150);
    assert_eq!(dt.predict, 50);
    assert_eq!(dt.observe, 50);
}

#[test]
fn kf_time_all() {
    let t: KFTime<i64> = KFTime::all(42);
    assert_eq!(t.predict, 42);
    assert_eq!(t.observe, 42);
}

#[test]
fn imu_init_mean_of_static_samples() {
    // five nearly static samples: the mean seeds gravity and gyro bias
    let mut acc = ImuInitAccumulator::new();
    let zs = [98_100i64, 98_200, 98_000, 98_100, 98_100];
    for (i, z) in zs.iter().enumerate() {
        let sample = ImuSampleFx {
            lin: Vec3Fx::new(0, 0, *z),
            ang: Vec3Fx::new(0, 0, 0),
        };
        acc.push(&StampedMeasurement::new((i as i64) * 200_000, sample));
    }
    let init = acc.finish().unwrap();
    assert_eq!(init.sample_count, 5);
    assert_eq!(init.timestamp_init, 4 * 200_000);
    assert_eq!(init.lin_mean, Vec3Fx::new(0, 0, 98_100));
    assert_eq!(init.ang_mean, Vec3Fx::new(0, 0, 0));
}

#[test]
fn imu_init_empty_is_absent() {
    let acc = ImuInitAccumulator::new();
    assert!(acc.finish().is_none());
}
