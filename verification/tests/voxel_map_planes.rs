use nalgebra::{Matrix3, Matrix6, RowVector3, Vector3, Vector6};
use odometries::fixed::{voxel_index, Vec3Fx};
use odometries::plane::{UPointFx, NSCALE};
use odometries::voxel_map::{
    plane_eigen_gate, plane_fit_gate, FitData, FitRequest, PlaneConfig, PlaneInitError, VoxelMap,
    VoxelMapConfig,
};

// Lattice scale used by these tests: 10_000 steps per meter.
const S: f64 = 10_000.0;

fn config() -> VoxelMapConfig {
    VoxelMapConfig {
        plane: PlaneConfig {
            max_layer: 4,
            plane_init_threshold: 5,
            update_threshold: 5,
            // 0.01 m^2, at the squared lattice scale
            plane_eigen_threshold: (0.01 * S * S) as i64,
            max_points: 50,
        },
        // sigma ratio 3, squared
        sigma_ratio_sq: 9,
        // 0.5 m voxels
        voxel_size: (0.5 * S) as i64,
    }
}

fn upoint(x: f64, y: f64, z: f64, sigma_m: f64) -> UPointFx {
    // an isotropic point covariance at the squared lattice scale
    let var = (sigma_m * S) * (sigma_m * S);
    let mut cov = vec![0i64; 9];
    cov[0] = var as i64;
    cov[4] = var as i64;
    cov[8] = var as i64;
    UPointFx {
        p: Vec3Fx::new((x * S).round() as i64, (y * S).round() as i64, (z * S).round() as i64),
        cov,
    }
}

/// The weighted plane fit the map expects, in floating point:
/// centroid and scatter of the cached points, the scatter's
/// eigendecomposition, and the 6-by-6 covariance of (normal, centroid)
/// from linearizing the estimator over the uncertain inputs.
fn fit(points: &[UPointFx]) -> FitData {
    let n = points.len() as f64;
    let ps: Vec<Vector3<f64>> = points
        .iter()
        .map(|u| Vector3::new(u.p.x as f64, u.p.y as f64, u.p.z as f64))
        .collect();
    let mean = ps.iter().sum::<Vector3<f64>>() / n;
    let mut scatter = Matrix3::zeros();
    for p in &ps {
        let d = p - mean;
        scatter += d * d.transpose();
    }
    scatter /= n;
    let eig = scatter.symmetric_eigen();
    let mut min_i = 0;
    let mut max_v = eig.eigenvalues[0];
    for i in 1..3 {
        if eig.eigenvalues[i] < eig.eigenvalues[min_i] {
            min_i = i;
        }
        if eig.eigenvalues[i] > max_v {
            max_v = eig.eigenvalues[i];
        }
    }
    let min_v = eig.eigenvalues[min_i];
    let vmin: Vector3<f64> = eig.eigenvectors.column(min_i).into_owned();

    // linearized covariance of (normal, centroid) over the input points
    let mut cov = Matrix6::<f64>::zeros();
    for (k, p) in ps.iter().enumerate() {
        let mut normal_rows = Matrix3::<f64>::zeros();
        for j in 0..3 {
            let ev = eig.eigenvalues[j];
            let diff = min_v - ev;
            let row: RowVector3<f64> = if diff.abs() < 1e-12 {
                RowVector3::zeros()
            } else {
                let vj: Vector3<f64> = eig.eigenvectors.column(j).into_owned();
                ((p - mean).transpose() / (n * diff))
                    * (vj * vmin.transpose() + vmin * vj.transpose())
            };
            normal_rows.set_row(j, &row);
        }
        let m_i = eig.eigenvectors * normal_rows;
        let pos = Matrix3::identity() / n;
        // 6x3 error matrix: normal sensitivity above centroid sensitivity
        let pcov = &points[k].cov;
        let sigma_p = Matrix3::new(
            pcov[0] as f64,
            pcov[1] as f64,
            pcov[2] as f64,
            pcov[3] as f64,
            pcov[4] as f64,
            pcov[5] as f64,
            pcov[6] as f64,
            pcov[7] as f64,
            pcov[8] as f64,
        );
        let top = m_i * sigma_p * m_i.transpose();
        let bottom = pos * sigma_p * pos.transpose();
        let cross = m_i * sigma_p * pos.transpose();
        for a in 0..3 {
            for b in 0..3 {
                cov[(a, b)] += top[(a, b)];
                cov[(a + 3, b + 3)] += bottom[(a, b)];
                cov[(a, b + 3)] += cross[(a, b)];
                cov[(b + 3, a)] += cross[(a, b)];
            }
        }
    }

    // scale the blocks to the map's integer convention: normal rows and
    // columns carry the normal scale
    let nf = NSCALE as f64;
    let mut cov_fx = vec![0i64; 36];
    for a in 0..6 {
        for b in 0..6 {
            let wa = if a < 3 { nf } else { 1.0 };
            let wb = if b < 3 { nf } else { 1.0 };
            cov_fx[a * 6 + b] = (cov[(a, b)] * wa * wb).round() as i64;
        }
    }

    FitData {
        min_eigenvalue: min_v.round() as i64,
        normal: Vec3Fx::new(
            (vmin.x * nf).round() as i64,
            (vmin.y * nf).round() as i64,
            (vmin.z * nf).round() as i64,
        ),
        center: Vec3Fx::new(
            mean.x.round() as i64,
            mean.y.round() as i64,
            mean.z.round() as i64,
        ),
        radius_sq: max_v.round() as i64,
        cov: cov_fx,
    }
}

/// Drive the map's deferred fits to completion, fitting with the
/// floating-point harness above.
fn drain_fits(map: &mut VoxelMap, mut queue: Vec<FitRequest>) {
    while let Some(req) = queue.pop() {
        let data = fit(&req.points);
        let more = map.apply_fit(req, data);
        queue.extend(more);
    }
}

fn insert_all(map: &mut VoxelMap, points: Vec<UPointFx>) {
    for up in points {
        let req = map.insert(up);
        if let Some(req) = req {
            drain_fits(map, vec![req]);
        }
    }
}

// deterministic jitter in (-1, 1)
fn jitter(seed: &mut u64) -> f64 {
    *seed = seed.wrapping_mul(6364136223846793005).wrapping_add(1442695040888963407);
    ((*seed >> 11) as f64) / ((1u64 << 53) as f64) * 2.0 - 1.0
}

#[test]
fn map_plane_roundtrip() {
    // 200 points sampled from z = 0 with centimeter jitter, all in one
    // voxel: the containing root fits exactly one plane, normal along z
    let cfg = config();
    let mut map = VoxelMap::new(cfg);
    let mut seed = 7u64;
    let mut pts = Vec::new();
    for _ in 0..200 {
        let x = 0.05 + 0.4 * (jitter(&mut seed) * 0.5 + 0.5);
        let y = 0.05 + 0.4 * (jitter(&mut seed) * 0.5 + 0.5);
        let z = 0.01 * jitter(&mut seed);
        pts.push(upoint(x, y, z, 0.01));
    }
    insert_all(&mut map, pts);

    let idx = voxel_index(Vec3Fx::new((0.25 * S) as i64, (0.25 * S) as i64, 0), cfg.voxel_size);
    let planes = map.planes_at(idx).expect("the voxel has a root");
    assert_eq!(planes.len(), 1);
    let nz = planes[0].normal.z.abs() as f64 / NSCALE as f64;
    assert!(nz > 0.99, "normal should be along z, got {}", nz);
}

#[test]
fn residual_gating() {
    // one plane at z = 0 with sigma near a centimeter: a point a meter
    // away is rejected by the three-sigma gate, a point two centimeters
    // away is accepted
    let cfg = config();
    let mut map = VoxelMap::new(cfg);
    let mut seed = 3u64;
    let mut pts = Vec::new();
    for _ in 0..200 {
        let x = 0.05 + 0.4 * (jitter(&mut seed) * 0.5 + 0.5);
        let y = 0.05 + 0.4 * (jitter(&mut seed) * 0.5 + 0.5);
        let z = 0.01 * jitter(&mut seed);
        pts.push(upoint(x, y, z, 0.01));
    }
    insert_all(&mut map, pts);

    let far = upoint(0.25, 0.25, 1.0, 0.01);
    let far_hits = map.get_or_nearest_candidates(&far);
    assert_eq!(far_hits.len(), 0, "a point a meter off the plane must be gated out");

    let near = upoint(0.25, 0.25, 0.02, 0.01);
    let near_hits = map.get_or_nearest_candidates(&near);
    assert!(near_hits.len() >= 1, "a point two centimeters off the plane must pass");
}

#[test]
fn scan_outside_map_misses_but_grows() {
    // a query in an uncharted voxel yields nothing; inserting there grows
    // the map by one root
    let cfg = config();
    let mut map = VoxelMap::new(cfg);
    insert_all(&mut map, vec![upoint(0.1, 0.1, 0.0, 0.01)]);
    assert_eq!(map.root_count(), 1);

    let elsewhere = upoint(5.0, 5.0, 5.0, 0.01);
    assert_eq!(map.get_or_nearest_candidates(&elsewhere).len(), 0);

    insert_all(&mut map, vec![elsewhere]);
    assert_eq!(map.root_count(), 2);
    let idx = voxel_index(Vec3Fx::new((5.0 * S) as i64, (5.0 * S) as i64, (5.0 * S) as i64), cfg.voxel_size);
    assert!(map.has_root(idx));
}

#[test]
fn frozen_leaf_absorbs_points() {
    // beyond max_points insertions the leaf freezes: the plane stays and
    // further points change nothing visible
    let cfg = config();
    let mut map = VoxelMap::new(cfg);
    let mut seed = 11u64;
    let mut pts = Vec::new();
    for _ in 0..80 {
        let x = 0.05 + 0.4 * (jitter(&mut seed) * 0.5 + 0.5);
        let y = 0.05 + 0.4 * (jitter(&mut seed) * 0.5 + 0.5);
        let z = 0.002 + 0.001 * jitter(&mut seed);
        pts.push(upoint(x, y, z, 0.01));
    }
    insert_all(&mut map, pts);
    assert_eq!(map.root_count(), 1);
    let idx = voxel_index(Vec3Fx::new((0.25 * S) as i64, (0.25 * S) as i64, 0), cfg.voxel_size);
    let planes = map.planes_at(idx).expect("root exists");
    assert_eq!(planes.len(), 1);
}

#[test]
fn fit_gates_classify_errors() {
    let cfg = config();
    // too few points to attempt a fit
    assert_eq!(plane_fit_gate(3, &cfg.plane), Some(PlaneInitError::TooFewPoints));
    assert_eq!(plane_fit_gate(5, &cfg.plane), None);
    // an eigenvalue at the threshold is not planar
    assert_eq!(
        plane_eigen_gate(cfg.plane.plane_eigen_threshold, &cfg.plane),
        Some(PlaneInitError::EigenValueTooBig)
    );
    assert_eq!(plane_eigen_gate(0, &cfg.plane), None);
}

#[test]
fn non_planar_leaf_subdivides() {
    // points filling a 3-D blob are not planar: the leaf prunes into
    // children instead of fitting a plane at the root
    let cfg = config();
    let mut map = VoxelMap::new(cfg);
    let mut seed = 5u64;
    let mut pts = Vec::new();
    for _ in 0..30 {
        let x = 0.05 + 0.4 * (jitter(&mut seed) * 0.5 + 0.5);
        let y = 0.05 + 0.4 * (jitter(&mut seed) * 0.5 + 0.5);
        let z = 0.05 + 0.4 * (jitter(&mut seed) * 0.5 + 0.5);
        pts.push(upoint(x, y, z, 0.01));
    }
    insert_all(&mut map, pts);
    assert_eq!(map.root_count(), 1);
    // the blob fits no plane anywhere
    assert_eq!(map.planes().len(), 0);
}

#[test]
fn fit_request_cadence() {
    // a fit becomes due exactly when the plane is absent and the cache
    // reaches the init threshold; the request carries the cached points
    let cfg = config();
    let mut map = VoxelMap::new(cfg);
    for i in 0..4 {
        let up = upoint(0.21 + 0.01 * i as f64, 0.25, 0.0, 0.01);
        assert!(map.insert(up).is_none(), "below the threshold no fit is due");
    }
    let req = map
        .insert(upoint(0.25, 0.25, 0.0, 0.01))
        .expect("the fifth point makes the first fit due");
    assert_eq!(req.points.len(), 5);
    // accept a plane; the cadence only comes due again at ten points
    let data = FitData {
        min_eigenvalue: 0,
        normal: Vec3Fx::new(0, 0, NSCALE),
        center: Vec3Fx::new(2500, 2500, 0),
        radius_sq: 49_000_000,
        cov: vec![0i64; 36],
    };
    assert!(map.apply_fit(req, data).is_empty());
    for i in 0..4 {
        let up = upoint(0.21 + 0.01 * i as f64, 0.3, 0.0, 0.01);
        assert!(map.insert(up).is_none(), "a live plane defers refitting");
    }
    let refit = map.insert(upoint(0.25, 0.3, 0.0, 0.01));
    assert!(refit.is_some(), "the tenth point drops the plane and refits");
    assert_eq!(refit.unwrap().points.len(), 10);
}

#[test]
fn candidate_numbers_are_exact() {
    // a hand-made plane with unit z normal, zero plane covariance and a
    // generous radius: the query's distance and variance come back as
    // exact integers
    let cfg = config();
    let mut map = VoxelMap::new(cfg);
    let mut req = None;
    for i in 0..5 {
        let up = upoint(0.21 + 0.01 * i as f64, 0.25, 0.0, 0.01);
        if let Some(r) = map.insert(up) {
            req = Some(r);
        }
    }
    let req = req.expect("the fifth insert requests a fit");
    let data = FitData {
        min_eigenvalue: 0,
        normal: Vec3Fx::new(0, 0, NSCALE),
        center: Vec3Fx::new(2500, 2500, 0),
        radius_sq: 49_000_000,
        cov: vec![0i64; 36],
    };
    let more = map.apply_fit(req, data);
    assert!(more.is_empty());

    let q = upoint(0.25, 0.25, 0.02, 0.01);
    let hits = map.get_or_nearest_candidates(&q);
    assert_eq!(hits.len(), 1);
    // d = NSCALE * 200 lattice steps above the plane
    assert_eq!(hits[0].distance, NSCALE as i128 * 200);
    assert_eq!(hits[0].distance_sq, (NSCALE as i128 * 200) * (NSCALE as i128 * 200));
    // sigma = n^T cov n = NSCALE^2 * (0.01 m at the lattice scale)^2
    assert_eq!(hits[0].sigma, NSCALE as i128 * NSCALE as i128 * 10_000);
}

#[test]
fn nearest_voxel_fallback() {
    // the plane lives just below z = 0, in the voxel underneath the
    // query's; the query's own root holds no plane, so the residual
    // comes from the single nearest voxel
    let cfg = config();
    let mut map = VoxelMap::new(cfg);
    let mut seed = 17u64;
    let mut pts = Vec::new();
    for _ in 0..200 {
        let x = 0.05 + 0.4 * (jitter(&mut seed) * 0.5 + 0.5);
        let y = 0.05 + 0.4 * (jitter(&mut seed) * 0.5 + 0.5);
        let z = -0.002 + 0.001 * jitter(&mut seed);
        pts.push(upoint(x, y, z, 0.01));
    }
    insert_all(&mut map, pts);

    // a few planeless points just above z = 0 open the query's root
    for i in 0..3 {
        insert_all(&mut map, vec![upoint(0.2 + 0.01 * i as f64, 0.25, 0.01, 0.01)]);
    }
    assert_eq!(map.root_count(), 2);

    // the query's own voxel has a root but no plane; it sits below the
    // root's inner wall on z, so the fallback looks one voxel down
    let q = upoint(0.25, 0.25, 0.01, 0.01);
    let hits = map.get_or_nearest_candidates(&q);
    assert!(hits.len() >= 1, "the nearest voxel's plane should answer");
}
