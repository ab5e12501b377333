use dars::GaussianError;
use dars::gaussian::{E, Gaussian, M, PGaussian};
use dars::mat::Mat;

fn center() -> Mat {
    Mat::new(2, 1, vec![1, 0], 1).unwrap()
}

fn cov() -> Mat {
    Mat::new(2, 2, vec![1, 0, 0, 1], 1).unwrap()
}

fn half_cov() -> Mat {
    Mat::new(2, 2, vec![1, 0, 0, 1], 2).unwrap()
}

fn g2e() -> E {
    Gaussian::from_mean(center(), cov()).natural_form().unwrap()
}

fn g() -> Gaussian {
    Gaussian::from_mean(center(), cov())
}

#[test]
fn merge() {
    let g1 = g2e();
    let g2 = g2e();
    let g3e = g1.fuse(&g2).unwrap();
    let g3m = g3e.to_m().unwrap();
    assert!(g3m.center.eqv(&center()).unwrap());
    assert!(g3m.cov.eqv(&half_cov()).unwrap());
}

#[test]
fn gaussian_merge() {
    let g1 = g();
    let g2 = g();
    let mut g3 = g1.fuse(&g2).unwrap();
    g3.as_m().unwrap();
    assert!(g3.center().unwrap().eqv(&center()).unwrap());
    assert!(g3.cov().unwrap().eqv(&half_cov()).unwrap());
}

fn pg_3to2() -> PGaussian {
    let h = Mat::new(2, 3, vec![1, 0, 0, 0, 1, 0], 1).unwrap();
    PGaussian::new(h, g()).unwrap()
}

#[test]
fn size() {
    let pg = pg_3to2();
    assert_eq!(pg.size(), 3);
}

#[test]
fn upward_reduction() {
    // Reducing a 2-dimensional Gaussian through a 2-by-3 projection yields a
    // 3-by-3 precision of rank at most 2; requesting moments must then fail
    // with SingularMatrix.
    let reduced = pg_3to2().reduction().unwrap();
    assert_eq!(reduced.size().unwrap(), 3);
    assert_eq!(reduced.center().unwrap_err(), GaussianError::SingularMatrix);
    assert_eq!(reduced.cov().unwrap_err(), GaussianError::SingularMatrix);
}

#[test]
fn round_trip_exact() {
    // mean (3/2, 2), covariance [[2, 1], [1, 2]]
    let m = M { center: Mat::new(2, 1, vec![3, 4], 2).unwrap(), cov: Mat::new(
        2,
        2,
        vec![2, 1, 1, 2],
        1,
    ).unwrap() };
    let e = m.to_e().unwrap();
    let m2 = e.to_m().unwrap();
    assert!(m2.center.eqv(&m.center).unwrap());
    assert!(m2.cov.eqv(&m.cov).unwrap());
}

#[test]
fn round_trip_natural_exact() {
    let e = E { ab: Mat::new(2, 1, vec![1, 1], 3).unwrap(), prec: Mat::new(
        2,
        2,
        vec![5, 2, 2, 5],
        2,
    ).unwrap() };
    let m = e.to_m().unwrap();
    let e2 = m.to_e().unwrap();
    assert!(e2.ab.eqv(&e.ab).unwrap());
    assert!(e2.prec.eqv(&e.prec).unwrap());
}

#[test]
fn fusion_commutes() {
    let a = M { center: Mat::new(2, 1, vec![1, 2], 1).unwrap(), cov: Mat::new(
        2,
        2,
        vec![2, 0, 0, 3],
        1,
    ).unwrap() }.to_e().unwrap();
    let b = M { center: Mat::new(2, 1, vec![-1, 5], 2).unwrap(), cov: Mat::new(
        2,
        2,
        vec![3, 1, 1, 3],
        2,
    ).unwrap() }.to_e().unwrap();
    let ab = a.fuse(&b).unwrap();
    let ba = b.fuse(&a).unwrap();
    assert!(ab.ab.eqv(&ba.ab).unwrap());
    assert!(ab.prec.eqv(&ba.prec).unwrap());
}

#[test]
fn fusion_associates() {
    let a = M { center: Mat::new(1, 1, vec![1], 1).unwrap(), cov: Mat::new(1, 1, vec![2], 1)
        .unwrap() }.to_e().unwrap();
    let b = M { center: Mat::new(1, 1, vec![3], 2).unwrap(), cov: Mat::new(1, 1, vec![1], 1)
        .unwrap() }.to_e().unwrap();
    let c = M { center: Mat::new(1, 1, vec![-2], 1).unwrap(), cov: Mat::new(1, 1, vec![5], 3)
        .unwrap() }.to_e().unwrap();
    let left = a.fuse(&b).unwrap().fuse(&c).unwrap();
    let right = a.fuse(&b.fuse(&c).unwrap()).unwrap();
    assert!(left.ab.eqv(&right.ab).unwrap());
    assert!(left.prec.eqv(&right.prec).unwrap());
}

#[test]
fn fuse_dimension_mismatch() {
    let a = g();
    let b = Gaussian::from_mean(
        Mat::new(3, 1, vec![1, 0, 0], 1).unwrap(),
        Mat::eye(3).unwrap(),
    );
    assert_eq!(a.fuse(&b).unwrap_err(), GaussianError::DimensionMismatch);
    let mut a2 = g();
    assert_eq!(a2.fuse_into(&b).unwrap_err(), GaussianError::DimensionMismatch);
}

#[test]
fn pgaussian_dimension_mismatch() {
    // 3 rows against a 2-dimensional Gaussian
    let h = Mat::new(3, 2, vec![1, 0, 0, 1, 0, 0], 1).unwrap();
    assert_eq!(PGaussian::new(h, g()).unwrap_err(), GaussianError::DimensionMismatch);
}

#[test]
fn singular_covariance() {
    let m = M { center: Mat::new(2, 1, vec![1, 0], 1).unwrap(), cov: Mat::new(
        2,
        2,
        vec![1, 1, 1, 1],
        1,
    ).unwrap() };
    assert_eq!(m.to_e().unwrap_err(), GaussianError::SingularMatrix);
}

#[test]
fn size_reports_mismatch() {
    let m = M { center: Mat::new(3, 1, vec![1, 0, 0], 1).unwrap(), cov: Mat::new(
        2,
        2,
        vec![1, 0, 0, 1],
        1,
    ).unwrap() };
    assert_eq!(m.size().unwrap_err(), GaussianError::DimensionMismatch);
    let e = E { ab: Mat::new(2, 1, vec![1, 0], 1).unwrap(), prec: Mat::new(
        2,
        3,
        vec![1, 0, 0, 0, 1, 0],
        1,
    ).unwrap() };
    assert_eq!(e.size().unwrap_err(), GaussianError::DimensionMismatch);
    assert_eq!(g().size().unwrap(), 2);
}

#[test]
fn mat_construction_checks() {
    assert_eq!(Mat::new(2, 2, vec![1, 2, 3], 1).unwrap_err(), GaussianError::DimensionMismatch);
    assert_eq!(
        Mat::new(2, 2, vec![1, 2, 3, 4], 0).unwrap_err(),
        GaussianError::DimensionMismatch
    );
    let m = Mat::new(2, 3, vec![1, 2, 3, 4, 5, 6], 7).unwrap();
    assert_eq!(m.rows(), 2);
    assert_eq!(m.cols(), 3);
    assert_eq!(m.den(), 7);
    assert_eq!(m.get(1, 2), 6);
}

#[test]
fn fuse_into_updates_in_place() {
    let mut a = g2e();
    let b = g2e();
    a.fuse_into(&b).unwrap();
    let m = a.to_m().unwrap();
    assert!(m.center.eqv(&center()).unwrap());
    assert!(m.cov.eqv(&half_cov()).unwrap());
}

#[test]
fn from_natural_round_trip() {
    let e = g2e();
    let mut gn = Gaussian::from_natural(e.ab, e.prec);
    assert_eq!(gn.size().unwrap(), 2);
    gn.as_m().unwrap();
    assert!(gn.center().unwrap().eqv(&center()).unwrap());
    gn.as_e().unwrap();
    assert_eq!(gn.size().unwrap(), 2);
}

#[test]
fn eqv_is_scale_independent() {
    let a = Mat::new(2, 2, vec![1, 0, 0, 1], 2).unwrap();
    let b = Mat::new(2, 2, vec![3, 0, 0, 3], 6).unwrap();
    let c = Mat::new(2, 2, vec![1, 0, 0, 2], 2).unwrap();
    assert!(a.eqv(&b).unwrap());
    assert!(!a.eqv(&c).unwrap());
}

// Pseudo-random exact stability: round trip and fusion identity hold exactly
// for generated symmetric-positive-definite covariances of dimensions 1 to 5.
struct Lcg(u64);

impl Lcg {
    fn next(&mut self) -> u64 {
        self.0 = self.0.wrapping_mul(6364136223846793005).wrapping_add(1442695040888963407);
        self.0 >> 33
    }

    fn small(&mut self, lo: i128, hi: i128) -> i128 {
        lo + (self.next() as i128) % (hi - lo + 1)
    }
}

#[test]
fn randomized_stability() {
    let mut rng = Lcg(12345);
    for case in 0..60 {
        let n = 1 + (case % 5) as usize;
        let mut b_entries: Vec<i128> = Vec::new();
        for _ in 0..n * n {
            b_entries.push(rng.small(-3, 3));
        }
        let b = Mat::new(n, n, b_entries, 1).unwrap();
        // covariance = transpose(B) * B + (n + 1) * identity: positive definite
        let bt = b.transpose();
        let btb = bt.mul(&b).unwrap();
        let mut diag: Vec<i128> = vec![0; n * n];
        for i in 0..n {
            diag[i * n + i] = (n as i128) + 1;
        }
        let shift = Mat::new(n, n, diag, 1).unwrap();
        let cov = btb.add(&shift).unwrap();
        let mut c_entries: Vec<i128> = Vec::new();
        for _ in 0..n {
            c_entries.push(rng.small(-9, 9));
        }
        let center = Mat::new(n, 1, c_entries, 2).unwrap();
        let m = M { center, cov };
        // round trip
        let e = m.to_e().unwrap();
        let m2 = e.to_m().unwrap();
        assert!(m2.center.eqv(&m.center).unwrap());
        assert!(m2.cov.eqv(&m.cov).unwrap());
        // fusion identity: fused covariance doubled equals the original
        let fused = e.fuse(&e).unwrap();
        let m3 = fused.to_m().unwrap();
        assert!(m3.center.eqv(&m.center).unwrap());
        let doubled = m3.cov.add(&m3.cov).unwrap();
        assert!(doubled.eqv(&m.cov).unwrap());
    }
}

#[test]
fn eye_and_transpose() {
    let idm = Mat::eye(3).unwrap();
    assert_eq!(idm.get(0, 0), 1);
    assert_eq!(idm.get(0, 1), 0);
    assert_eq!(idm.den(), 1);
    let m = Mat::new(2, 3, vec![1, 2, 3, 4, 5, 6], 1).unwrap();
    let t = m.transpose();
    assert_eq!(t.rows(), 3);
    assert_eq!(t.cols(), 2);
    assert_eq!(t.get(2, 0), 3);
    assert_eq!(t.get(0, 1), 4);
}

#[test]
fn invert_checks_its_answer() {
    // diag(1, 2) has the exact inverse diag(1, 1/2)
    let m = Mat::new(2, 2, vec![2, 0, 0, 4], 2).unwrap();
    let inv = m.invert().unwrap();
    let expected = Mat::new(2, 2, vec![2, 0, 0, 1], 2).unwrap();
    assert!(inv.eqv(&expected).unwrap());
    // a non-square matrix is a dimension error
    let r = Mat::new(2, 3, vec![1, 0, 0, 0, 1, 0], 1).unwrap();
    assert_eq!(r.invert().unwrap_err(), GaussianError::DimensionMismatch);
    // a singular matrix admits no inverse
    let s = Mat::new(2, 2, vec![1, 2, 2, 4], 1).unwrap();
    assert_eq!(s.invert().unwrap_err(), GaussianError::SingularMatrix);
}
