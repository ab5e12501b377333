//! Gaussians as an exponential family: the moment form `M` (mean and
//! covariance), the natural form `E` (information vector and precision), the
//! tagged union `Gaussian` over the two, and the projected Gaussian
//! `PGaussian` with its dimensionality reduction.
//!
//! Fusion of two independent Gaussian beliefs is exact addition of natural
//! parameters: the product of two Gaussian densities is, up to normalization,
//! the Gaussian whose precision is the sum of the precisions and whose
//! information vector is the sum of the information vectors.

use vstd::prelude::*;

use crate::GaussianError;
use crate::mat::{Mat, MatV, add_v, add_ok, mul_ok, inv_pair, mul_rel, transpose_rel};

verus! {

/// The shapes of a moment form agree: a square covariance and a column
/// center of matching length.
pub open spec fn m_wf(center: MatV, cov: MatV) -> bool {
    &&& cov.rows == cov.cols
    &&& cov.rows == center.rows
    &&& center.cols == 1
}

/// The shapes of a natural form agree: a square precision and a column
/// information vector of matching length.
pub open spec fn e_wf(ab: MatV, prec: MatV) -> bool {
    &&& prec.rows == prec.cols
    &&& prec.rows == ab.rows
    &&& ab.cols == 1
}

/// `(ab, prec)` are the natural parameters of the moment pair
/// `(center, cov)`: the precision is a two-sided rational inverse of the
/// covariance, and the information vector is exactly precision times center.
pub open spec fn natural_of(ab: MatV, prec: MatV, center: MatV, cov: MatV) -> bool {
    &&& inv_pair(cov, prec)
    &&& mul_rel(ab, prec, center)
}

/// `(center, cov)` are the moment parameters of the natural pair
/// `(ab, prec)`: the covariance is a two-sided rational inverse of the
/// precision, and the center is exactly covariance times information vector.
pub open spec fn moment_of(center: MatV, cov: MatV, ab: MatV, prec: MatV) -> bool {
    &&& inv_pair(prec, cov)
    &&& mul_rel(center, cov, ab)
}

/// `c` is the center of the Gaussian with natural parameters `(ab, prec)`:
/// some covariance completes it to a full moment reading.
pub open spec fn is_center_of(c: MatV, ab: MatV, prec: MatV) -> bool {
    exists|cov: MatV| #[trigger] moment_of(c, cov, ab, prec)
}

/// m-parameter (moment) form of a Gaussian.
#[derive(Debug)]
pub struct M {
    /// Center (mean) of the Gaussian, an n-by-1 column.
    pub center: Mat,
    /// Covariance matrix of the Gaussian, n-by-n.
    pub cov: Mat,
}

impl M {
    /// Dimensionality.  Fails with `DimensionMismatch` exactly when the
    /// covariance is not square or its side disagrees with the center's
    /// length.
    pub fn size(&self) -> (r: Result<usize, GaussianError>)
        ensures
            r is Ok <==> m_wf(self.center@, self.cov@),
            r matches Ok(n) ==> n == self.center@.rows,
            r matches Err(k) ==> k == GaussianError::DimensionMismatch,
    {
        if self.cov.rows() == self.cov.cols() && self.cov.rows() == self.center.rows()
            && self.center.cols() == 1 {
            Ok(self.center.rows())
        } else {
            Err(GaussianError::DimensionMismatch)
        }
    }

    /// Conversion to the natural form: precision is the inverse of the
    /// covariance, the information vector is precision times center.
    /// `DimensionMismatch` exactly when the shapes disagree; `SingularMatrix`
    /// when the covariance admits no inverse or a value left the
    /// representable range.
    pub fn to_e(&self) -> (r: Result<E, GaussianError>)
        ensures
            r is Err && r->Err_0 == GaussianError::DimensionMismatch <==> !m_wf(
                self.center@,
                self.cov@,
            ),
            r matches Ok(e) ==> natural_of(e.ab@, e.prec@, self.center@, self.cov@) && e_wf(
                e.ab@,
                e.prec@,
            ) && e.ab@.wf() && e.prec@.wf(),
            m_wf(self.center@, self.cov@) && !(exists|c2: MatV|
                c2.wf() && #[trigger] inv_pair(self.cov@, c2)) ==> r == Err::<E, GaussianError>(
                GaussianError::SingularMatrix,
            ),
    {
        match self.size() {
            Ok(_) => (),
            Err(k) => {
                return Err(k);
            },
        };
        let prec = match self.cov.invert() {
            Ok(p) => p,
            Err(_) => {
                return Err(GaussianError::SingularMatrix);
            },
        };
        let ab = match prec.mul(&self.center) {
            Ok(v) => v,
            Err(_) => {
                return Err(GaussianError::SingularMatrix);
            },
        };
        Ok(E { ab, prec })
    }
}

/// e-parameter (natural) form of a Gaussian.
#[derive(Debug)]
pub struct E {
    /// Information vector: precision times center, an n-by-1 column.
    pub ab: Mat,
    /// Precision matrix (inverse of the covariance matrix), n-by-n.
    pub prec: Mat,
}

impl E {
    /// Dimensionality.  Fails with `DimensionMismatch` exactly when the
    /// precision is not square or its side disagrees with the information
    /// vector's length.
    pub fn size(&self) -> (r: Result<usize, GaussianError>)
        ensures
            r is Ok <==> e_wf(self.ab@, self.prec@),
            r matches Ok(n) ==> n == self.ab@.rows,
            r matches Err(k) ==> k == GaussianError::DimensionMismatch,
    {
        if self.prec.rows() == self.prec.cols() && self.prec.rows() == self.ab.rows()
            && self.ab.cols() == 1 {
            Ok(self.ab.rows())
        } else {
            Err(GaussianError::DimensionMismatch)
        }
    }

    /// Conversion to the moment form: covariance is the inverse of the
    /// precision, the center is covariance times information vector.
    /// `DimensionMismatch` exactly when the shapes disagree; `SingularMatrix`
    /// when the precision admits no inverse or a value left the representable
    /// range.
    pub fn to_m(&self) -> (r: Result<M, GaussianError>)
        ensures
            r is Err && r->Err_0 == GaussianError::DimensionMismatch <==> !e_wf(
                self.ab@,
                self.prec@,
            ),
            r matches Ok(m) ==> moment_of(m.center@, m.cov@, self.ab@, self.prec@) && m_wf(
                m.center@,
                m.cov@,
            ) && m.center@.wf() && m.cov@.wf(),
            e_wf(self.ab@, self.prec@) && !(exists|c2: MatV|
                c2.wf() && #[trigger] inv_pair(self.prec@, c2)) ==> r == Err::<M, GaussianError>(
                GaussianError::SingularMatrix,
            ),
    {
        match self.size() {
            Ok(_) => (),
            Err(k) => {
                return Err(k);
            },
        };
        let cov = match self.prec.invert() {
            Ok(c) => c,
            Err(_) => {
                return Err(GaussianError::SingularMatrix);
            },
        };
        let center = match cov.mul(&self.ab) {
            Ok(v) => v,
            Err(_) => {
                return Err(GaussianError::SingularMatrix);
            },
        };
        Ok(M { center, cov })
    }

    /// Fusion in natural parameters: exact addition of the information
    /// vectors and of the precisions.  `DimensionMismatch` exactly when a
    /// form's own shapes disagree or the two sizes differ, checked before any
    /// numeric work; otherwise it succeeds exactly when every intermediate
    /// value is representable.
    pub fn fuse(&self, other: &E) -> (r: Result<E, GaussianError>)
        ensures
            r is Err && r->Err_0 == GaussianError::DimensionMismatch <==> !(e_wf(
                self.ab@,
                self.prec@,
            ) && e_wf(other.ab@, other.prec@) && self.ab@.rows == other.ab@.rows),
            r matches Ok(e) ==> e.ab@ == add_v(self.ab@, other.ab@) && e.prec@ == add_v(
                self.prec@,
                other.prec@,
            ) && e.ab@.wf() && e.prec@.wf(),
            e_wf(self.ab@, self.prec@) && e_wf(other.ab@, other.prec@) && self.ab@.rows
                == other.ab@.rows ==> (r is Ok <==> add_ok(self.ab@, other.ab@) && add_ok(
                self.prec@,
                other.prec@,
            )),
    {
        let n1 = match self.size() {
            Ok(n) => n,
            Err(k) => {
                return Err(k);
            },
        };
        let n2 = match other.size() {
            Ok(n) => n,
            Err(k) => {
                return Err(k);
            },
        };
        if n1 != n2 {
            return Err(GaussianError::DimensionMismatch);
        }
        let ab = match self.ab.add(&other.ab) {
            Ok(v) => v,
            Err(k) => {
                return Err(k);
            },
        };
        let prec = match self.prec.add(&other.prec) {
            Ok(v) => v,
            Err(k) => {
                return Err(k);
            },
        };
        Ok(E { ab, prec })
    }

    /// In-place fusion: on success the receiver holds the fused natural
    /// parameters; on any error it is left unchanged.
    pub fn fuse_into(&mut self, other: &E) -> (r: Result<(), GaussianError>)
        ensures
            r is Err && r->Err_0 == GaussianError::DimensionMismatch <==> !(e_wf(
                old(self).ab@,
                old(self).prec@,
            ) && e_wf(other.ab@, other.prec@) && old(self).ab@.rows == other.ab@.rows),
            r is Ok ==> final(self).ab@ == add_v(old(self).ab@, other.ab@) && final(self).prec@
                == add_v(old(self).prec@, other.prec@) && final(self).ab@.wf()
                && final(self).prec@.wf(),
            e_wf(old(self).ab@, old(self).prec@) && e_wf(other.ab@, other.prec@)
                && old(self).ab@.rows == other.ab@.rows ==> (r is Ok <==> add_ok(old(self).ab@, other.ab@)
                && add_ok(old(self).prec@, other.prec@)),
            r is Err ==> *final(self) == *old(self),
    {
        match self.fuse(other) {
            Ok(e) => {
                self.ab = e.ab;
                self.prec = e.prec;
                Ok(())
            },
            Err(k) => Err(k),
        }
    }
}

/// A Gaussian carried in whichever parameterization was cheapest to produce.
#[derive(Debug)]
pub enum Gaussian {
    /// Moment form: mean and covariance.
    M(M),
    /// Natural form: information vector and precision.
    E(E),
}

/// The active form's own shapes agree.
pub open spec fn g_wf(g: Gaussian) -> bool {
    match g {
        Gaussian::M(m) => m_wf(m.center@, m.cov@),
        Gaussian::E(e) => e_wf(e.ab@, e.prec@),
    }
}

/// Dimensionality of the Gaussian, read off the active form.
pub open spec fn g_size(g: Gaussian) -> nat {
    match g {
        Gaussian::M(m) => m.center@.rows,
        Gaussian::E(e) => e.ab@.rows,
    }
}

/// `(ab, prec)` is a natural-parameter reading of `g`: the stored parameters
/// for a natural form, the converted ones for a moment form.
pub open spec fn nat_view(g: Gaussian, ab: MatV, prec: MatV) -> bool {
    match g {
        Gaussian::M(m) => natural_of(ab, prec, m.center@, m.cov@),
        Gaussian::E(e) => ab == e.ab@ && prec == e.prec@,
    }
}

impl Gaussian {
    /// Constructs a Gaussian from a mean and a covariance, without any
    /// conversion.
    pub fn from_mean(center: Mat, cov: Mat) -> (r: Gaussian)
        ensures
            r == Gaussian::M(M { center, cov }),
    {
        Gaussian::M(M { center, cov })
    }

    /// Constructs a Gaussian from an information vector and a precision,
    /// without any conversion.
    pub fn from_natural(ab: Mat, prec: Mat) -> (r: Gaussian)
        ensures
            r == Gaussian::E(E { ab, prec }),
    {
        Gaussian::E(E { ab, prec })
    }

    /// Dimensionality, delegated to the active form.  `DimensionMismatch`
    /// exactly when that form's shapes disagree.
    pub fn size(&self) -> (r: Result<usize, GaussianError>)
        ensures
            r is Ok <==> g_wf(*self),
            r matches Ok(n) ==> n == g_size(*self),
            r matches Err(k) ==> k == GaussianError::DimensionMismatch,
    {
        match self {
            Gaussian::M(m) => m.size(),
            Gaussian::E(e) => e.size(),
        }
    }

    /// The natural parameters of this Gaussian, as a fresh natural form:
    /// stored parameters are copied, moment parameters are converted.
    pub fn natural_form(&self) -> (r: Result<E, GaussianError>)
        ensures
            r is Err && r->Err_0 == GaussianError::DimensionMismatch <==> !g_wf(*self),
            r matches Ok(e) ==> nat_view(*self, e.ab@, e.prec@) && e_wf(e.ab@, e.prec@)
                && e.ab@.wf() && e.prec@.wf(),
            *self matches Gaussian::E(_) && g_wf(*self) ==> r is Ok,
    {
        match self {
            Gaussian::E(e) => {
                match e.size() {
                    Ok(_) => (),
                    Err(k) => {
                        return Err(k);
                    },
                };
                Ok(E { ab: e.ab.duplicate(), prec: e.prec.duplicate() })
            },
            Gaussian::M(m) => m.to_e(),
        }
    }

    /// Replaces the representation by the natural form; on any error the
    /// Gaussian is left unchanged.
    pub fn as_e(&mut self) -> (r: Result<(), GaussianError>)
        ensures
            r is Ok ==> (*final(self) matches Gaussian::E(e) && nat_view(*old(self), e.ab@, e.prec@)),
            r is Err ==> *final(self) == *old(self),
            r is Err && r->Err_0 == GaussianError::DimensionMismatch <==> !g_wf(*old(self)),
            *old(self) matches Gaussian::E(_) && g_wf(*old(self)) ==> r is Ok,
    {
        let e = match self.natural_form() {
            Ok(e) => e,
            Err(k) => {
                return Err(k);
            },
        };
        *self = Gaussian::E(e);
        Ok(())
    }

    /// Replaces the representation by the moment form; on any error the
    /// Gaussian is left unchanged.
    pub fn as_m(&mut self) -> (r: Result<(), GaussianError>)
        ensures
            r is Ok ==> (*final(self) matches Gaussian::M(m2) && (match *old(self) {
                Gaussian::M(m) => m2.center@ == m.center@ && m2.cov@ == m.cov@,
                Gaussian::E(e) => moment_of(m2.center@, m2.cov@, e.ab@, e.prec@),
            })),
            r is Err ==> *final(self) == *old(self),
            r is Err && r->Err_0 == GaussianError::DimensionMismatch <==> !g_wf(*old(self)),
            *old(self) matches Gaussian::M(_) && g_wf(*old(self)) ==> r is Ok,
    {
        match self {
            Gaussian::M(m) => {
                match m.size() {
                    Ok(_) => (),
                    Err(k) => {
                        return Err(k);
                    },
                };
                Ok(())
            },
            Gaussian::E(e) => {
                let m = match e.to_m() {
                    Ok(m) => m,
                    Err(k) => {
                        return Err(k);
                    },
                };
                *self = Gaussian::M(m);
                Ok(())
            },
        }
    }

    /// The mean.  Read directly off a moment form; recomputed from scratch
    /// for a natural form (never cached).
    pub fn center(&self) -> (r: Result<Mat, GaussianError>)
        ensures
            r is Err && r->Err_0 == GaussianError::DimensionMismatch <==> !g_wf(*self),
            r matches Ok(c) ==> (*self matches Gaussian::M(m) ==> c@ == m.center@),
            r matches Ok(c) ==> (*self matches Gaussian::E(e) ==> is_center_of(
                c@,
                e.ab@,
                e.prec@,
            )),
            r matches Ok(c) ==> c@.wf(),
            *self matches Gaussian::M(_) && g_wf(*self) ==> r is Ok,
    {
        match self {
            Gaussian::M(m) => {
                match m.size() {
                    Ok(_) => (),
                    Err(k) => {
                        return Err(k);
                    },
                };
                Ok(m.center.duplicate())
            },
            Gaussian::E(e) => {
                let m = match e.to_m() {
                    Ok(m) => m,
                    Err(k) => {
                        return Err(k);
                    },
                };
                let c = m.center;
                proof {
                    assert(moment_of(c@, m.cov@, e.ab@, e.prec@));
                    assert(is_center_of(c@, e.ab@, e.prec@));
                }
                Ok(c)
            },
        }
    }

    /// The covariance.  Read directly off a moment form; recomputed from
    /// scratch for a natural form (never cached).
    pub fn cov(&self) -> (r: Result<Mat, GaussianError>)
        ensures
            r is Err && r->Err_0 == GaussianError::DimensionMismatch <==> !g_wf(*self),
            r matches Ok(c) ==> (*self matches Gaussian::M(m) ==> c@ == m.cov@),
            r matches Ok(c) ==> (*self matches Gaussian::E(e) ==> inv_pair(e.prec@, c@)),
            r matches Ok(c) ==> c@.wf(),
            *self matches Gaussian::M(_) && g_wf(*self) ==> r is Ok,
    {
        match self {
            Gaussian::M(m) => {
                match m.size() {
                    Ok(_) => (),
                    Err(k) => {
                        return Err(k);
                    },
                };
                Ok(m.cov.duplicate())
            },
            Gaussian::E(e) => {
                let m = match e.to_m() {
                    Ok(m) => m,
                    Err(k) => {
                        return Err(k);
                    },
                };
                Ok(m.cov)
            },
        }
    }

    /// Fusion of two independent Gaussian beliefs: both operands are read
    /// through their natural-parameter view and those parameters are added;
    /// the result stays in natural form.  A size disagreement is
    /// `DimensionMismatch`, detected before any numeric work.
    pub fn fuse(&self, other: &Gaussian) -> (r: Result<Gaussian, GaussianError>)
        ensures
            !g_wf(*self) || !g_wf(*other) || g_size(*self) != g_size(*other) <==> r == Err::<
                Gaussian,
                GaussianError,
            >(GaussianError::DimensionMismatch),
            r matches Ok(g) ==> (g matches Gaussian::E(e) && exists|
                aa: MatV,
                pa: MatV,
                bb: MatV,
                pb: MatV,
            |
                {
                    &&& #[trigger] nat_view(*self, aa, pa)
                    &&& #[trigger] nat_view(*other, bb, pb)
                    &&& e.ab@ == add_v(aa, bb)
                    &&& e.prec@ == add_v(pa, pb)
                } && e.ab@.wf() && e.prec@.wf()),
            *self matches Gaussian::E(ea) ==> (*other matches Gaussian::E(eb) ==> ((g_wf(*self)
                && g_wf(*other) && g_size(*self) == g_size(*other)) ==> (r is Ok <==> add_ok(
                ea.ab@,
                eb.ab@,
            ) && add_ok(ea.prec@, eb.prec@)))),
    {
        let n1 = match self.size() {
            Ok(n) => n,
            Err(k) => {
                return Err(k);
            },
        };
        let n2 = match other.size() {
            Ok(n) => n,
            Err(k) => {
                return Err(k);
            },
        };
        if n1 != n2 {
            return Err(GaussianError::DimensionMismatch);
        }
        let ea = match self.natural_form() {
            Ok(e) => e,
            Err(k) => {
                return Err(k);
            },
        };
        let eb = match other.natural_form() {
            Ok(e) => e,
            Err(k) => {
                return Err(k);
            },
        };
        let fused = match ea.fuse(&eb) {
            Ok(e) => e,
            Err(k) => {
                return Err(k);
            },
        };
        proof {
            assert(nat_view(*self, ea.ab@, ea.prec@));
            assert(nat_view(*other, eb.ab@, eb.prec@));
        }
        Ok(Gaussian::E(fused))
    }

    /// In-place fusion: on success the receiver holds the fused Gaussian in
    /// natural form; on any error it is left unchanged.
    pub fn fuse_into(&mut self, other: &Gaussian) -> (r: Result<(), GaussianError>)
        ensures
            !g_wf(*old(self)) || !g_wf(*other) || g_size(*old(self)) != g_size(*other) <==> r
                == Err::<(), GaussianError>(GaussianError::DimensionMismatch),
            r is Ok ==> (*final(self) matches Gaussian::E(e) && exists|
                aa: MatV,
                pa: MatV,
                bb: MatV,
                pb: MatV,
            |
                {
                    &&& #[trigger] nat_view(*old(self), aa, pa)
                    &&& #[trigger] nat_view(*other, bb, pb)
                    &&& e.ab@ == add_v(aa, bb)
                    &&& e.prec@ == add_v(pa, pb)
                } && e.ab@.wf() && e.prec@.wf()),
            *old(self) matches Gaussian::E(ea) ==> (*other matches Gaussian::E(eb) ==> ((g_wf(
                *old(self),
            ) && g_wf(*other) && g_size(*old(self)) == g_size(*other)) ==> (r is Ok <==> add_ok(
                ea.ab@,
                eb.ab@,
            ) && add_ok(ea.prec@, eb.prec@)))),
            r is Err ==> *final(self) == *old(self),
    {
        let g = match self.fuse(other) {
            Ok(g) => g,
            Err(k) => {
                return Err(k);
            },
        };
        *self = g;
        Ok(())
    }
}

/// A Gaussian over a latent space paired with a linear projection up to a
/// (weakly) larger space.
#[derive(Debug)]
pub struct PGaussian {
    /// n-by-k projection, mapping the k-dimensional reduced space up to the
    /// n-dimensional space of the Gaussian.
    pub projection: Mat,
    /// The underlying Gaussian; its dimension must equal the projection's
    /// row count.
    pub gaussian: Gaussian,
}

/// The projection's rows match the Gaussian's dimension, and the Gaussian's
/// own shapes agree.
pub open spec fn pg_wf(p: PGaussian) -> bool {
    g_wf(p.gaussian) && p.projection@.rows == g_size(p.gaussian)
}

impl PGaussian {
    /// Checked construction: `DimensionMismatch` exactly unless the
    /// projection's row count equals the Gaussian's dimension.
    pub fn new(projection: Mat, gaussian: Gaussian) -> (r: Result<PGaussian, GaussianError>)
        ensures
            r is Ok <==> g_wf(gaussian) && projection@.rows == g_size(gaussian),
            r matches Err(k) ==> k == GaussianError::DimensionMismatch,
            r matches Ok(p) ==> p == (PGaussian { projection, gaussian }),
    {
        let n = match gaussian.size() {
            Ok(n) => n,
            Err(k) => {
                return Err(k);
            },
        };
        if projection.rows() != n {
            return Err(GaussianError::DimensionMismatch);
        }
        Ok(PGaussian { projection, gaussian })
    }

    /// The dimensionality of the reduced (column) space of the projection.
    pub fn size(&self) -> (r: usize)
        ensures
            r == self.projection@.cols,
    {
        self.projection.cols()
    }

    /// Reduction: the Gaussian induced over the projected space, in natural
    /// form.  With `J` the projection and `(ab, prec)` the natural view of
    /// the held Gaussian, the result's information vector is `transpose(J)
    /// * ab` and its precision is `(transpose(J) * prec) * J`.  A shape
    /// disagreement is `DimensionMismatch`; on a Gaussian already in natural
    /// form the reduction succeeds exactly when every intermediate of the
    /// three products is representable.  The result is not converted back to
    /// moment form, so a rank-deficient reduced precision surfaces as
    /// `SingularMatrix` only when moments are later requested.
    pub fn reduction(self) -> (r: Result<Gaussian, GaussianError>)
        ensures
            !pg_wf(self) <==> r == Err::<Gaussian, GaussianError>(GaussianError::DimensionMismatch),
            r matches Ok(g) ==> (g matches Gaussian::E(e) && exists|
                ab: MatV,
                prec: MatV,
                rt: MatV,
                half: MatV,
            |
                {
                    &&& #[trigger] nat_view(self.gaussian, ab, prec)
                    &&& transpose_rel(rt, self.projection@)
                    &&& mul_rel(e.ab@, rt, ab)
                    &&& #[trigger] mul_rel(half, rt, prec)
                    &&& mul_rel(e.prec@, half, self.projection@)
                } && e.ab@.wf() && e.prec@.wf()),
            self.gaussian matches Gaussian::E(e0) ==> (pg_wf(self) ==> (r is Ok <==> exists|
                rt: MatV,
                half: MatV,
            |
                {
                    &&& #[trigger] transpose_rel(rt, self.projection@)
                    &&& #[trigger] mul_rel(half, rt, e0.prec@)
                    &&& mul_ok(rt, e0.ab@)
                    &&& mul_ok(rt, e0.prec@)
                    &&& mul_ok(half, self.projection@)
                })),
    {
        let n = match self.gaussian.size() {
            Ok(n) => n,
            Err(k) => {
                return Err(k);
            },
        };
        if self.projection.rows() != n {
            return Err(GaussianError::DimensionMismatch);
        }
        let en = match self.gaussian.natural_form() {
            Ok(e) => e,
            Err(k) => {
                return Err(k);
            },
        };
        let rt = self.projection.transpose();
        let ab2 = match rt.mul(&en.ab) {
            Ok(v) => v,
            Err(_) => {
                proof {
                    self.lemma_reduction_blocked(rt@, en.ab@, en.prec@, None);
                }
                return Err(GaussianError::SingularMatrix);
            },
        };
        let half = match rt.mul(&en.prec) {
            Ok(v) => v,
            Err(_) => {
                proof {
                    self.lemma_reduction_blocked(rt@, en.ab@, en.prec@, None);
                }
                return Err(GaussianError::SingularMatrix);
            },
        };
        let prec2 = match half.mul(&self.projection) {
            Ok(v) => v,
            Err(_) => {
                proof {
                    self.lemma_reduction_blocked(rt@, en.ab@, en.prec@, Some(half@));
                }
                return Err(GaussianError::SingularMatrix);
            },
        };
        proof {
            assert(nat_view(self.gaussian, en.ab@, en.prec@));
            match self.gaussian {
                Gaussian::M(_) => {},
                Gaussian::E(e0) => {
                    assert(en.ab@ == e0.ab@ && en.prec@ == e0.prec@);
                    assert(transpose_rel(rt@, self.projection@) && mul_rel(half@, rt@, e0.prec@)
                        && mul_ok(rt@, e0.ab@) && mul_ok(rt@, e0.prec@) && mul_ok(
                        half@,
                        self.projection@,
                    ));
                },
            }
        }
        Ok(Gaussian::E(E { ab: ab2, prec: prec2 }))
    }

    /// When a product step of the reduction is blocked by representability,
    /// no choice of transpose and half product can satisfy all three product
    /// conditions: they are pinned entrywise, so the blocked condition fails
    /// for every candidate.
    proof fn lemma_reduction_blocked(
        self,
        rtv: MatV,
        abv: MatV,
        precv: MatV,
        halfv: Option<MatV>,
    )
        requires
            self.gaussian matches Gaussian::E(e0) ==> e0.ab@ == abv && e0.prec@ == precv,
            transpose_rel(rtv, self.projection@),
            halfv matches Some(h) ==> mul_rel(h, rtv, precv),
            halfv is None ==> !mul_ok(rtv, abv) || !mul_ok(rtv, precv),
            halfv matches Some(h) ==> !mul_ok(h, self.projection@),
        ensures
            self.gaussian matches Gaussian::E(e0) ==> !(exists|rt: MatV, half: MatV|
                {
                    &&& #[trigger] transpose_rel(rt, self.projection@)
                    &&& #[trigger] mul_rel(half, rt, e0.prec@)
                    &&& mul_ok(rt, e0.ab@)
                    &&& mul_ok(rt, e0.prec@)
                    &&& mul_ok(half, self.projection@)
                }),
    {
        match self.gaussian {
            Gaussian::M(_) => {},
            Gaussian::E(e0) => {
                if exists|rt: MatV, half: MatV|
                {
                    &&& #[trigger] transpose_rel(rt, self.projection@)
                    &&& #[trigger] mul_rel(half, rt, e0.prec@)
                    &&& mul_ok(rt, e0.ab@)
                    &&& mul_ok(rt, e0.prec@)
                    &&& mul_ok(half, self.projection@)
                } {
                let (rt2, half2) = choose|rt2: MatV, half2: MatV|
                    {
                        &&& #[trigger] transpose_rel(rt2, self.projection@)
                        &&& #[trigger] mul_rel(half2, rt2, e0.prec@)
                        &&& mul_ok(rt2, e0.ab@)
                        &&& mul_ok(rt2, e0.prec@)
                        &&& mul_ok(half2, self.projection@)
                    };
                assert forall|i2: int, t2: int|
                    0 <= i2 < rtv.rows && 0 <= t2 < rtv.cols implies #[trigger] rt2.el(i2, t2)
                    == rtv.el(i2, t2) by {
                    assert(rt2.el(i2, t2) == self.projection@.el(t2, i2));
                    assert(rtv.el(i2, t2) == self.projection@.el(t2, i2));
                }
                crate::mat::lemma_mul_ok_congruence(rt2, rtv, abv);
                crate::mat::lemma_mul_ok_congruence(rt2, rtv, precv);
                match halfv {
                    None => {},
                    Some(h) => {
                        assert forall|i2: int, j2: int|
                            0 <= i2 < h.rows && 0 <= j2 < h.cols implies #[trigger] half2.el(
                            i2,
                            j2,
                        ) == h.el(i2, j2) by {
                            assert(half2.el(i2, j2) == crate::mat::dot(
                                rt2,
                                precv,
                                i2,
                                j2,
                                rt2.cols,
                            ));
                            assert(h.el(i2, j2) == crate::mat::dot(rtv, precv, i2, j2, rtv.cols));
                            crate::mat::lemma_dot_congruence(
                                rt2,
                                rtv,
                                precv,
                                precv,
                                i2,
                                j2,
                                rtv.cols,
                            );
                        }
                        crate::mat::lemma_mul_ok_congruence(half2, h, self.projection@);
                    },
                }
            }
            },
        }
    }
}

} // verus!
