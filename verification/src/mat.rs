//! Exact rational matrices: a flat row-major grid of integer numerators over
//! one positive common denominator.  Every operation carries an exact
//! elementwise contract; inversion checks its candidate, so an `Ok` answer is
//! a proved two-sided inverse.

use vstd::prelude::*;

use crate::GaussianError;

verus! {

/// Mathematical view of a matrix: `rows * cols` integer numerators in
/// row-major order, all over the one positive denominator `den`.
pub ghost struct MatV {
    pub rows: nat,
    pub cols: nat,
    pub e: Seq<int>,
    pub den: int,
}

impl MatV {
    /// The grid has exactly `rows * cols` entries and the denominator is
    /// positive.
    pub open spec fn wf(self) -> bool {
        self.e.len() == self.rows * self.cols && self.den >= 1
    }

    /// Numerator of the entry in row `i`, column `j`.
    pub open spec fn el(self, i: int, j: int) -> int {
        self.e[i * self.cols + j]
    }
}

/// Sum of `f(0) + f(1) + ... + f(n - 1)`.
pub open spec fn gsum(f: spec_fn(int) -> int, n: nat) -> int
    decreases n,
{
    if n == 0 {
        0
    } else {
        gsum(f, (n - 1) as nat) + f(n - 1)
    }
}

/// Numerator of entry `(i, j)` of a matrix product: the dot product of row
/// `i` of `a` with column `j` of `b`, over the first `k` terms.
pub open spec fn dot(a: MatV, b: MatV, i: int, j: int, k: nat) -> int {
    gsum(|t: int| a.el(i, t) * b.el(t, j), k)
}

/// The two matrices denote the same rational matrix: same shape, and each
/// pair of entries agrees after cross-multiplying the denominators.
pub open spec fn eq_m(a: MatV, b: MatV) -> bool {
    &&& a.rows == b.rows
    &&& a.cols == b.cols
    &&& forall|i: int, j: int|
        #![trigger a.el(i, j)]
        0 <= i < a.rows && 0 <= j < a.cols ==> a.el(i, j) * b.den == b.el(i, j) * a.den
}

/// The rational sum of two same-shaped matrices, with cross-multiplied
/// numerators over the product denominator.
pub open spec fn add_v(a: MatV, b: MatV) -> MatV {
    MatV {
        rows: a.rows,
        cols: a.cols,
        den: a.den * b.den,
        e: Seq::new(a.e.len(), |t: int| a.e[t] * b.den + b.e[t] * a.den),
    }
}

/// `p` is the exact rational product of `a` and `b`: shapes chain, the
/// denominator is the product of the denominators, and each entry is the dot
/// product of a row of `a` with a column of `b`.  This is what `Mat::mul`
/// returns.
pub open spec fn mul_rel(p: MatV, a: MatV, b: MatV) -> bool {
    &&& a.cols == b.rows
    &&& p.rows == a.rows
    &&& p.cols == b.cols
    &&& p.den == a.den * b.den
    &&& p.wf()
    &&& forall|i: int, j: int|
        #![trigger p.el(i, j)]
        0 <= i < p.rows && 0 <= j < p.cols ==> p.el(i, j) == dot(a, b, i, j, a.cols)
}

/// `rt` is the transpose of `m`: flipped shape, same denominator, entries
/// mirrored across the diagonal.  This is what `Mat::transpose` returns.
pub open spec fn transpose_rel(rt: MatV, m: MatV) -> bool {
    &&& rt.rows == m.cols
    &&& rt.cols == m.rows
    &&& rt.den == m.den
    &&& rt.wf()
    &&& forall|i: int, j: int|
        #![trigger rt.el(i, j)]
        0 <= i < rt.rows && 0 <= j < rt.cols ==> rt.el(i, j) == m.el(j, i)
}

/// `x` lies in the range of the machine integers that carry numerators and
/// denominators.
pub open spec fn fits(x: int) -> bool {
    i128::MIN <= x <= i128::MAX
}

/// Every intermediate value of the rational matrix sum `a + b` is
/// representable; exactly then does `Mat::add` succeed on same-shaped inputs.
pub open spec fn add_ok(a: MatV, b: MatV) -> bool {
    &&& fits(a.den * b.den)
    &&& forall|t: int|
        #![trigger a.e[t]]
        0 <= t < a.e.len() ==> fits(a.e[t] * b.den) && fits(b.e[t] * a.den) && fits(
            a.e[t] * b.den + b.e[t] * a.den,
        )
}

/// Every intermediate value of the rational matrix product `a * b` is
/// representable: the denominator product, each entry product, and each
/// partial dot sum; exactly then does `Mat::mul` succeed on shape-chained
/// inputs.
pub open spec fn mul_ok(a: MatV, b: MatV) -> bool {
    &&& fits(a.den * b.den)
    &&& forall|i: int, j: int, k: int|
        #![trigger a.el(i, k), b.el(k, j)]
        0 <= i < a.rows && 0 <= j < b.cols && 0 <= k < a.cols ==> fits(a.el(i, k) * b.el(k, j))
            && fits(dot(a, b, i, j, (k + 1) as nat))
}

/// `b` is a two-sided rational inverse of `a`: both products denote the
/// identity (a product entry denotes `delta_ij` exactly when its numerator is
/// the product of the denominators on the diagonal and zero off it).
pub open spec fn inv_pair(a: MatV, b: MatV) -> bool {
    &&& a.rows == a.cols
    &&& b.rows == a.rows
    &&& b.cols == a.rows
    &&& forall|i: int, j: int|
        0 <= i < a.rows && 0 <= j < a.rows ==> #[trigger] dot(a, b, i, j, a.cols) == if i == j {
            a.den * b.den
        } else {
            0
        }
    &&& forall|i: int, j: int|
        0 <= i < a.rows && 0 <= j < a.rows ==> #[trigger] dot(b, a, i, j, a.cols) == if i == j {
            a.den * b.den
        } else {
            0
        }
}

/// Exact rational matrix: integer numerators over one positive denominator.
#[derive(Debug)]
pub struct Mat {
    rows: usize,
    cols: usize,
    e: Vec<i128>,
    den: i128,
}

impl View for Mat {
    type V = MatV;

    closed spec fn view(&self) -> MatV {
        MatV {
            rows: self.rows as nat,
            cols: self.cols as nat,
            e: self.e@.map_values(|x: i128| x as int),
            den: self.den as int,
        }
    }
}

impl Mat {
    #[verifier::type_invariant]
    spec fn type_inv(self) -> bool {
        self@.wf()
    }

    /// Builds the matrix whose entry `(i, j)` is `e[i * cols + j] / den`.
    /// Fails with `DimensionMismatch` exactly when the entry count does not
    /// match the shape or the denominator is not positive.
    pub fn new(rows: usize, cols: usize, e: Vec<i128>, den: i128) -> (r: Result<Mat, GaussianError>)
        ensures
            r is Ok <==> (den >= 1 && e@.len() == rows * cols),
            r matches Err(k) ==> k == GaussianError::DimensionMismatch,
            r matches Ok(m) ==> m@ == (MatV {
                rows: rows as nat,
                cols: cols as nat,
                e: e@.map_values(|x: i128| x as int),
                den: den as int,
            }) && m@.wf(),
    {
        if den < 1 {
            return Err(GaussianError::DimensionMismatch);
        }
        let e_len = e.len();
        let prod = rows.checked_mul(cols);
        match prod {
            None => {
                proof {
                    assert(e_len <= usize::MAX < rows * cols);
                }
                Err(GaussianError::DimensionMismatch)
            },
            Some(n) => {
                if e_len != n {
                    Err(GaussianError::DimensionMismatch)
                } else {
                    let m = Mat { rows, cols, e, den };
                    proof {
                        assert(m@.wf());
                    }
                    Ok(m)
                }
            },
        }
    }

    /// Every matrix value is well formed by construction; this no-op makes
    /// that invariant available to verified callers holding any `Mat`.
    pub fn well_formed(&self)
        ensures
            self@.wf(),
    {
        proof {
            use_type_invariant(self);
        }
    }

    /// Number of rows.
    pub fn rows(&self) -> (r: usize)
        ensures
            r == self@.rows,
    {
        self.rows
    }

    /// Number of columns.
    pub fn cols(&self) -> (r: usize)
        ensures
            r == self@.cols,
    {
        self.cols
    }

    /// The common denominator.
    pub fn den(&self) -> (r: i128)
        ensures
            r == self@.den,
    {
        self.den
    }

    /// Numerator of the entry in row `i`, column `j`.
    pub fn get(&self, i: usize, j: usize) -> (r: i128)
        requires
            i < self@.rows,
            j < self@.cols,
        ensures
            r as int == self@.el(i as int, j as int),
    {
        let n = self.e.len();
        proof {
            use_type_invariant(self);
            lemma_flat_index(self@.rows, self@.cols, i as int, j as int);
            assert(n == self@.rows * self@.cols);
        }
        self.e[i * self.cols + j]
    }

    /// An identical copy.
    pub fn duplicate(&self) -> (r: Mat)
        ensures
            r@ == self@,
            r@.wf(),
    {
        proof {
            use_type_invariant(self);
        }
        let mut e2: Vec<i128> = Vec::new();
        let mut t: usize = 0;
        while t < self.e.len()
            invariant
                t <= self.e.len(),
                e2@.len() == t,
                forall|u: int| 0 <= u < t ==> e2@[u] == self.e@[u],
            decreases self.e.len() - t,
        {
            e2.push(self.e[t]);
            t += 1;
        }
        let r = Mat { rows: self.rows, cols: self.cols, e: e2, den: self.den };
        proof {
            assert(r@.e =~= self@.e);
            assert(r@ == self@);
        }
        r
    }
    /// Rational sum.  Shapes must agree, checked before any numeric work;
    /// on same-shaped operands it succeeds exactly when every intermediate
    /// value is representable, and the result is `add_v` of the operands.
    pub fn add(&self, other: &Mat) -> (r: Result<Mat, GaussianError>)
        ensures
            self@.rows != other@.rows || self@.cols != other@.cols ==> r == Err::<
                Mat,
                GaussianError,
            >(GaussianError::DimensionMismatch),
            self@.rows == other@.rows && self@.cols == other@.cols ==> (r is Ok <==> add_ok(
                self@,
                other@,
            )),
            self@.rows == other@.rows && self@.cols == other@.cols && !add_ok(self@, other@)
                ==> r == Err::<Mat, GaussianError>(GaussianError::SingularMatrix),
            r matches Ok(m) ==> m@ == add_v(self@, other@) && m@.wf(),
    {
        proof {
            use_type_invariant(self);
            use_type_invariant(other);
        }
        if self.rows != other.rows || self.cols != other.cols {
            return Err(GaussianError::DimensionMismatch);
        }
        let d = match self.den.checked_mul(other.den) {
            Some(v) => v,
            None => {
                return Err(GaussianError::SingularMatrix);
            },
        };
        let n = self.e.len();
        let mut out: Vec<i128> = Vec::new();
        let mut t: usize = 0;
        while t < n
            invariant
                self@.wf(),
                other@.wf(),
                self@.rows == other@.rows,
                self@.cols == other@.cols,
                n == self@.e.len(),
                n == other@.e.len(),
                d as int == self@.den * other@.den,
                t <= n,
                out@.len() == t,
                forall|u: int|
                    #![trigger self@.e[u]]
                    0 <= u < t ==> out@[u] as int == self@.e[u] * other@.den + other@.e[u]
                        * self@.den,
                forall|u: int|
                    #![trigger self@.e[u]]
                    0 <= u < t ==> fits(self@.e[u] * other@.den),
                forall|u: int|
                    #![trigger other@.e[u]]
                    0 <= u < t ==> fits(other@.e[u] * self@.den),
            decreases n - t,
        {
            let p1 = match self.e[t].checked_mul(other.den) {
                Some(v) => v,
                None => {
                    proof {
                        assert(!fits(self@.e[t as int] * other@.den));
                        assert(!add_ok(self@, other@)) by {
                            if add_ok(self@, other@) {
                                assert(fits(self@.e[t as int] * other@.den) && fits(
                                    other@.e[t as int] * self@.den,
                                ) && fits(
                                    self@.e[t as int] * other@.den + other@.e[t as int]
                                        * self@.den,
                                ));
                            }
                        }
                    }
                    return Err(GaussianError::SingularMatrix);
                },
            };
            let p2 = match other.e[t].checked_mul(self.den) {
                Some(v) => v,
                None => {
                    proof {
                        assert(!fits(other@.e[t as int] * self@.den));
                        assert(!add_ok(self@, other@)) by {
                            if add_ok(self@, other@) {
                                assert((t as int) < self@.e.len());
                                assert(fits(self@.e[t as int] * other@.den));
                                assert(fits(other@.e[t as int] * self@.den));
                            }
                        }
                    }
                    return Err(GaussianError::SingularMatrix);
                },
            };
            let s = match p1.checked_add(p2) {
                Some(v) => v,
                None => {
                    proof {
                        assert(!fits(
                            self@.e[t as int] * other@.den + other@.e[t as int] * self@.den,
                        ));
                        assert(!add_ok(self@, other@)) by {
                            if add_ok(self@, other@) {
                                assert(fits(self@.e[t as int] * other@.den) && fits(
                                    other@.e[t as int] * self@.den,
                                ) && fits(
                                    self@.e[t as int] * other@.den + other@.e[t as int]
                                        * self@.den,
                                ));
                            }
                        }
                    }
                    return Err(GaussianError::SingularMatrix);
                },
            };
            proof {
                assert(fits(self@.e[t as int] * other@.den));
                assert(fits(other@.e[t as int] * self@.den));
            }
            out.push(s);
            t += 1;
        }
        proof {
            assert(self@.den * other@.den >= 1) by (nonlinear_arith)
                requires
                    self@.den >= 1,
                    other@.den >= 1,
            ;
            assert(add_ok(self@, other@));
        }
        let m = Mat { rows: self.rows, cols: self.cols, e: out, den: d };
        proof {
            use_type_invariant(&m);
            assert(m@.e =~= add_v(self@, other@).e);
            assert(m@ == add_v(self@, other@));
        }
        Ok(m)
    }

    /// The transposed matrix; exact, always succeeds.
    pub fn transpose(&self) -> (r: Mat)
        ensures
            transpose_rel(r@, self@),
    {
        proof {
            use_type_invariant(self);
        }
        let n = self.e.len();
        let rows = self.rows;
        let cols = self.cols;
        let mut out: Vec<i128> = Vec::new();
        let mut i: usize = 0;
        while i < cols
            invariant
                self@.wf(),
                rows == self@.rows,
                cols == self@.cols,
                n == self@.e.len(),
                i <= cols,
                out@.len() == i * rows,
                forall|a: int, b: int|
                    0 <= a < cols && 0 <= b < rows && a * rows + b < out@.len()
                        ==> #[trigger] out@[a * rows + b] as int == self@.el(b, a),
            decreases cols - i,
        {
            let mut j: usize = 0;
            while j < rows
                invariant
                    self@.wf(),
                    rows == self@.rows,
                    cols == self@.cols,
                    n == self@.e.len(),
                    i < cols,
                    j <= rows,
                    out@.len() == i * rows + j,
                    forall|a: int, b: int|
                        0 <= a < cols && 0 <= b < rows && a * rows + b < out@.len()
                            ==> #[trigger] out@[a * rows + b] as int == self@.el(b, a),
                decreases rows - j,
            {
                proof {
                    lemma_flat_index(self@.rows, self@.cols, j as int, i as int);
                    lemma_flat_index(self@.cols, self@.rows, i as int, j as int);
                }
                out.push(self.e[j * cols + i]);
                j += 1;
                proof {
                    assert forall|a: int, b: int|
                        0 <= a < cols && 0 <= b < rows && a * rows + b < out@.len() implies #[trigger] out@[a * rows + b] as int == self@.el(b, a) by {
                        if a * rows + b + 1 == out@.len() {
                            lemma_flat_inj(cols as nat, rows as nat, a, b, i as int, j - 1);
                        } else {
                            lemma_flat_index(cols as nat, rows as nat, a, b);
                            assert(a * rows + b < out@.len() - 1);
                        }
                    }
                }
            }
            proof {
                assert((i + 1) * rows == i * rows + rows) by (nonlinear_arith);
            }
            i += 1;
        }
        let r = Mat { rows: cols, cols: rows, e: out, den: self.den };
        proof {
            assert(cols * rows == rows * cols) by (nonlinear_arith);
            assert(r@.wf());
            assert forall|i2: int, j2: int|
                0 <= i2 < self@.cols && 0 <= j2 < self@.rows implies #[trigger] r@.el(i2, j2)
                == self@.el(j2, i2) by {
                lemma_flat_index(cols as nat, rows as nat, i2, j2);
            }
            assert(transpose_rel(r@, self@));
        }
        r
    }

    /// The n-by-n identity matrix, with denominator one.
    pub fn eye(n: usize) -> (r: Result<Mat, GaussianError>)
        ensures
            r is Ok <==> n * n <= usize::MAX,
            r matches Err(k) ==> k == GaussianError::DimensionMismatch,
            r matches Ok(m) ==> m@.wf() && m@.rows == n && m@.cols == n && m@.den == 1 && forall|
                i: int,
                j: int,
            |
                0 <= i < n && 0 <= j < n ==> #[trigger] m@.el(i, j) == if i == j {
                    1int
                } else {
                    0int
                },
    {
        let nn = match n.checked_mul(n) {
            Some(v) => v,
            None => {
                return Err(GaussianError::DimensionMismatch);
            },
        };
        let mut out: Vec<i128> = Vec::new();
        let mut i: usize = 0;
        while i < n
            invariant
                i <= n,
                nn == n * n,
                out@.len() == i * n,
                forall|a: int, b: int|
                    0 <= a < n && 0 <= b < n && a * n + b < out@.len() ==> #[trigger] out@[a * n + b] as int == if a == b {
                        1int
                    } else {
                        0int
                    },
            decreases n - i,
        {
            let mut j: usize = 0;
            while j < n
                invariant
                    i < n,
                    j <= n,
                    nn == n * n,
                    out@.len() == i * n + j,
                    forall|a: int, b: int|
                        0 <= a < n && 0 <= b < n && a * n + b < out@.len() ==> #[trigger] out@[a * n + b] as int == if a == b {
                            1int
                        } else {
                            0int
                        },
                decreases n - j,
            {
                let v: i128 = if i == j {
                    1
                } else {
                    0
                };
                proof {
                    lemma_flat_index(n as nat, n as nat, i as int, j as int);
                }
                out.push(v);
                j += 1;
                proof {
                    assert forall|a: int, b: int|
                        0 <= a < n && 0 <= b < n && a * n + b < out@.len() implies #[trigger] out@[a * n + b] as int == (if a == b {
                        1int
                    } else {
                        0int
                    }) by {
                        if a * n + b + 1 == out@.len() {
                            lemma_flat_inj(n as nat, n as nat, a, b, i as int, j - 1);
                        } else {
                            lemma_flat_index(n as nat, n as nat, a, b);
                            assert(a * n + b < out@.len() - 1);
                        }
                    }
                }
            }
            proof {
                assert((i + 1) * n == i * n + n) by (nonlinear_arith);
            }
            i += 1;
        }
        let m = Mat { rows: n, cols: n, e: out, den: 1 };
        proof {
            assert(m@.wf());
            assert forall|i2: int, j2: int| 0 <= i2 < n && 0 <= j2 < n implies #[trigger] m@.el(
                i2,
                j2,
            ) == (if i2 == j2 {
                1int
            } else {
                0int
            }) by {
                lemma_flat_index(n as nat, n as nat, i2, j2);
            }
        }
        Ok(m)
    }

    /// Whether the two matrices denote the same rational matrix.  Fails only
    /// when a cross product leaves the representable range.
    pub fn eqv(&self, other: &Mat) -> (r: Result<bool, GaussianError>)
        ensures
            r matches Ok(b) ==> (b <==> eq_m(self@, other@)),
            r matches Err(k) ==> k == GaussianError::SingularMatrix,
            (self@.rows == other@.rows && self@.cols == other@.cols && forall|i: int, j: int|
                #![trigger self@.el(i, j)]
                0 <= i < self@.rows && 0 <= j < self@.cols ==> fits(self@.el(i, j) * other@.den)
                    && fits(other@.el(i, j) * self@.den)) ==> r is Ok,
    {
        proof {
            use_type_invariant(self);
            use_type_invariant(other);
        }
        if self.rows != other.rows || self.cols != other.cols {
            return Ok(false);
        }
        let rows = self.rows;
        let cols = self.cols;
        let mut i: usize = 0;
        while i < rows
            invariant
                self@.wf(),
                other@.wf(),
                self@.rows == other@.rows,
                self@.cols == other@.cols,
                rows == self@.rows,
                cols == self@.cols,
                i <= rows,
                forall|a: int, b: int|
                    0 <= a < i && 0 <= b < cols ==> #[trigger] self@.el(a, b) * other@.den
                        == other@.el(a, b) * self@.den,
            decreases rows - i,
        {
            let mut j: usize = 0;
            while j < cols
                invariant
                    self@.wf(),
                    other@.wf(),
                    self@.rows == other@.rows,
                    self@.cols == other@.cols,
                    rows == self@.rows,
                    cols == self@.cols,
                    i < rows,
                    j <= cols,
                    forall|a: int, b: int|
                        0 <= a < i && 0 <= b < cols ==> #[trigger] self@.el(a, b) * other@.den
                            == other@.el(a, b) * self@.den,
                    forall|b: int|
                        0 <= b < j ==> #[trigger] self@.el(i as int, b) * other@.den == other@.el(
                            i as int,
                            b,
                        ) * self@.den,
                decreases cols - j,
            {
                let x = self.get(i, j);
                let y = other.get(i, j);
                let p1 = match x.checked_mul(other.den) {
                    Some(v) => v,
                    None => {
                        proof {
                            assert(!fits(self@.el(i as int, j as int) * other@.den));
                        }
                        return Err(GaussianError::SingularMatrix);
                    },
                };
                let p2 = match y.checked_mul(self.den) {
                    Some(v) => v,
                    None => {
                        proof {
                            assert(!fits(other@.el(i as int, j as int) * self@.den));
                        }
                        return Err(GaussianError::SingularMatrix);
                    },
                };
                if p1 != p2 {
                    proof {
                        assert(!eq_m(self@, other@));
                    }
                    return Ok(false);
                }
                j += 1;
            }
            i += 1;
        }
        proof {
            assert(eq_m(self@, other@));
        }
        Ok(true)
    }

    /// Rational matrix product.  The inner dimensions must agree, checked
    /// before any numeric work; on shape-chained operands it succeeds exactly
    /// when every intermediate value is representable, and then each entry is
    /// the exact dot product of a row and a column, over the product
    /// denominator.
    pub fn mul(&self, other: &Mat) -> (r: Result<Mat, GaussianError>)
        ensures
            self@.cols != other@.rows ==> r == Err::<Mat, GaussianError>(
                GaussianError::DimensionMismatch,
            ),
            self@.cols == other@.rows ==> (r is Ok <==> mul_ok(self@, other@)),
            self@.cols == other@.rows && !mul_ok(self@, other@) ==> r == Err::<
                Mat,
                GaussianError,
            >(GaussianError::SingularMatrix),
            r matches Ok(m) ==> mul_rel(m@, self@, other@),
    {
        proof {
            use_type_invariant(self);
            use_type_invariant(other);
        }
        if self.cols != other.rows {
            return Err(GaussianError::DimensionMismatch);
        }
        let d = match self.den.checked_mul(other.den) {
            Some(v) => v,
            None => {
                proof {
                    assert(!fits(self@.den * other@.den));
                    assert(!mul_ok(self@, other@));
                }
                return Err(GaussianError::SingularMatrix);
            },
        };
        let rows = self.rows;
        let inner = self.cols;
        let cols = other.cols;
        let mut out: Vec<i128> = Vec::new();
        let mut i: usize = 0;
        while i < rows
            invariant
                self@.wf(),
                other@.wf(),
                self@.cols == other@.rows,
                rows == self@.rows,
                inner == self@.cols,
                cols == other@.cols,
                d as int == self@.den * other@.den,
                i <= rows,
                out@.len() == i * cols,
                forall|a: int, b: int|
                    0 <= a < rows && 0 <= b < cols && a * cols + b < out@.len()
                        ==> #[trigger] out@[a * cols + b] as int == dot(
                        self@,
                        other@,
                        a,
                        b,
                        self@.cols,
                    ),
                forall|i2: int, j2: int, k2: int|
                    #![trigger self@.el(i2, k2), other@.el(k2, j2)]
                    0 <= i2 < i && 0 <= j2 < cols && 0 <= k2 < inner ==> fits(
                        self@.el(i2, k2) * other@.el(k2, j2),
                    ) && fits(dot(self@, other@, i2, j2, (k2 + 1) as nat)),
            decreases rows - i,
        {
            let mut j: usize = 0;
            while j < cols
                invariant
                    self@.wf(),
                    other@.wf(),
                    self@.cols == other@.rows,
                    rows == self@.rows,
                    inner == self@.cols,
                    cols == other@.cols,
                    d as int == self@.den * other@.den,
                    i < rows,
                    j <= cols,
                    out@.len() == i * cols + j,
                    forall|a: int, b: int|
                        0 <= a < rows && 0 <= b < cols && a * cols + b < out@.len()
                            ==> #[trigger] out@[a * cols + b] as int == dot(
                            self@,
                            other@,
                            a,
                            b,
                            self@.cols,
                        ),
                    forall|i2: int, j2: int, k2: int|
                        #![trigger self@.el(i2, k2), other@.el(k2, j2)]
                        0 <= i2 < i && 0 <= j2 < cols && 0 <= k2 < inner ==> fits(
                            self@.el(i2, k2) * other@.el(k2, j2),
                        ) && fits(dot(self@, other@, i2, j2, (k2 + 1) as nat)),
                    forall|j2: int, k2: int|
                        #![trigger other@.el(k2, j2)]
                        0 <= j2 < j && 0 <= k2 < inner ==> fits(
                            self@.el(i as int, k2) * other@.el(k2, j2),
                        ) && fits(dot(self@, other@, i as int, j2, (k2 + 1) as nat)),
                decreases cols - j,
            {
                let mut acc: i128 = 0;
                let mut k: usize = 0;
                while k < inner
                    invariant
                        self@.wf(),
                        other@.wf(),
                        self@.cols == other@.rows,
                        rows == self@.rows,
                        inner == self@.cols,
                        cols == other@.cols,
                        i < rows,
                        j < cols,
                        k <= inner,
                        acc as int == dot(self@, other@, i as int, j as int, k as nat),
                        forall|k2: int|
                            #![trigger self@.el(i as int, k2)]
                            0 <= k2 < k ==> fits(
                                self@.el(i as int, k2) * other@.el(k2, j as int),
                            ) && fits(dot(self@, other@, i as int, j as int, (k2 + 1) as nat)),
                    decreases inner - k,
                {
                    let x = self.get(i, k);
                    let y = other.get(k, j);
                    let p = match x.checked_mul(y) {
                        Some(v) => v,
                        None => {
                            proof {
                                assert(!fits(
                                    self@.el(i as int, k as int) * other@.el(k as int, j as int),
                                ));
                                assert(!mul_ok(self@, other@)) by {
                                    if mul_ok(self@, other@) {
                                        assert(fits(
                                            self@.el(i as int, k as int) * other@.el(
                                                k as int,
                                                j as int,
                                            ),
                                        ));
                                    }
                                }
                            }
                            return Err(GaussianError::SingularMatrix);
                        },
                    };
                    let acc2 = match acc.checked_add(p) {
                        Some(v) => v,
                        None => {
                            proof {
                                lemma_dot_step(self@, other@, i as int, j as int, (k + 1) as nat);
                                assert(!fits(
                                    dot(self@, other@, i as int, j as int, (k + 1) as nat),
                                ));
                                assert(!mul_ok(self@, other@)) by {
                                    if mul_ok(self@, other@) {
                                        assert(fits(
                                            self@.el(i as int, k as int) * other@.el(
                                                k as int,
                                                j as int,
                                            ),
                                        ));
                                        assert(fits(
                                            dot(self@, other@, i as int, j as int, (k + 1) as nat),
                                        ));
                                    }
                                }
                            }
                            return Err(GaussianError::SingularMatrix);
                        },
                    };
                    proof {
                        lemma_dot_step(self@, other@, i as int, j as int, (k + 1) as nat);
                    }
                    acc = acc2;
                    k += 1;
                }
                proof {
                    lemma_flat_index(rows as nat, cols as nat, i as int, j as int);
                }
                out.push(acc);
                j += 1;
                proof {
                    assert forall|a: int, b: int|
                        0 <= a < rows && 0 <= b < cols && a * cols + b < out@.len() implies #[trigger] out@[
                        a * cols + b] as int == dot(self@, other@, a, b, self@.cols) by {
                        if a * cols + b + 1 == out@.len() {
                            lemma_flat_inj(rows as nat, cols as nat, a, b, i as int, j - 1);
                        } else {
                            lemma_flat_index(rows as nat, cols as nat, a, b);
                            assert(a * cols + b < out@.len() - 1);
                        }
                    }
                }
            }
            proof {
                assert((i + 1) * cols == i * cols + cols) by (nonlinear_arith);
            }
            i += 1;
        }
        proof {
            assert(self@.den * other@.den >= 1) by (nonlinear_arith)
                requires
                    self@.den >= 1,
                    other@.den >= 1,
            ;
            assert(rows * cols == (rows as nat) * (cols as nat)) by (nonlinear_arith);
            assert(mul_ok(self@, other@));
        }
        let m = Mat { rows, cols, e: out, den: d };
        proof {
            use_type_invariant(&m);
            assert forall|i2: int, j2: int|
                0 <= i2 < self@.rows && 0 <= j2 < other@.cols implies #[trigger] m@.el(i2, j2)
                == dot(self@, other@, i2, j2, self@.cols) by {
                lemma_flat_index(rows as nat, cols as nat, i2, j2);
            }
            assert(mul_rel(m@, self@, other@));
        }
        Ok(m)
    }

    /// Whether this matrix denotes the identity: square, diagonal numerators
    /// equal to the denominator, zero numerators elsewhere.
    fn denotes_identity(&self) -> (r: bool)
        ensures
            r <==> (self@.rows == self@.cols && forall|i: int, j: int|
                #![trigger self@.el(i, j)]
                0 <= i < self@.rows && 0 <= j < self@.rows ==> self@.el(i, j) == if i == j {
                    self@.den
                } else {
                    0int
                }),
    {
        proof {
            use_type_invariant(self);
        }
        if self.rows != self.cols {
            return false;
        }
        let n = self.rows;
        let mut i: usize = 0;
        while i < n
            invariant
                self@.wf(),
                self@.rows == self@.cols,
                n == self@.rows,
                i <= n,
                forall|a: int, b: int|
                    #![trigger self@.el(a, b)]
                    0 <= a < i && 0 <= b < n ==> self@.el(a, b) == if a == b {
                        self@.den
                    } else {
                        0int
                    },
            decreases n - i,
        {
            let mut j: usize = 0;
            while j < n
                invariant
                    self@.wf(),
                    self@.rows == self@.cols,
                    n == self@.rows,
                    i < n,
                    j <= n,
                    forall|a: int, b: int|
                        #![trigger self@.el(a, b)]
                        0 <= a < i && 0 <= b < n ==> self@.el(a, b) == if a == b {
                            self@.den
                        } else {
                            0int
                        },
                    forall|b: int|
                        #![trigger self@.el(i as int, b)]
                        0 <= b < j ==> self@.el(i as int, b) == if i as int == b {
                            self@.den
                        } else {
                            0int
                        },
                decreases n - j,
            {
                let x = self.get(i, j);
                let want: i128 = if i == j {
                    self.den
                } else {
                    0
                };
                if x != want {
                    return false;
                }
                j += 1;
            }
            i += 1;
        }
        true
    }

    /// Two-sided rational inverse.  Fails with `DimensionMismatch` exactly on
    /// a non-square matrix.  The inverse candidate comes from Gauss-Jordan
    /// elimination and is then checked: both products with the input are
    /// verified to denote the identity, so an `Ok` answer is a proved
    /// two-sided inverse, and a matrix with no rational inverse is forced to
    /// `SingularMatrix`.  The converse is not promised: `SingularMatrix` also
    /// covers a computation that left the representable range, whose exact
    /// domain (the course of the elimination) this contract does not state.
    pub fn invert(&self) -> (r: Result<Mat, GaussianError>)
        ensures
            self@.rows != self@.cols ==> r == Err::<Mat, GaussianError>(
                GaussianError::DimensionMismatch,
            ),
            self@.rows == self@.cols ==> r is Ok || r == Err::<Mat, GaussianError>(
                GaussianError::SingularMatrix,
            ),
            r matches Ok(c) ==> inv_pair(self@, c@) && c@.wf() && c@.rows == self@.rows
                && c@.cols == self@.cols,
            self@.rows == self@.cols && !(exists|c2: MatV|
                c2.wf() && #[trigger] inv_pair(self@, c2)) ==> r == Err::<Mat, GaussianError>(
                GaussianError::SingularMatrix,
            ),
    {
        proof {
            use_type_invariant(self);
        }
        if self.rows != self.cols {
            return Err(GaussianError::DimensionMismatch);
        }
        let cand = match self.invert_candidate() {
            Some(c) => c,
            None => {
                return Err(GaussianError::SingularMatrix);
            },
        };
        proof {
            use_type_invariant(&cand);
        }
        let p1 = match self.mul(&cand) {
            Ok(p) => p,
            Err(_) => {
                return Err(GaussianError::SingularMatrix);
            },
        };
        let p2 = match cand.mul(self) {
            Ok(p) => p,
            Err(_) => {
                return Err(GaussianError::SingularMatrix);
            },
        };
        if p1.denotes_identity() && p2.denotes_identity() {
            proof {
                use_type_invariant(&cand);
                let n2 = self@.rows;
                assert forall|i: int, j: int| 0 <= i < n2 && 0 <= j < n2 implies #[trigger] dot(
                    self@,
                    cand@,
                    i,
                    j,
                    self@.cols,
                ) == (if i == j {
                    self@.den * cand@.den
                } else {
                    0int
                }) by {
                    assert(p1@.el(i, j) == dot(self@, cand@, i, j, self@.cols));
                    assert(p1@.el(i, j) == if i == j {
                        p1@.den
                    } else {
                        0int
                    });
                }
                assert forall|i: int, j: int| 0 <= i < n2 && 0 <= j < n2 implies #[trigger] dot(
                    cand@,
                    self@,
                    i,
                    j,
                    self@.cols,
                ) == (if i == j {
                    self@.den * cand@.den
                } else {
                    0int
                }) by {
                    assert(p2@.el(i, j) == dot(cand@, self@, i, j, cand@.cols));
                    assert(p2@.el(i, j) == if i == j {
                        p2@.den
                    } else {
                        0int
                    });
                }
                assert(inv_pair(self@, cand@));
                assert(exists|c2: MatV| c2.wf() && #[trigger] inv_pair(self@, c2));
            }
            Ok(cand)
        } else {
            Err(GaussianError::SingularMatrix)
        }
    }
}

impl Mat {
    /// Gauss-Jordan elimination over per-entry rationals; produces an inverse
    /// candidate, or nothing when a pivot is missing or a value leaves the
    /// representable range.  Only the shape of the candidate is promised: the
    /// caller checks the products before trusting it.
    fn invert_candidate(&self) -> (r: Option<Mat>)
        requires
            self@.rows == self@.cols,
        ensures
            r matches Some(c) ==> c@.rows == self@.rows && c@.cols == self@.cols,
    {
        proof {
            use_type_invariant(self);
        }
        let n = self.rows;
        let nn = self.e.len();
        let mut a_num: Vec<i128> = Vec::new();
        let mut a_den: Vec<i128> = Vec::new();
        let mut b_num: Vec<i128> = Vec::new();
        let mut b_den: Vec<i128> = Vec::new();
        let mut t: usize = 0;
        while t < nn
            invariant
                t <= nn,
                nn == self@.e.len(),
                self@.wf(),
                self@.rows == self@.cols,
                n == self@.rows,
                a_num@.len() == t,
                a_den@.len() == t,
                b_num@.len() == t,
                b_den@.len() == t,
            decreases nn - t,
        {
            a_num.push(self.e[t]);
            a_den.push(self.den);
            b_num.push(0);
            b_den.push(1);
            t += 1;
        }
        let mut di: usize = 0;
        while di < n
            invariant
                di <= n,
                b_num@.len() == nn,
            decreases n - di,
        {
            vset(&mut b_num, flat(di, di, n), 1);
            di += 1;
        }
        // elimination
        let mut col: usize = 0;
        while col < n
            invariant
                col <= n,
                a_num@.len() == nn,
                a_den@.len() == nn,
                b_num@.len() == nn,
                b_den@.len() == nn,
            decreases n - col,
        {
            // find a pivot row
            let mut piv = col;
            let mut found = false;
            let mut r2 = col;
            while r2 < n
                invariant
                    r2 <= n,
                    found ==> piv < n,
                    !found ==> piv == col,
                decreases n - r2,
            {
                if !found && vget(&a_num, flat(r2, col, n)) != 0 {
                    piv = r2;
                    found = true;
                }
                r2 += 1;
            }
            if !found {
                return None;
            }
            // swap pivot row into place
            let mut c2: usize = 0;
            while c2 < n
                invariant
                    c2 <= n,
                    a_num@.len() == nn,
                    a_den@.len() == nn,
                    b_num@.len() == nn,
                    b_den@.len() == nn,
                decreases n - c2,
            {
                vswap(&mut a_num, flat(piv, c2, n), flat(col, c2, n));
                vswap(&mut a_den, flat(piv, c2, n), flat(col, c2, n));
                vswap(&mut b_num, flat(piv, c2, n), flat(col, c2, n));
                vswap(&mut b_den, flat(piv, c2, n), flat(col, c2, n));
                c2 += 1;
            }
            // scale the pivot row so its pivot entry becomes one
            let pn = vget(&a_num, flat(col, col, n));
            let pd = vget1(&a_den, flat(col, col, n));
            if pn == 0 {
                return None;
            }
            let mut c3: usize = 0;
            while c3 < n
                invariant
                    c3 <= n,
                    a_num@.len() == nn,
                    a_den@.len() == nn,
                    b_num@.len() == nn,
                    b_den@.len() == nn,
                    pd >= 1,
                    pn != 0,
                decreases n - c3,
            {
                let t2 = flat(col, c3, n);
                let q = match rdiv(vget(&a_num, t2), vget1(&a_den, t2), pn, pd) {
                    Some(v) => v,
                    None => {
                        return None;
                    },
                };
                let qr = rreduce(q.0, q.1);
                vset(&mut a_num, t2, qr.0);
                vset(&mut a_den, t2, qr.1);
                let q2 = match rdiv(vget(&b_num, t2), vget1(&b_den, t2), pn, pd) {
                    Some(v) => v,
                    None => {
                        return None;
                    },
                };
                let qr2 = rreduce(q2.0, q2.1);
                vset(&mut b_num, t2, qr2.0);
                vset(&mut b_den, t2, qr2.1);
                c3 += 1;
            }
            // eliminate the pivot column from every other row
            let mut r3: usize = 0;
            while r3 < n
                invariant
                    r3 <= n,
                    a_num@.len() == nn,
                    a_den@.len() == nn,
                    b_num@.len() == nn,
                    b_den@.len() == nn,
                decreases n - r3,
            {
                if r3 != col {
                    let fn_ = vget(&a_num, flat(r3, col, n));
                    let fd = vget1(&a_den, flat(r3, col, n));
                    if fn_ != 0 {
                        let mut c4: usize = 0;
                        while c4 < n
                            invariant
                                c4 <= n,
                                a_num@.len() == nn,
                                a_den@.len() == nn,
                                b_num@.len() == nn,
                                b_den@.len() == nn,
                                fd >= 1,
                            decreases n - c4,
                        {
                            let src = flat(col, c4, n);
                            let dst = flat(r3, c4, n);
                            let prod = match rmul(fn_, fd, vget(&a_num, src), vget1(&a_den, src)) {
                                Some(v) => v,
                                None => {
                                    return None;
                                },
                            };
                            let diff = match rsub(
                                vget(&a_num, dst),
                                vget1(&a_den, dst),
                                prod.0,
                                prod.1,
                            ) {
                                Some(v) => v,
                                None => {
                                    return None;
                                },
                            };
                            let dr = rreduce(diff.0, diff.1);
                            vset(&mut a_num, dst, dr.0);
                            vset(&mut a_den, dst, dr.1);
                            let prod2 = match rmul(fn_, fd, vget(&b_num, src), vget1(&b_den, src)) {
                                Some(v) => v,
                                None => {
                                    return None;
                                },
                            };
                            let diff2 = match rsub(
                                vget(&b_num, dst),
                                vget1(&b_den, dst),
                                prod2.0,
                                prod2.1,
                            ) {
                                Some(v) => v,
                                None => {
                                    return None;
                                },
                            };
                            let dr2 = rreduce(diff2.0, diff2.1);
                            vset(&mut b_num, dst, dr2.0);
                            vset(&mut b_den, dst, dr2.1);
                            c4 += 1;
                        }
                    }
                }
                r3 += 1;
            }
            col += 1;
        }
        // bring the right-hand block over one common denominator
        let mut den_all: i128 = 1;
        let mut t3: usize = 0;
        while t3 < nn
            invariant
                t3 <= nn,
                b_num@.len() == nn,
                b_den@.len() == nn,
                den_all >= 1,
            decreases nn - t3,
        {
            let bd = vget1(&b_den, t3);
            let g = gcd(bd, den_all);
            let part = den_all / g;
            if part < 1 {
                return None;
            }
            let nd = match part.checked_mul(bd) {
                Some(v) => v,
                None => {
                    return None;
                },
            };
            if nd < 1 {
                return None;
            }
            den_all = nd;
            t3 += 1;
        }
        let mut out: Vec<i128> = Vec::new();
        let mut t4: usize = 0;
        while t4 < nn
            invariant
                t4 <= nn,
                nn == self@.e.len(),
                self@.wf(),
                self@.rows == self@.cols,
                n == self@.rows,
                b_num@.len() == nn,
                b_den@.len() == nn,
                den_all >= 1,
                out@.len() == t4,
            decreases nn - t4,
        {
            let bd = vget1(&b_den, t4);
            let scale = den_all / bd;
            let v = match vget(&b_num, t4).checked_mul(scale) {
                Some(v) => v,
                None => {
                    return None;
                },
            };
            out.push(v);
            t4 += 1;
        }
        let c = Mat { rows: n, cols: n, e: out, den: den_all };
        Some(c)
    }
}

/// Row-major flat index, saturated on overflow (reads through it then fall
/// out of range and are dropped or read as defaults).
fn flat(i: usize, j: usize, n: usize) -> (r: usize) {
    let p = match i.checked_mul(n) {
        Some(v) => v,
        None => {
            return usize::MAX;
        },
    };
    match p.checked_add(j) {
        Some(v) => v,
        None => usize::MAX,
    }
}

/// Entry of a vector, or zero when the index is out of range.
fn vget(v: &Vec<i128>, t: usize) -> (r: i128) {
    if t < v.len() {
        v[t]
    } else {
        0
    }
}

/// Entry of a vector of positive values, or one when the index is out of
/// range or the entry is not positive.
fn vget1(v: &Vec<i128>, t: usize) -> (r: i128)
    ensures
        r >= 1,
{
    if t < v.len() {
        let x = v[t];
        if x >= 1 {
            x
        } else {
            1
        }
    } else {
        1
    }
}

/// Writes an entry; out-of-range writes are dropped.
fn vset(v: &mut Vec<i128>, t: usize, x: i128)
    ensures
        final(v)@.len() == old(v)@.len(),
{
    if t < v.len() {
        v.set(t, x);
    }
}

/// Swaps two entries; out-of-range swaps are dropped.
fn vswap(v: &mut Vec<i128>, s: usize, t: usize)
    ensures
        final(v)@.len() == old(v)@.len(),
{
    if s < v.len() && t < v.len() {
        let a = v[s];
        let b = v[t];
        v.set(s, b);
        v.set(t, a);
    }
}

/// Greatest common divisor by Euclid's algorithm; only positivity is promised.
fn gcd(a0: i128, b0: i128) -> (r: i128)
    requires
        a0 >= 1,
        b0 >= 1,
    ensures
        r >= 1,
{
    let mut a = a0;
    let mut b = b0;
    while a != 0
        invariant
            a >= 0,
            b >= 1,
        decreases a,
    {
        let t = b % a;
        b = a;
        a = t;
    }
    b
}

/// Rational product over positive denominators.
fn rmul(xn: i128, xd: i128, yn: i128, yd: i128) -> (r: Option<(i128, i128)>)
    requires
        xd >= 1,
        yd >= 1,
    ensures
        r matches Some(p) ==> p.1 >= 1,
{
    let nn = match xn.checked_mul(yn) {
        Some(v) => v,
        None => {
            return None;
        },
    };
    let dd = match xd.checked_mul(yd) {
        Some(v) => v,
        None => {
            return None;
        },
    };
    proof {
        assert(xd * yd >= 1) by (nonlinear_arith)
            requires
                xd >= 1,
                yd >= 1,
        ;
    }
    Some((nn, dd))
}

/// Rational difference over positive denominators.
fn rsub(xn: i128, xd: i128, yn: i128, yd: i128) -> (r: Option<(i128, i128)>)
    requires
        xd >= 1,
        yd >= 1,
    ensures
        r matches Some(p) ==> p.1 >= 1,
{
    let p1 = match xn.checked_mul(yd) {
        Some(v) => v,
        None => {
            return None;
        },
    };
    let p2 = match yn.checked_mul(xd) {
        Some(v) => v,
        None => {
            return None;
        },
    };
    let nn = match p1.checked_sub(p2) {
        Some(v) => v,
        None => {
            return None;
        },
    };
    let dd = match xd.checked_mul(yd) {
        Some(v) => v,
        None => {
            return None;
        },
    };
    proof {
        assert(xd * yd >= 1) by (nonlinear_arith)
            requires
                xd >= 1,
                yd >= 1,
        ;
    }
    Some((nn, dd))
}

/// Rational quotient over positive denominators; the result's denominator is
/// made positive.
fn rdiv(xn: i128, xd: i128, yn: i128, yd: i128) -> (r: Option<(i128, i128)>)
    requires
        xd >= 1,
        yd >= 1,
    ensures
        r matches Some(p) ==> p.1 >= 1,
{
    if yn == 0 || yn == i128::MIN {
        return None;
    }
    let (num_scale, den_scale) = if yn >= 1 {
        (yd, yn)
    } else {
        (-yd, -yn)
    };
    let nn = match xn.checked_mul(num_scale) {
        Some(v) => v,
        None => {
            return None;
        },
    };
    let dd = match xd.checked_mul(den_scale) {
        Some(v) => v,
        None => {
            return None;
        },
    };
    proof {
        assert(xd * den_scale >= 1) by (nonlinear_arith)
            requires
                xd >= 1,
                den_scale >= 1,
        ;
    }
    Some((nn, dd))
}

/// Reduces a rational by the greatest common divisor of numerator magnitude
/// and denominator; falls back to the input when that is not possible.
fn rreduce(xn: i128, xd: i128) -> (r: (i128, i128))
    requires
        xd >= 1,
    ensures
        r.1 >= 1,
{
    if xn == 0 {
        return (0, 1);
    }
    if xn == i128::MIN {
        return (xn, xd);
    }
    let a = if xn >= 0 {
        xn
    } else {
        -xn
    };
    let g = gcd(a, xd);
    let nd = xd / g;
    if nd < 1 {
        return (xn, xd);
    }
    (xn / g, nd)
}

/// A dot product reads only one row of its left factor and one column of
/// its right factor: equal readings give equal dots.
pub proof fn lemma_dot_congruence(a2: MatV, a: MatV, b2: MatV, b: MatV, i: int, j: int, k: nat)
    requires
        forall|t: int| 0 <= t < k ==> #[trigger] a2.el(i, t) == a.el(i, t),
        forall|t: int| 0 <= t < k ==> #[trigger] b2.el(t, j) == b.el(t, j),
    ensures
        dot(a2, b2, i, j, k) == dot(a, b, i, j, k),
    decreases k,
{
    if k > 0 {
        lemma_dot_congruence(a2, a, b2, b, i, j, (k - 1) as nat);
        lemma_dot_step(a2, b2, i, j, k);
        lemma_dot_step(a, b, i, j, k);
    }
}

/// Whether a product's intermediates are representable depends only on the
/// left factor's shape, denominator and entries, not on its identity.
pub proof fn lemma_mul_ok_congruence(a2: MatV, a: MatV, b: MatV)
    requires
        a2.rows == a.rows,
        a2.cols == a.cols,
        a2.den == a.den,
        forall|i: int, t: int|
            #![trigger a2.el(i, t)]
            0 <= i < a.rows && 0 <= t < a.cols ==> a2.el(i, t) == a.el(i, t),
    ensures
        mul_ok(a2, b) <==> mul_ok(a, b),
{
    assert forall|i: int, j: int, k: nat|
        0 <= i < a.rows && 0 <= j < b.cols && k <= a.cols implies #[trigger] dot(a2, b, i, j, k)
        == dot(a, b, i, j, k) by {
        lemma_dot_congruence(a2, a, b, b, i, j, k);
    }
    if mul_ok(a2, b) {
        assert forall|i: int, j: int, k: int|
            #![trigger a.el(i, k), b.el(k, j)]
            0 <= i < a.rows && 0 <= j < b.cols && 0 <= k < a.cols implies fits(
            a.el(i, k) * b.el(k, j),
        ) && fits(dot(a, b, i, j, (k + 1) as nat)) by {
            assert(fits(a2.el(i, k) * b.el(k, j)) && fits(dot(a2, b, i, j, (k + 1) as nat)));
        }
        assert(mul_ok(a, b));
    }
    if mul_ok(a, b) {
        assert forall|i: int, j: int, k: int|
            #![trigger a2.el(i, k), b.el(k, j)]
            0 <= i < a2.rows && 0 <= j < b.cols && 0 <= k < a2.cols implies fits(
            a2.el(i, k) * b.el(k, j),
        ) && fits(dot(a2, b, i, j, (k + 1) as nat)) by {
            assert(fits(a.el(i, k) * b.el(k, j)) && fits(dot(a, b, i, j, (k + 1) as nat)));
        }
        assert(mul_ok(a2, b));
    }
}

/// One unfolding step of a dot product.
pub proof fn lemma_dot_step(a: MatV, b: MatV, i: int, j: int, k: nat)
    requires
        k >= 1,
    ensures
        dot(a, b, i, j, k) == dot(a, b, i, j, (k - 1) as nat) + a.el(i, k - 1) * b.el(k - 1, j),
{
}

/// A row-major flat index stays inside the grid and never overflows.
pub proof fn lemma_flat_index(rows: nat, cols: nat, i: int, j: int)
    requires
        0 <= i < rows,
        0 <= j < cols,
    ensures
        0 <= i * cols + j < rows * cols,
        i * cols <= rows * cols,
    decreases rows,
{
    assert(0 <= i * cols + j < rows * cols && i * cols <= rows * cols) by (nonlinear_arith)
        requires
            0 <= i < rows,
            0 <= j < cols,
    ;
}

/// Distinct in-range coordinate pairs have distinct row-major flat indices.
pub proof fn lemma_flat_inj(rows: nat, cols: nat, a: int, b: int, i: int, j: int)
    requires
        0 <= a < rows,
        0 <= b < cols,
        0 <= i < rows,
        0 <= j < cols,
        a * cols + b == i * cols + j,
    ensures
        a == i,
        b == j,
{
    assert(a == i && b == j) by (nonlinear_arith)
        requires
            0 <= a < rows,
            0 <= b < cols,
            0 <= i < rows,
            0 <= j < cols,
            a * cols + b == i * cols + j,
    ;
}

} // verus!
