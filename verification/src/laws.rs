//! The algebraic laws of the library, proved once and for all over the
//! mathematical views: fusion is commutative and associative, conversion
//! between the moment and natural forms is a lossless round trip, and fusing
//! a Gaussian with itself doubles the precision (so halves the covariance)
//! while keeping the mean.
//!
//! The proofs rest on a small closure-free theory of finite sums over matrix
//! entries: partial double sums and their exchange.

use vstd::prelude::*;

use crate::mat::{MatV, add_v, dot, eq_m, inv_pair, lemma_dot_step};
use crate::gaussian::{m_wf, e_wf, natural_of, moment_of};

verus! {

/// Partial left-nested double sum: the first `k` terms of row `i` of `b`
/// paired with entry `(t, j)` of the product of `a` and `c` (each such entry
/// a dot product over `m` terms).
pub open spec fn lsum(b: MatV, a: MatV, c: MatV, i: int, j: int, k: nat, m: nat) -> int
    decreases k,
{
    if k == 0 {
        0
    } else {
        lsum(b, a, c, i, j, (k - 1) as nat, m) + b.el(i, k - 1) * dot(a, c, k - 1, j, m)
    }
}

/// Partial right-nested double sum: the first `l` terms of column `j` of `c`
/// paired with entry `(i, t)` of the product of `b` and `a` (each such entry
/// a dot product over `k` terms).
pub open spec fn rsum(b: MatV, a: MatV, c: MatV, i: int, j: int, l: nat, k: nat) -> int
    decreases l,
{
    if l == 0 {
        0
    } else {
        rsum(b, a, c, i, j, (l - 1) as nat, k) + dot(b, a, i, l - 1, k) * c.el(l - 1, j)
    }
}

/// Partial triple-product sum at a fixed middle index `kk`.
pub open spec fn tsum(b: MatV, a: MatV, c: MatV, i: int, kk: int, j: int, l: nat) -> int
    decreases l,
{
    if l == 0 {
        0
    } else {
        tsum(b, a, c, i, kk, j, (l - 1) as nat) + b.el(i, kk) * a.el(kk, l - 1) * c.el(l - 1, j)
    }
}

/// The common factor of a triple-product sum comes out in front.
proof fn lemma_tsum_factor(b: MatV, a: MatV, c: MatV, i: int, kk: int, j: int, l: nat)
    ensures
        tsum(b, a, c, i, kk, j, l) == b.el(i, kk) * dot(a, c, kk, j, l),
    decreases l,
{
    if l == 0 {
    } else {
        lemma_tsum_factor(b, a, c, i, kk, j, (l - 1) as nat);
        lemma_dot_step(a, c, kk, j, l);
        assert(b.el(i, kk) * (dot(a, c, kk, j, (l - 1) as nat) + a.el(kk, l - 1) * c.el(l - 1, j))
            == b.el(i, kk) * dot(a, c, kk, j, (l - 1) as nat) + b.el(i, kk) * a.el(kk, l - 1)
            * c.el(l - 1, j)) by (nonlinear_arith);
    }
}

/// A right-nested double sum over zero-term dot products vanishes.
proof fn lemma_rsum_zero(b: MatV, a: MatV, c: MatV, i: int, j: int, l: nat)
    ensures
        rsum(b, a, c, i, j, l, 0) == 0,
    decreases l,
{
    if l > 0 {
        lemma_rsum_zero(b, a, c, i, j, (l - 1) as nat);
    }
}

/// Extending every inner dot product by one term adds one triple-product
/// sum.
proof fn lemma_rsum_step(b: MatV, a: MatV, c: MatV, i: int, j: int, l: nat, k: nat)
    requires
        k >= 1,
    ensures
        rsum(b, a, c, i, j, l, k) == rsum(b, a, c, i, j, l, (k - 1) as nat) + tsum(
            b,
            a,
            c,
            i,
            k - 1,
            j,
            l,
        ),
    decreases l,
{
    if l > 0 {
        lemma_rsum_step(b, a, c, i, j, (l - 1) as nat, k);
        lemma_dot_step(b, a, i, l - 1, k);
        assert((dot(b, a, i, l - 1, (k - 1) as nat) + b.el(i, k - 1) * a.el(k - 1, l - 1)) * c.el(
            l - 1,
            j,
        ) == dot(b, a, i, l - 1, (k - 1) as nat) * c.el(l - 1, j) + b.el(i, k - 1) * a.el(
            k - 1,
            l - 1,
        ) * c.el(l - 1, j)) by (nonlinear_arith);
    }
}

/// Exchange of the two nested sums: summing rows first equals summing
/// columns first.
pub proof fn lemma_exchange(b: MatV, a: MatV, c: MatV, i: int, j: int, k: nat, m: nat)
    ensures
        lsum(b, a, c, i, j, k, m) == rsum(b, a, c, i, j, m, k),
    decreases k,
{
    if k == 0 {
        lemma_rsum_zero(b, a, c, i, j, m);
    } else {
        lemma_exchange(b, a, c, i, j, (k - 1) as nat, m);
        lemma_tsum_factor(b, a, c, i, k - 1, j, m);
        lemma_rsum_step(b, a, c, i, j, m, k);
    }
}

/// A dot product against a column of exactly scaled inner dot products is
/// the scaled left-nested double sum.
pub proof fn lemma_dot_sub_col(
    b: MatV,
    p: MatV,
    a: MatV,
    c: MatV,
    i: int,
    j: int,
    k: nat,
    m: nat,
    s: int,
)
    requires
        forall|t: int| 0 <= t < k ==> #[trigger] p.el(t, j) == s * dot(a, c, t, j, m),
    ensures
        dot(b, p, i, j, k) == s * lsum(b, a, c, i, j, k, m),
    decreases k,
{
    if k == 0 {
    } else {
        lemma_dot_sub_col(b, p, a, c, i, j, (k - 1) as nat, m, s);
        lemma_dot_step(b, p, i, j, k);
        assert(b.el(i, k - 1) * (s * dot(a, c, k - 1, j, m)) + s * lsum(
            b,
            a,
            c,
            i,
            j,
            (k - 1) as nat,
            m,
        ) == s * (lsum(b, a, c, i, j, (k - 1) as nat, m) + b.el(i, k - 1) * dot(
            a,
            c,
            k - 1,
            j,
            m,
        ))) by (nonlinear_arith);
    }
}

/// When `F` times each inner dot product collapses to a Kronecker delta
/// carrying `G`, `F` times the right-nested double sum collapses to `G`
/// times one entry of `c`.
pub proof fn lemma_rsum_delta(
    b: MatV,
    a: MatV,
    c: MatV,
    i: int,
    j: int,
    l: nat,
    k: nat,
    f0: int,
    g0: int,
)
    requires
        0 <= i,
        forall|t: int| 0 <= t < l ==> f0 * #[trigger] dot(b, a, i, t, k) == if t == i {
            g0
        } else {
            0int
        },
    ensures
        f0 * rsum(b, a, c, i, j, l, k) == if i < l {
            g0 * c.el(i, j)
        } else {
            0int
        },
    decreases l,
{
    if l == 0 {
    } else {
        lemma_rsum_delta(b, a, c, i, j, (l - 1) as nat, k, f0, g0);
        assert(f0 * (rsum(b, a, c, i, j, (l - 1) as nat, k) + dot(b, a, i, l - 1, k) * c.el(
            l - 1,
            j,
        )) == f0 * rsum(b, a, c, i, j, (l - 1) as nat, k) + (f0 * dot(b, a, i, l - 1, k)) * c.el(
            l - 1,
            j,
        )) by (nonlinear_arith);
    }
}

/// When each inner dot product collapses to a Kronecker delta carrying `C`,
/// the left-nested double sum collapses to `C` times one entry of `b`.
pub proof fn lemma_lsum_delta(b: MatV, a: MatV, c: MatV, i: int, j: int, k: nat, m: nat, c0: int)
    requires
        0 <= j,
        forall|t: int| 0 <= t < k ==> #[trigger] dot(a, c, t, j, m) == if t == j {
            c0
        } else {
            0int
        },
    ensures
        lsum(b, a, c, i, j, k, m) == if j < k {
            b.el(i, j) * c0
        } else {
            0int
        },
    decreases k,
{
    if k == 0 {
    } else {
        lemma_lsum_delta(b, a, c, i, j, (k - 1) as nat, m, c0);
    }
}

/// The two sides of a two-sided inverse can be swapped.
pub proof fn lemma_inv_pair_symm(a: MatV, b: MatV)
    requires
        inv_pair(a, b),
    ensures
        inv_pair(b, a),
{
    assert forall|i: int, j: int| 0 <= i < b.rows && 0 <= j < b.rows implies #[trigger] dot(
        b,
        a,
        i,
        j,
        b.cols,
    ) == (if i == j {
        b.den * a.den
    } else {
        0int
    }) by {
        assert(dot(b, a, i, j, a.cols) == if i == j {
            a.den * b.den
        } else {
            0int
        });
    }
    assert forall|i: int, j: int| 0 <= i < b.rows && 0 <= j < b.rows implies #[trigger] dot(
        a,
        b,
        i,
        j,
        b.cols,
    ) == (if i == j {
        b.den * a.den
    } else {
        0int
    }) by {
        assert(dot(a, b, i, j, a.cols) == if i == j {
            a.den * b.den
        } else {
            0int
        });
    }
}

/// Denoting the same rational matrix is symmetric.
pub proof fn lemma_eq_m_symm(a: MatV, b: MatV)
    requires
        eq_m(a, b),
    ensures
        eq_m(b, a),
{
    assert forall|i: int, j: int| 0 <= i < b.rows && 0 <= j < b.cols implies #[trigger] b.el(i, j)
        * a.den == a.el(i, j) * b.den by {
        assert(a.el(i, j) * b.den == b.el(i, j) * a.den);
    }
}

/// A matrix has at most one two-sided rational inverse, up to denoting the
/// same rational matrix.
pub proof fn lemma_inverse_unique(a: MatV, b: MatV, c: MatV)
    requires
        a.wf(),
        b.wf(),
        c.wf(),
        inv_pair(a, b),
        inv_pair(a, c),
    ensures
        eq_m(b, c),
{
    let n = a.cols;
    assert forall|i: int, j: int| 0 <= i < b.rows && 0 <= j < b.cols implies #[trigger] b.el(i, j)
        * c.den == c.el(i, j) * b.den by {
        assert forall|t: int| 0 <= t < n implies #[trigger] dot(a, c, t, j, n) == (if t == j {
            a.den * c.den
        } else {
            0int
        }) by {
            assert(dot(a, c, t, j, a.cols) == if t == j {
                a.den * c.den
            } else {
                0int
            });
        }
        assert forall|t: int| 0 <= t < n implies 1 * #[trigger] dot(b, a, i, t, n) == (if t == i {
            a.den * b.den
        } else {
            0int
        }) by {
            assert(dot(b, a, i, t, a.cols) == if i == t {
                a.den * b.den
            } else {
                0int
            });
        }
        lemma_exchange(b, a, c, i, j, n, n);
        lemma_lsum_delta(b, a, c, i, j, n, n, a.den * c.den);
        lemma_rsum_delta(b, a, c, i, j, n, n, 1, a.den * b.den);
        assert(b.el(i, j) * (a.den * c.den) == (a.den * b.den) * c.el(i, j));
        assert(b.el(i, j) * c.den == c.el(i, j) * b.den) by (nonlinear_arith)
            requires
                b.el(i, j) * (a.den * c.den) == (a.den * b.den) * c.el(i, j),
                a.den >= 1,
        ;
    }
}

/// Law (fusion is commutative): adding natural parameters in either order
/// gives the very same parameters.  With `E::fuse`'s contract this says
/// `fuse(a, b)` and `fuse(b, a)` return identical natural forms.
pub proof fn lemma_fusion_commutative(a: MatV, b: MatV)
    requires
        a.wf(),
        b.wf(),
        a.rows == b.rows,
        a.cols == b.cols,
    ensures
        add_v(a, b) == add_v(b, a),
{
    assert(a.e.len() == b.e.len());
    assert forall|t: int| 0 <= t < a.e.len() implies add_v(a, b).e[t] == add_v(b, a).e[t] by {
        assert(a.e[t] * b.den + b.e[t] * a.den == b.e[t] * a.den + a.e[t] * b.den);
    }
    assert(add_v(a, b).e =~= add_v(b, a).e);
    assert(a.den * b.den == b.den * a.den) by (nonlinear_arith);
}

/// Law (fusion is associative): adding natural parameters in either grouping
/// gives the very same parameters.  With `E::fuse`'s contract this says
/// `fuse(fuse(a, b), c)` and `fuse(a, fuse(b, c))` return identical natural
/// forms.
#[verifier::rlimit(50)]
pub proof fn lemma_fusion_associative(a: MatV, b: MatV, c: MatV)
    requires
        a.wf(),
        b.wf(),
        c.wf(),
        a.rows == b.rows && b.rows == c.rows,
        a.cols == b.cols && b.cols == c.cols,
    ensures
        add_v(add_v(a, b), c) == add_v(a, add_v(b, c)),
{
    let ab = add_v(a, b);
    let bc = add_v(b, c);
    assert(ab.e.len() == a.e.len());
    assert(bc.e.len() == a.e.len());
    assert forall|t: int| 0 <= t < a.e.len() implies add_v(ab, c).e[t] == add_v(a, bc).e[t] by {
        assert(ab.e[t] == a.e[t] * b.den + b.e[t] * a.den);
        assert(bc.e[t] == b.e[t] * c.den + c.e[t] * b.den);
        let x = a.e[t];
        let y = b.e[t];
        let z = c.e[t];
        let da = a.den;
        let db = b.den;
        let dc = c.den;
        assert((x * db + y * da) * dc == x * db * dc + y * da * dc) by (nonlinear_arith);
        assert((y * dc + z * db) * da == y * dc * da + z * db * da) by (nonlinear_arith);
        assert(x * (db * dc) == x * db * dc) by (nonlinear_arith);
        assert(z * (da * db) == z * db * da) by (nonlinear_arith);
        assert(y * da * dc == y * dc * da) by (nonlinear_arith);
        assert((x * db + y * da) * dc + z * (da * db) == x * (db * dc) + (y * dc + z * db) * da);
    }
    assert(add_v(ab, c).e =~= add_v(a, bc).e);
    assert((a.den * b.den) * c.den == a.den * (b.den * c.den)) by (nonlinear_arith);
}

/// Law (round trip, moment side): converting a moment form to the natural
/// form and back returns the same mean and the same covariance, as rational
/// matrices.  The inputs are exactly what `M::to_e` and `E::to_m` promise of
/// their results.
pub proof fn lemma_round_trip_moment(
    center: MatV,
    cov: MatV,
    ab: MatV,
    prec: MatV,
    center2: MatV,
    cov2: MatV,
)
    requires
        m_wf(center, cov),
        center.wf(),
        cov.wf(),
        ab.wf(),
        prec.wf(),
        center2.wf(),
        cov2.wf(),
        natural_of(ab, prec, center, cov),
        moment_of(center2, cov2, ab, prec),
    ensures
        eq_m(cov2, cov),
        eq_m(center2, center),
{
    lemma_inv_pair_symm(cov, prec);
    lemma_inverse_unique(prec, cov, cov2);
    lemma_eq_m_symm(cov, cov2);
    let n = prec.cols;
    assert forall|i: int, j: int| 0 <= i < center2.rows && 0 <= j < center2.cols implies #[trigger] center2.el(
        i,
        j,
    ) * center.den == center.el(i, j) * center2.den by {
        assert(j == 0);
        assert(center2.el(i, 0) == dot(cov2, ab, i, 0, cov2.cols));
        assert forall|t: int| 0 <= t < n implies #[trigger] ab.el(t, 0) == 1 * dot(
            prec,
            center,
            t,
            0,
            n,
        ) by {
            assert(ab.el(t, 0) == dot(prec, center, t, 0, prec.cols));
        }
        lemma_dot_sub_col(cov2, ab, prec, center, i, 0, n, n, 1);
        lemma_exchange(cov2, prec, center, i, 0, n, n);
        assert forall|t: int| 0 <= t < n implies 1 * #[trigger] dot(cov2, prec, i, t, n) == (if t
            == i {
            prec.den * cov2.den
        } else {
            0int
        }) by {
            assert(dot(cov2, prec, i, t, prec.cols) == if i == t {
                prec.den * cov2.den
            } else {
                0int
            });
        }
        lemma_rsum_delta(cov2, prec, center, i, 0, n, n, 1, prec.den * cov2.den);
        assert(center2.el(i, 0) == (prec.den * cov2.den) * center.el(i, 0));
        assert(center2.den == cov2.den * (prec.den * center.den));
        assert(((prec.den * cov2.den) * center.el(i, 0)) * center.den == center.el(i, 0) * (
        cov2.den * (prec.den * center.den))) by (nonlinear_arith);
    }
}

/// Law (round trip, natural side): converting a natural form to the moment
/// form and back returns the same information vector and the same precision,
/// as rational matrices.  The inputs are exactly what `E::to_m` and `M::to_e`
/// promise of their results.
pub proof fn lemma_round_trip_natural(
    ab: MatV,
    prec: MatV,
    center2: MatV,
    cov2: MatV,
    ab2: MatV,
    prec2: MatV,
)
    requires
        e_wf(ab, prec),
        ab.wf(),
        prec.wf(),
        center2.wf(),
        cov2.wf(),
        ab2.wf(),
        prec2.wf(),
        moment_of(center2, cov2, ab, prec),
        natural_of(ab2, prec2, center2, cov2),
    ensures
        eq_m(prec2, prec),
        eq_m(ab2, ab),
{
    lemma_inv_pair_symm(prec, cov2);
    lemma_inverse_unique(cov2, prec2, prec);
    lemma_eq_m_symm(prec2, prec);
    let n = cov2.cols;
    assert forall|i: int, j: int| 0 <= i < ab2.rows && 0 <= j < ab2.cols implies #[trigger] ab2.el(
        i,
        j,
    ) * ab.den == ab.el(i, j) * ab2.den by {
        assert(j == 0);
        assert(ab2.el(i, 0) == dot(prec2, center2, i, 0, prec2.cols));
        assert forall|t: int| 0 <= t < n implies #[trigger] center2.el(t, 0) == 1 * dot(
            cov2,
            ab,
            t,
            0,
            n,
        ) by {
            assert(center2.el(t, 0) == dot(cov2, ab, t, 0, cov2.cols));
        }
        lemma_dot_sub_col(prec2, center2, cov2, ab, i, 0, n, n, 1);
        lemma_exchange(prec2, cov2, ab, i, 0, n, n);
        assert forall|t: int| 0 <= t < n implies 1 * #[trigger] dot(prec2, cov2, i, t, n) == (if t
            == i {
            cov2.den * prec2.den
        } else {
            0int
        }) by {
            assert(dot(prec2, cov2, i, t, cov2.cols) == if i == t {
                cov2.den * prec2.den
            } else {
                0int
            });
        }
        lemma_rsum_delta(prec2, cov2, ab, i, 0, n, n, 1, cov2.den * prec2.den);
        assert(ab2.el(i, 0) == (cov2.den * prec2.den) * ab.el(i, 0));
        assert(ab2.den == prec2.den * (cov2.den * ab.den));
        assert(((cov2.den * prec2.den) * ab.el(i, 0)) * ab.den == ab.el(i, 0) * (prec2.den * (
        cov2.den * ab.den))) by (nonlinear_arith);
    }
}

/// The entry of a matrix fused with itself: twice the denominator times the
/// original numerator.
proof fn lemma_add_v_self_el(x: MatV, i: int, t: int)
    requires
        x.wf(),
        0 <= i < x.rows,
        0 <= t < x.cols,
    ensures
        add_v(x, x).el(i, t) == 2 * x.den * x.el(i, t),
{
    crate::mat::lemma_flat_index(x.rows, x.cols, i, t);
    assert(x.el(i, t) * x.den + x.el(i, t) * x.den == 2 * x.den * x.el(i, t)) by (nonlinear_arith);
}

/// A dot product scales with entrywise scalings of both factors.
proof fn lemma_dot_scale2(
    a2: MatV,
    a: MatV,
    b2: MatV,
    b: MatV,
    i: int,
    j: int,
    k: nat,
    sa: int,
    sb: int,
)
    requires
        forall|t: int| 0 <= t < k ==> #[trigger] a2.el(i, t) == sa * a.el(i, t),
        forall|t: int| 0 <= t < k ==> #[trigger] b2.el(t, j) == sb * b.el(t, j),
    ensures
        dot(a2, b2, i, j, k) == sa * sb * dot(a, b, i, j, k),
    decreases k,
{
    if k == 0 {
    } else {
        lemma_dot_scale2(a2, a, b2, b, i, j, (k - 1) as nat, sa, sb);
        lemma_dot_step(a2, b2, i, j, k);
        lemma_dot_step(a, b, i, j, k);
        let d = dot(a, b, i, j, (k - 1) as nat);
        let x = a.el(i, k - 1);
        let y = b.el(k - 1, j);
        assert((sa * x) * (sb * y) == sa * sb * (x * y)) by (nonlinear_arith);
        assert(sa * sb * d + sa * sb * (x * y) == sa * sb * (d + x * y)) by (nonlinear_arith);
    }
}

/// The rational matrix with the same numerators over twice the denominator:
/// half of the original.
pub open spec fn halve(x: MatV) -> MatV {
    MatV { rows: x.rows, cols: x.cols, e: x.e, den: 2 * x.den }
}

/// Law (fusion identity on equal inputs): fusing a Gaussian with mean
/// `center` and covariance `cov` with itself doubles both natural
/// parameters, so any moment reading of the fused result has covariance
/// `cov / 2` and the unchanged mean `center`.  The inputs are exactly what
/// `M::to_e`, `E::fuse` on two copies of its result, and `E::to_m` promise.
#[verifier::rlimit(50)]
pub proof fn lemma_fusion_identity(
    center: MatV,
    cov: MatV,
    ab: MatV,
    prec: MatV,
    center2: MatV,
    cov2: MatV,
)
    requires
        m_wf(center, cov),
        center.wf(),
        cov.wf(),
        ab.wf(),
        prec.wf(),
        center2.wf(),
        cov2.wf(),
        natural_of(ab, prec, center, cov),
        moment_of(center2, cov2, add_v(ab, ab), add_v(prec, prec)),
    ensures
        eq_m(cov2, halve(cov)),
        eq_m(center2, center),
{
    let p2v = add_v(prec, prec);
    let ab2v = add_v(ab, ab);
    let hc = halve(cov);
    let n = prec.cols;
    let dp = prec.den;
    let dc = cov.den;
    let dab = ab.den;
    let dc2 = cov2.den;
    assert(p2v.den == dp * dp);
    assert(dp * dp >= 1) by (nonlinear_arith)
        requires
            dp >= 1,
    ;
    assert(p2v.wf());
    assert(hc.wf());
    // p2v entries are 2 * dp times the precision's; hc entries equal cov's
    assert forall|i: int, t: int| 0 <= i < n && 0 <= t < n implies #[trigger] p2v.el(i, t) == (2
        * dp) * prec.el(i, t) by {
        lemma_add_v_self_el(prec, i, t);
    }
    assert forall|i: int, t: int| 0 <= i < n && 0 <= t < n implies #[trigger] hc.el(i, t) == 1
        * cov.el(i, t) by {
    }
    // hc is a two-sided inverse of p2v
    assert forall|i: int, j: int| 0 <= i < n && 0 <= j < n implies #[trigger] dot(
        p2v,
        hc,
        i,
        j,
        p2v.cols,
    ) == (if i == j {
        p2v.den * hc.den
    } else {
        0int
    }) by {
        lemma_dot_scale2(p2v, prec, hc, cov, i, j, n, 2 * dp, 1);
        assert(dot(prec, cov, i, j, prec.cols) == if i == j {
            dc * dp
        } else {
            0int
        });
        assert((2 * dp) * 1 * (dc * dp) == (dp * dp) * (2 * dc)) by (nonlinear_arith);
    }
    assert forall|i: int, j: int| 0 <= i < n && 0 <= j < n implies #[trigger] dot(
        hc,
        p2v,
        i,
        j,
        p2v.cols,
    ) == (if i == j {
        p2v.den * hc.den
    } else {
        0int
    }) by {
        lemma_dot_scale2(hc, cov, p2v, prec, i, j, n, 1, 2 * dp);
        assert(dot(cov, prec, i, j, cov.cols) == if i == j {
            dc * dp
        } else {
            0int
        });
        assert(1 * (2 * dp) * (dc * dp) == (dp * dp) * (2 * dc)) by (nonlinear_arith);
    }
    assert(inv_pair(p2v, hc));
    lemma_inverse_unique(p2v, cov2, hc);
    // the mean is unchanged
    assert forall|i: int, j: int| 0 <= i < center2.rows && 0 <= j < center2.cols implies #[trigger] center2.el(
        i,
        j,
    ) * center.den == center.el(i, j) * center2.den by {
        assert(j == 0);
        assert(center2.el(i, 0) == dot(cov2, ab2v, i, 0, cov2.cols));
        assert forall|t: int| 0 <= t < n implies #[trigger] ab2v.el(t, 0) == (2 * dab) * dot(
            prec,
            center,
            t,
            0,
            n,
        ) by {
            lemma_add_v_self_el(ab, t, 0);
            assert(ab.el(t, 0) == dot(prec, center, t, 0, prec.cols));
        }
        lemma_dot_sub_col(cov2, ab2v, prec, center, i, 0, n, n, 2 * dab);
        lemma_exchange(cov2, prec, center, i, 0, n, n);
        assert forall|t: int| 0 <= t < n implies (2 * dp) * #[trigger] dot(cov2, prec, i, t, n)
            == (if t == i {
            (dp * dp) * dc2
        } else {
            0int
        }) by {
            lemma_dot_scale2(cov2, cov2, p2v, prec, i, t, n, 1, 2 * dp);
            assert(dot(cov2, p2v, i, t, p2v.cols) == if i == t {
                p2v.den * cov2.den
            } else {
                0int
            });
            assert(1 * (2 * dp) * dot(cov2, prec, i, t, n) == (2 * dp) * dot(
                cov2,
                prec,
                i,
                t,
                n,
            )) by (nonlinear_arith);
        }
        lemma_rsum_delta(cov2, prec, center, i, 0, n, n, 2 * dp, (dp * dp) * dc2);
        let rs = rsum(cov2, prec, center, i, 0, n, n);
        assert((2 * dp) * rs == (dp * dp) * dc2 * center.el(i, 0));
        assert(center2.el(i, 0) == (2 * dab) * lsum(cov2, prec, center, i, 0, n, n));
        assert(center2.el(i, 0) == (2 * dab) * rs);
        assert(center2.den == dc2 * (dab * dab));
        assert(dab == dp * center.den);
        let ce = center.el(i, 0);
        let c2e = center2.el(i, 0);
        let dm = center.den;
        assert((2 * dp) * (c2e * dm) == (2 * dp) * (ce * (dc2 * (dab * dab)))) by (nonlinear_arith)
            requires
                c2e == (2 * dab) * rs,
                (2 * dp) * rs == (dp * dp) * dc2 * ce,
                dab == dp * dm,
        ;
        assert(c2e * dm == ce * (dc2 * (dab * dab))) by (nonlinear_arith)
            requires
                (2 * dp) * (c2e * dm) == (2 * dp) * (ce * (dc2 * (dab * dab))),
                dp >= 1,
        ;
    }
}

} // verus!
