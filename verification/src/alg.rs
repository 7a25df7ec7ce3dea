//! Scalar algebra identities behind the intersection proofs, kept in a
//! module of their own so each query carries minimal context.

use vstd::prelude::*;

verus! {

/// One component of Cramer's rule for the Möller–Trumbore system: the
/// determinant times the translated origin equals the weighted edge
/// combination minus the distance numerator times the direction.
#[verifier::rlimit(60)]
#[verifier::spinoff_prover]
pub(crate) proof fn lemma_cramer_c0(
    t0: int, t1: int, t2: int,
    d0: int, d1: int, d2: int,
    a0: int, a1: int, a2: int,
    b0: int, b1: int, b2: int,
)
    ensures
        (a0 * (d1 * b2 - d2 * b1) + a1 * (d2 * b0 - d0 * b2) + a2 * (d0 * b1 - d1 * b0)) * t0
            == (t0 * (d1 * b2 - d2 * b1) + t1 * (d2 * b0 - d0 * b2) + t2 * (d0 * b1 - d1 * b0))
            * a0 + (d0 * (t1 * a2 - t2 * a1) + d1 * (t2 * a0 - t0 * a2) + d2 * (t0 * a1 - t1 * a0))
            * b0 - (b0 * (t1 * a2 - t2 * a1) + b1 * (t2 * a0 - t0 * a2) + b2 * (t0 * a1 - t1 * a0))
            * d0,
{
    broadcast use vstd::arithmetic::mul::group_mul_properties;

}

#[verifier::rlimit(60)]
#[verifier::spinoff_prover]
pub(crate) proof fn lemma_cramer_c1(
    t0: int, t1: int, t2: int,
    d0: int, d1: int, d2: int,
    a0: int, a1: int, a2: int,
    b0: int, b1: int, b2: int,
)
    ensures
        (a0 * (d1 * b2 - d2 * b1) + a1 * (d2 * b0 - d0 * b2) + a2 * (d0 * b1 - d1 * b0)) * t1
            == (t0 * (d1 * b2 - d2 * b1) + t1 * (d2 * b0 - d0 * b2) + t2 * (d0 * b1 - d1 * b0))
            * a1 + (d0 * (t1 * a2 - t2 * a1) + d1 * (t2 * a0 - t0 * a2) + d2 * (t0 * a1 - t1 * a0))
            * b1 - (b0 * (t1 * a2 - t2 * a1) + b1 * (t2 * a0 - t0 * a2) + b2 * (t0 * a1 - t1 * a0))
            * d1,
{
    broadcast use vstd::arithmetic::mul::group_mul_properties;

}

#[verifier::rlimit(60)]
#[verifier::spinoff_prover]
pub(crate) proof fn lemma_cramer_c2(
    t0: int, t1: int, t2: int,
    d0: int, d1: int, d2: int,
    a0: int, a1: int, a2: int,
    b0: int, b1: int, b2: int,
)
    ensures
        (a0 * (d1 * b2 - d2 * b1) + a1 * (d2 * b0 - d0 * b2) + a2 * (d0 * b1 - d1 * b0)) * t2
            == (t0 * (d1 * b2 - d2 * b1) + t1 * (d2 * b0 - d0 * b2) + t2 * (d0 * b1 - d1 * b0))
            * a2 + (d0 * (t1 * a2 - t2 * a1) + d1 * (t2 * a0 - t0 * a2) + d2 * (t0 * a1 - t1 * a0))
            * b2 - (b0 * (t1 * a2 - t2 * a1) + b1 * (t2 * a0 - t0 * a2) + b2 * (t0 * a1 - t1 * a0))
            * d2,
{
    broadcast use vstd::arithmetic::mul::group_mul_properties;

}

/// Rearranging one component of the Cramer identity into barycentric form.
pub(crate) proof fn lemma_rearrange_c(
    det: int, un: int, vn: int, tn: int,
    o: int, d: int, w: int,
    p0: int, p1: int, p2: int,
) by (nonlinear_arith)
    requires
        det * (o - w * p0) == un * (p1 - p0) + vn * (p2 - p0) - tn * d,
    ensures
        det * o + tn * d == (w * det - un - vn) * p0 + un * p1 + vn * p2,
{
}

/// Multiplying a rearranged component through by a sign.
pub(crate) proof fn lemma_sign_c(
    det: int, un: int, vn: int, tn: int,
    o: int, d: int, w: int,
    p0: int, p1: int, p2: int, s: int,
) by (nonlinear_arith)
    requires
        s == 1 || s == -1,
        det * o + tn * d == (w * det - un - vn) * p0 + un * p1 + vn * p2,
    ensures
        (s * det) * o + (s * tn) * d == (w * (s * det) - s * un - s * vn) * p0 + (s * un) * p1 + (s
            * vn) * p2,
{
}


/// Reversing a triangle's vertex order negates the determinant.
#[verifier::rlimit(100)]
#[verifier::spinoff_prover]
pub(crate) proof fn lemma_reverse_det(
    o0: int, o1: int, o2: int, w: int,
    d0: int, d1: int, d2: int,
    v00: int, v01: int, v02: int,
    v10: int, v11: int, v12: int,
    v20: int, v21: int, v22: int,
)
    ensures
        ((v10 - v20) * (d1 * (v02 - v22) - d2 * (v01 - v21)) + (v11 - v21) * (d2 * (v00 - v20) - d0 * (v02 - v22)) + (v12 - v22) * (d0 * (v01 - v21) - d1 * (v00 - v20))) == -((v10 - v00) * (d1 * (v22 - v02) - d2 * (v21 - v01)) + (v11 - v01) * (d2 * (v20 - v00) - d0 * (v22 - v02)) + (v12 - v02) * (d0 * (v21 - v01) - d1 * (v20 - v00))),
{
    broadcast use vstd::arithmetic::mul::group_mul_properties;

}

/// Reversing the vertex order negates the first barycentric numerator.
#[verifier::rlimit(100)]
#[verifier::spinoff_prover]
pub(crate) proof fn lemma_reverse_un(
    o0: int, o1: int, o2: int, w: int,
    d0: int, d1: int, d2: int,
    v00: int, v01: int, v02: int,
    v10: int, v11: int, v12: int,
    v20: int, v21: int, v22: int,
)
    ensures
        ((o0 - w * v20) * (d1 * (v02 - v22) - d2 * (v01 - v21)) + (o1 - w * v21) * (d2 * (v00 - v20) - d0 * (v02 - v22)) + (o2 - w * v22) * (d0 * (v01 - v21) - d1 * (v00 - v20))) == -((o0 - w * v00) * (d1 * (v22 - v02) - d2 * (v21 - v01)) + (o1 - w * v01) * (d2 * (v20 - v00) - d0 * (v22 - v02)) + (o2 - w * v02) * (d0 * (v21 - v01) - d1 * (v20 - v00))),
{
    broadcast use vstd::arithmetic::mul::group_mul_properties;

}

/// Reversing the vertex order sends the second barycentric numerator to the negated remaining weight.
#[verifier::rlimit(100)]
#[verifier::spinoff_prover]
pub(crate) proof fn lemma_reverse_vn(
    o0: int, o1: int, o2: int, w: int,
    d0: int, d1: int, d2: int,
    v00: int, v01: int, v02: int,
    v10: int, v11: int, v12: int,
    v20: int, v21: int, v22: int,
)
    ensures
        (d0 * ((o1 - w * v21) * (v12 - v22) - (o2 - w * v22) * (v11 - v21)) + d1 * ((o2 - w * v22) * (v10 - v20) - (o0 - w * v20) * (v12 - v22)) + d2 * ((o0 - w * v20) * (v11 - v21) - (o1 - w * v21) * (v10 - v20))) == -((w * ((v10 - v00) * (d1 * (v22 - v02) - d2 * (v21 - v01)) + (v11 - v01) * (d2 * (v20 - v00) - d0 * (v22 - v02)) + (v12 - v02) * (d0 * (v21 - v01) - d1 * (v20 - v00)))) - ((o0 - w * v00) * (d1 * (v22 - v02) - d2 * (v21 - v01)) + (o1 - w * v01) * (d2 * (v20 - v00) - d0 * (v22 - v02)) + (o2 - w * v02) * (d0 * (v21 - v01) - d1 * (v20 - v00))) - (d0 * ((o1 - w * v01) * (v12 - v02) - (o2 - w * v02) * (v11 - v01)) + d1 * ((o2 - w * v02) * (v10 - v00) - (o0 - w * v00) * (v12 - v02)) + d2 * ((o0 - w * v00) * (v11 - v01) - (o1 - w * v01) * (v10 - v00)))),
{
    broadcast use vstd::arithmetic::mul::group_mul_properties;

}

/// Triple products with a repeated vector vanish.
#[verifier::spinoff_prover]
pub(crate) proof fn lemma_triple_repeat(
    x0: int, x1: int, x2: int,
    y0: int, y1: int, y2: int,
)
    ensures
        x0 * (x1 * y2 - x2 * y1) + x1 * (x2 * y0 - x0 * y2) + x2 * (x0 * y1 - x1 * y0) == 0,
        x0 * (y1 * x2 - y2 * x1) + x1 * (y2 * x0 - y0 * x2) + x2 * (y0 * x1 - y1 * x0) == 0,
{
    broadcast use vstd::arithmetic::mul::group_mul_properties;

}

/// The scalar triple product is invariant under cyclic rotation.
#[verifier::spinoff_prover]
pub(crate) proof fn lemma_triple_cyclic(
    x0: int, x1: int, x2: int,
    y0: int, y1: int, y2: int,
    z0: int, z1: int, z2: int,
)
    ensures
        z0 * (x1 * y2 - x2 * y1) + z1 * (x2 * y0 - x0 * y2) + z2 * (x0 * y1 - x1 * y0) == x0 * (y1
            * z2 - y2 * z1) + x1 * (y2 * z0 - y0 * z2) + x2 * (y0 * z1 - y1 * z0),
{
    broadcast use vstd::arithmetic::mul::group_mul_properties;

}

/// Exchanging the summation order of a matrix-vector sandwich: one row of
/// the linear part applied to the adjugate's action on a vector equals the
/// row sums applied to that vector.
#[verifier::rlimit(100)]
#[verifier::spinoff_prover]
pub(crate) proof fn lemma_sandwich(
    m0: int, m1: int, m2: int,
    a00: int, a01: int, a02: int,
    a10: int, a11: int, a12: int,
    a20: int, a21: int, a22: int,
    q0: int, q1: int, q2: int,
    s0: int, s1: int, s2: int,
)
    requires
        s0 == m0 * a00 + m1 * a10 + m2 * a20,
        s1 == m0 * a01 + m1 * a11 + m2 * a21,
        s2 == m0 * a02 + m1 * a12 + m2 * a22,
    ensures
        m0 * (a00 * q0 + a01 * q1 + a02 * q2) + m1 * (a10 * q0 + a11 * q1 + a12 * q2) + m2 * (a20
            * q0 + a21 * q1 + a22 * q2) == s0 * q0 + s1 * q1 + s2 * q2,
{
    broadcast use vstd::arithmetic::mul::group_mul_properties;

}

/// Distributing one factor over a scaled difference.
pub(crate) proof fn lemma_scale_diff(m: int, d: int, u: int, w: int) by (nonlinear_arith)
    ensures
        m * (d * u - w) == d * (m * u) - m * w,
{
}

/// Distributing one factor over a three-term sum.
pub(crate) proof fn lemma_dist3(d: int, x: int, y: int, z: int) by (nonlinear_arith)
    ensures
        d * x + d * y + d * z == d * (x + y + z),
{
}

} // verus!
