//! Exact affine placement transforms: a quantised mesh-to-world map, its
//! exact inverse by the adjugate, and the conversion of rays into mesh space
//! and of hits back to world space.

use vstd::prelude::*;

use crate::intersections::Ray;
use crate::math::{
    bounded3, lemma_mul_bound, lemma_sgn_mul, scross, sdot, RatVec3, Vec3i, Vec3w, wcross, wdot,
    widen,
};
use crate::COORD_LIMIT;

verus! {

/// Bound on the translation numerators of a host transform.
pub const TRANS_LIMIT: i64 = 65536;

/// An affine map `p -> (m*p + c) / den` over quantised entries: `m` holds
/// the three rows of the linear part, `c` the translation numerator, and
/// `den` the positive common denominator.
#[derive(Clone, Copy, Debug)]
pub struct AffineMap {
    pub m: [Vec3i; 3],
    pub c: Vec3i,
    pub den: i64,
}

impl AffineMap {
    /// A host-supplied (mesh-to-world) map: quantised entries.
    pub open spec fn wf(self) -> bool {
        &&& bounded3(self.m[0]@, COORD_LIMIT as int)
        &&& bounded3(self.m[1]@, COORD_LIMIT as int)
        &&& bounded3(self.m[2]@, COORD_LIMIT as int)
        &&& bounded3(self.c@, TRANS_LIMIT as int)
        &&& 0 < self.den <= COORD_LIMIT
    }

    pub fn new(m: [Vec3i; 3], c: Vec3i, den: i64) -> (r: AffineMap)
        requires
            den > 0,
        ensures
            r == (AffineMap { m, c, den }),
    {
        AffineMap { m, c, den }
    }

    /// The identity placement.
    pub fn identity() -> (r: AffineMap)
        ensures
            r.wf(),
            det3(r) == 1,
    {
        let m = [
            Vec3i { x: 1, y: 0, z: 0 },
            Vec3i { x: 0, y: 1, z: 0 },
            Vec3i { x: 0, y: 0, z: 1 },
        ];
        let c = Vec3i { x: 0, y: 0, z: 0 };
        let r = AffineMap { m, c, den: 1 };
        proof {
            assert(r.m[0]@ == (1int, 0int, 0int));
            assert(r.m[1]@ == (0int, 1int, 0int));
            assert(r.m[2]@ == (0int, 0int, 1int));
        }
        r
    }
}

/// Determinant of the linear part.
pub open spec fn det3(t: AffineMap) -> int {
    sdot(t.m[0]@, scross(t.m[1]@, t.m[2]@))
}

/// Rows of the adjugate of the linear part: its columns are the pairwise
/// cross products of the rows of `m`.
pub open spec fn adj_row(t: AffineMap, i: int) -> (int, int, int) {
    let c0 = scross(t.m[1]@, t.m[2]@);
    let c1 = scross(t.m[2]@, t.m[0]@);
    let c2 = scross(t.m[0]@, t.m[1]@);
    if i == 0 {
        (c0.0, c1.0, c2.0)
    } else if i == 1 {
        (c0.1, c1.1, c2.1)
    } else {
        (c0.2, c1.2, c2.2)
    }
}

/// One origin coordinate of the mesh-space ray: the inverse map applied to
/// the world origin, sign-normalised, before division by `|det|`.
pub open spec fn mesh_origin_num(t: AffineMap, wray: Ray, i: int) -> int {
    let s = crate::intersections::sgn(det3(t));
    s * ((t.den as int) * sdot(adj_row(t, i), wray.origin@) - sdot(adj_row(t, i), t.c@))
}

/// One direction coordinate of the mesh-space ray (linear part only).
pub open spec fn mesh_dir_num(t: AffineMap, wray: Ray, i: int) -> int {
    let s = crate::intersections::sgn(det3(t));
    s * ((t.den as int) * sdot(adj_row(t, i), wray.direction@))
}

/// The mesh-space ray that a world ray maps to under the exact inverse of
/// the placement; shares the world ray's distance parameter.
pub open spec fn mesh_ray_spec(t: AffineMap, wray: Ray) -> Ray {
    Ray {
        origin: Vec3i {
            x: mesh_origin_num(t, wray, 0) as i64,
            y: mesh_origin_num(t, wray, 1) as i64,
            z: mesh_origin_num(t, wray, 2) as i64,
        },
        direction: Vec3i {
            x: mesh_dir_num(t, wray, 0) as i64,
            y: mesh_dir_num(t, wray, 1) as i64,
            z: mesh_dir_num(t, wray, 2) as i64,
        },
        den: (crate::intersections::sgn(det3(t)) * det3(t)) as i64,
    }
}

/// Transform a world ray into mesh space by the exact inverse of the
/// placement map. `None` exactly when the map is degenerate (zero
/// determinant), in which case a query yields no hit.
pub fn world_to_mesh_ray(t: &AffineMap, wray: &Ray) -> (r: Option<Ray>)
    requires
        t.wf(),
        wray.world_wf(),
    ensures
        r.is_some() == (det3(*t) != 0),
        match r {
            Some(mr) => mr == mesh_ray_spec(*t, *wray) && mr.wf(),
            None => true,
        },
{
    let r0 = widen(&t.m[0]);
    let r1 = widen(&t.m[1]);
    let r2 = widen(&t.m[2]);
    let cw = widen(&t.c);
    let ow = widen(&wray.origin);
    let dw = widen(&wray.direction);
    let ghost cl = COORD_LIMIT as int;
    let c0 = wcross(&r1, &r2, Ghost(cl), Ghost(cl));
    let c1 = wcross(&r2, &r0, Ghost(cl), Ghost(cl));
    let c2 = wcross(&r0, &r1, Ghost(cl), Ghost(cl));
    let det = wdot(&r0, &c0, Ghost(cl), Ghost(2 * (cl * cl)));
    if det == 0 {
        return None;
    }
    let a0 = Vec3w { x: c0.x, y: c1.x, z: c2.x };
    let a1 = Vec3w { x: c0.y, y: c1.y, z: c2.y };
    let a2 = Vec3w { x: c0.z, y: c1.z, z: c2.z };
    proof {
        assert(bounded3(a0@, 2 * (cl * cl)));
        assert(bounded3(a1@, 2 * (cl * cl)));
        assert(bounded3(a2@, 2 * (cl * cl)));
        assert(a0@ == adj_row(*t, 0));
        assert(a1@ == adj_row(*t, 1));
        assert(a2@ == adj_row(*t, 2));
    }
    let dden = t.den as i128;
    let ghost ba = 2 * (cl * cl);
    let ghost bdot = 3 * (ba * cl);
    let ghost bdotc = 3 * (ba * (TRANS_LIMIT as int));
    let ao0 = wdot(&a0, &ow, Ghost(ba), Ghost(cl));
    let ao1 = wdot(&a1, &ow, Ghost(ba), Ghost(cl));
    let ao2 = wdot(&a2, &ow, Ghost(ba), Ghost(cl));
    let ac0 = wdot(&a0, &cw, Ghost(ba), Ghost(TRANS_LIMIT as int));
    let ac1 = wdot(&a1, &cw, Ghost(ba), Ghost(TRANS_LIMIT as int));
    let ac2 = wdot(&a2, &cw, Ghost(ba), Ghost(TRANS_LIMIT as int));
    let ad0 = wdot(&a0, &dw, Ghost(ba), Ghost(cl));
    let ad1 = wdot(&a1, &dw, Ghost(ba), Ghost(cl));
    let ad2 = wdot(&a2, &dw, Ghost(ba), Ghost(cl));
    proof {
        lemma_mul_bound(dden as int, ao0 as int, cl, 3 * (ba * cl));
        lemma_mul_bound(dden as int, ao1 as int, cl, 3 * (ba * cl));
        lemma_mul_bound(dden as int, ao2 as int, cl, 3 * (ba * cl));
        lemma_mul_bound(dden as int, ad0 as int, cl, 3 * (ba * cl));
        lemma_mul_bound(dden as int, ad1 as int, cl, 3 * (ba * cl));
        lemma_mul_bound(dden as int, ad2 as int, cl, 3 * (ba * cl));
    }
    let o0 = dden * ao0 - ac0;
    let o1 = dden * ao1 - ac1;
    let o2 = dden * ao2 - ac2;
    let d0 = dden * ad0;
    let d1 = dden * ad1;
    let d2 = dden * ad2;
    let (so0, so1, so2, sd0, sd1, sd2, sdet) = if det > 0 {
        (o0, o1, o2, d0, d1, d2, det)
    } else {
        (-o0, -o1, -o2, -d0, -d1, -d2, -det)
    };
    proof {
        let s = crate::intersections::sgn(det3(*t));
        lemma_sgn_mul(s, det3(*t));
        lemma_sgn_mul(s, o0 as int);
        lemma_sgn_mul(s, o1 as int);
        lemma_sgn_mul(s, o2 as int);
        lemma_sgn_mul(s, d0 as int);
        lemma_sgn_mul(s, d1 as int);
        lemma_sgn_mul(s, d2 as int);
    }
    Some(
        Ray {
            origin: Vec3i { x: so0 as i64, y: so1 as i64, z: so2 as i64 },
            direction: Vec3i { x: sd0 as i64, y: sd1 as i64, z: sd2 as i64 },
            den: sdet as i64,
        },
    )
}

/// One coordinate numerator of the exact inverse applied to an integer
/// point, over the denominator `det3(t)`.
pub open spec fn inv_num(t: AffineMap, q: (int, int, int), k: int) -> int {
    (t.den as int) * sdot(adj_row(t, k), q) - sdot(adj_row(t, k), t.c@)
}

/// Numerators of the forward map applied to a rational point.
pub open spec fn fwd_point_num(t: AffineMap, pn: (int, int, int), pd: int, i: int) -> int {
    sdot(t.m[i]@, pn) + t.c@.0 * pd * (if i == 0 {
        1int
    } else {
        0int
    }) + t.c@.1 * pd * (if i == 1 {
        1int
    } else {
        0int
    }) + t.c@.2 * pd * (if i == 2 {
        1int
    } else {
        0int
    })
}

/// Numerators of the forward linear part applied to a rational vector.
pub open spec fn fwd_vec_num(t: AffineMap, pn: (int, int, int), i: int) -> int {
    sdot(t.m[i]@, pn)
}

/// The exact inverse composes with the forward placement to the identity:
/// carrying any point through the inverse and then the forward map returns
/// the point itself, scaled by the composite positive factors. The mesh ray
/// is the inverse image of the world ray, so the hit parameter `t` names
/// the same point on both rays: the reported distance is measured on the
/// world ray for every placement, uniform or not, never copied from mesh
/// space.
pub proof fn lemma_forward_undoes_inverse(t: AffineMap, q: (int, int, int))
    ensures
        fwd_point_num(t, (inv_num(t, q, 0), inv_num(t, q, 1), inv_num(t, q, 2)), det3(t), 0) == (
        t.den as int) * (det3(t) * q.0),
        fwd_point_num(t, (inv_num(t, q, 0), inv_num(t, q, 1), inv_num(t, q, 2)), det3(t), 1) == (
        t.den as int) * (det3(t) * q.1),
        fwd_point_num(t, (inv_num(t, q, 0), inv_num(t, q, 1), inv_num(t, q, 2)), det3(t), 2) == (
        t.den as int) * (det3(t) * q.2),
{
    let r0 = t.m[0]@;
    let r1 = t.m[1]@;
    let r2 = t.m[2]@;
    let c = t.c@;
    let d = t.den as int;
    let det = det3(t);
    let a0 = adj_row(t, 0);
    let a1 = adj_row(t, 1);
    let a2 = adj_row(t, 2);
    // the linear part times the adjugate is det times the identity
    crate::alg::lemma_triple_cyclic(r1.0, r1.1, r1.2, r2.0, r2.1, r2.2, r0.0, r0.1, r0.2);
    crate::alg::lemma_triple_cyclic(r2.0, r2.1, r2.2, r0.0, r0.1, r0.2, r1.0, r1.1, r1.2);
    crate::alg::lemma_triple_repeat(r0.0, r0.1, r0.2, r1.0, r1.1, r1.2);
    crate::alg::lemma_triple_repeat(r0.0, r0.1, r0.2, r2.0, r2.1, r2.2);
    crate::alg::lemma_triple_repeat(r1.0, r1.1, r1.2, r0.0, r0.1, r0.2);
    crate::alg::lemma_triple_repeat(r1.0, r1.1, r1.2, r2.0, r2.1, r2.2);
    crate::alg::lemma_triple_repeat(r2.0, r2.1, r2.2, r0.0, r0.1, r0.2);
    crate::alg::lemma_triple_repeat(r2.0, r2.1, r2.2, r1.0, r1.1, r1.2);
    let s00 = r0.0 * a0.0 + r0.1 * a1.0 + r0.2 * a2.0;
    let s01 = r0.0 * a0.1 + r0.1 * a1.1 + r0.2 * a2.1;
    let s02 = r0.0 * a0.2 + r0.1 * a1.2 + r0.2 * a2.2;
    let s10 = r1.0 * a0.0 + r1.1 * a1.0 + r1.2 * a2.0;
    let s11 = r1.0 * a0.1 + r1.1 * a1.1 + r1.2 * a2.1;
    let s12 = r1.0 * a0.2 + r1.1 * a1.2 + r1.2 * a2.2;
    let s20 = r2.0 * a0.0 + r2.1 * a1.0 + r2.2 * a2.0;
    let s21 = r2.0 * a0.1 + r2.1 * a1.1 + r2.2 * a2.1;
    let s22 = r2.0 * a0.2 + r2.1 * a1.2 + r2.2 * a2.2;
    assert(s00 == det && s11 == det && s22 == det);
    assert(s01 == 0 && s02 == 0 && s10 == 0 && s12 == 0 && s20 == 0 && s21 == 0);
    lemma_compose_row(r0.0, r0.1, r0.2, a0, a1, a2, q, c, d, det, s00, s01, s02);
    lemma_compose_row(r1.0, r1.1, r1.2, a0, a1, a2, q, c, d, det, s10, s11, s12);
    lemma_compose_row(r2.0, r2.1, r2.2, a0, a1, a2, q, c, d, det, s20, s21, s22);
    vstd::arithmetic::mul::lemma_mul_is_commutative(det, c.0);
    vstd::arithmetic::mul::lemma_mul_is_commutative(det, c.1);
    vstd::arithmetic::mul::lemma_mul_is_commutative(det, c.2);
    assert(fwd_point_num(
        t,
        (inv_num(t, q, 0), inv_num(t, q, 1), inv_num(t, q, 2)),
        det,
        0,
    ) == (r0.0 * inv_num(t, q, 0) + r0.1 * inv_num(t, q, 1) + r0.2 * inv_num(t, q, 2)) + c.0
        * det);
    assert(fwd_point_num(
        t,
        (inv_num(t, q, 0), inv_num(t, q, 1), inv_num(t, q, 2)),
        det,
        1,
    ) == (r1.0 * inv_num(t, q, 0) + r1.1 * inv_num(t, q, 1) + r1.2 * inv_num(t, q, 2)) + c.1
        * det);
    assert(fwd_point_num(
        t,
        (inv_num(t, q, 0), inv_num(t, q, 1), inv_num(t, q, 2)),
        det,
        2,
    ) == (r2.0 * inv_num(t, q, 0) + r2.1 * inv_num(t, q, 1) + r2.2 * inv_num(t, q, 2)) + c.2
        * det);
}

/// One row of the composition: a row of the linear part applied to the
/// inverse's numerators, plus the translation times the determinant, equals
/// the row sums applied to the point and translation.
proof fn lemma_compose_row(
    m0: int, m1: int, m2: int,
    a0: (int, int, int),
    a1: (int, int, int),
    a2: (int, int, int),
    q: (int, int, int),
    c: (int, int, int),
    d: int,
    det: int,
    s0: int, s1: int, s2: int,
)
    requires
        s0 == m0 * a0.0 + m1 * a1.0 + m2 * a2.0,
        s1 == m0 * a0.1 + m1 * a1.1 + m2 * a2.1,
        s2 == m0 * a0.2 + m1 * a1.2 + m2 * a2.2,
    ensures
        m0 * (d * sdot(a0, q) - sdot(a0, c)) + m1 * (d * sdot(a1, q) - sdot(a1, c)) + m2 * (d
            * sdot(a2, q) - sdot(a2, c)) == d * (s0 * q.0 + s1 * q.1 + s2 * q.2) - (s0 * c.0 + s1
            * c.1 + s2 * c.2),
{
    crate::alg::lemma_scale_diff(m0, d, sdot(a0, q), sdot(a0, c));
    crate::alg::lemma_scale_diff(m1, d, sdot(a1, q), sdot(a1, c));
    crate::alg::lemma_scale_diff(m2, d, sdot(a2, q), sdot(a2, c));
    crate::alg::lemma_dist3(d, m0 * sdot(a0, q), m1 * sdot(a1, q), m2 * sdot(a2, q));
    crate::alg::lemma_sandwich(
        m0, m1, m2,
        a0.0, a0.1, a0.2,
        a1.0, a1.1, a1.2,
        a2.0, a2.1, a2.2,
        q.0, q.1, q.2,
        s0, s1, s2,
    );
    crate::alg::lemma_sandwich(
        m0, m1, m2,
        a0.0, a0.1, a0.2,
        a1.0, a1.1, a1.2,
        a2.0, a2.1, a2.2,
        c.0, c.1, c.2,
        s0, s1, s2,
    );
    assert(d * (m0 * sdot(a0, q) + m1 * sdot(a1, q) + m2 * sdot(a2, q)) == d * (s0 * q.0 + s1
        * q.1 + s2 * q.2));
}

/// Bound within which every mesh-space hit numerator stays; world
/// conversion multiplies inside `i128` only below this limit.
pub const HIT_NUM_LIMIT: i128 = 14623166714058554497245904896;

/// Bound on every mesh-space hit denominator.
pub const HIT_DEN_LIMIT: i128 = 8160249282398746929266688;

/// Apply the forward placement to a rational point, exactly.
pub fn fwd_point(t: &AffineMap, p: &RatVec3) -> (r: RatVec3)
    requires
        t.wf(),
        p.wf(),
        bounded3(p.num@, HIT_NUM_LIMIT as int),
        p.den <= HIT_DEN_LIMIT,
    ensures
        r.wf(),
        r.num@.0 == fwd_point_num(*t, p.num@, p.den as int, 0),
        r.num@.1 == fwd_point_num(*t, p.num@, p.den as int, 1),
        r.num@.2 == fwd_point_num(*t, p.num@, p.den as int, 2),
        r.den == (t.den as int) * (p.den as int),
{
    let r0 = widen(&t.m[0]);
    let r1 = widen(&t.m[1]);
    let r2 = widen(&t.m[2]);
    let ghost bn = HIT_NUM_LIMIT as int;
    let ghost cl = COORD_LIMIT as int;
    proof {
        lemma_mul_bound(t.c@.0, p.den as int, TRANS_LIMIT as int, HIT_DEN_LIMIT as int);
        lemma_mul_bound(t.c@.1, p.den as int, TRANS_LIMIT as int, HIT_DEN_LIMIT as int);
        lemma_mul_bound(t.c@.2, p.den as int, TRANS_LIMIT as int, HIT_DEN_LIMIT as int);
        lemma_mul_bound(t.den as int, p.den as int, cl, HIT_DEN_LIMIT as int);
        assert((t.den as int) * (p.den as int) > 0) by (nonlinear_arith)
            requires
                t.den > 0,
                p.den > 0,
        ;
    }
    let x = wdot(&r0, &p.num, Ghost(cl), Ghost(bn)) + (t.c.x as i128) * p.den;
    let y = wdot(&r1, &p.num, Ghost(cl), Ghost(bn)) + (t.c.y as i128) * p.den;
    let z = wdot(&r2, &p.num, Ghost(cl), Ghost(bn)) + (t.c.z as i128) * p.den;
    RatVec3 { num: Vec3w { x, y, z }, den: (t.den as i128) * p.den }
}

/// Apply the forward linear part to a rational vector, exactly.
pub fn fwd_vector(t: &AffineMap, p: &RatVec3) -> (r: RatVec3)
    requires
        t.wf(),
        p.wf(),
        bounded3(p.num@, HIT_NUM_LIMIT as int),
        p.den <= HIT_DEN_LIMIT,
    ensures
        r.wf(),
        r.num@.0 == fwd_vec_num(*t, p.num@, 0),
        r.num@.1 == fwd_vec_num(*t, p.num@, 1),
        r.num@.2 == fwd_vec_num(*t, p.num@, 2),
        r.den == (t.den as int) * (p.den as int),
{
    let r0 = widen(&t.m[0]);
    let r1 = widen(&t.m[1]);
    let r2 = widen(&t.m[2]);
    let ghost bn = HIT_NUM_LIMIT as int;
    let ghost cl = COORD_LIMIT as int;
    proof {
        lemma_mul_bound(t.den as int, p.den as int, cl, HIT_DEN_LIMIT as int);
        assert((t.den as int) * (p.den as int) > 0) by (nonlinear_arith)
            requires
                t.den > 0,
                p.den > 0,
        ;
    }
    let x = wdot(&r0, &p.num, Ghost(cl), Ghost(bn));
    let y = wdot(&r1, &p.num, Ghost(cl), Ghost(bn));
    let z = wdot(&r2, &p.num, Ghost(cl), Ghost(bn));
    RatVec3 { num: Vec3w { x, y, z }, den: (t.den as i128) * p.den }
}

} // verus!
