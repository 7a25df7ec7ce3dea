//! Ray–triangle intersection by the Möller–Trumbore method, carried out in
//! exact integer arithmetic.
//!
//! A ray holds integer numerators over one positive denominator, so every
//! derived quantity (determinant, barycentric numerators, distance) is an
//! exact integer or rational; the near-parallel epsilon threshold of a
//! floating-point formulation degenerates to an exact zero test here, which
//! this crate documents as its precision model.

use vstd::prelude::*;

use crate::math::{
    bounded3, lemma_cross_bound, lemma_dot_bound, lemma_mul_bound, rat_le, ratio_le, sadd, scross,
    sdot, ssub, sscale, RatVec3, Ratio, Vec3i, Vec3w, wadd, wcross, wdot, widen, wscale, wsub,
};
use crate::COORD_LIMIT;

verus! {

/// Bound on the numerators of a mesh-space ray: large enough to hold any
/// world ray carried through an exact inverse transform.
pub const RAY_NUM_LIMIT: i64 = 51539607552;

/// Bound on the denominator of a mesh-space ray: large enough to hold the
/// determinant of any quantised transform.
pub const RAY_DEN_LIMIT: i64 = 100663296;

/// Which triangle faces a query accepts.
#[derive(Clone, Copy, Debug, PartialEq, Eq, Structural)]
pub enum Backfaces {
    /// Reject triangles whose winding faces away from the ray.
    Cull,
    /// Accept both windings.
    Include,
}

/// A ray with exact rational coordinates: `origin / den` and `direction /
/// den`. Distances along the ray are parameters `t` such that the point
/// reached is `(origin + t * direction) / den`; a host that hands in a unit
/// direction reads `t` directly as its world distance.
#[derive(Clone, Copy, Debug)]
pub struct Ray {
    pub origin: Vec3i,
    pub direction: Vec3i,
    pub den: i64,
}

impl Ray {
    /// Well-formed mesh-space ray: bounded numerators, positive bounded
    /// denominator.
    pub open spec fn wf(self) -> bool {
        &&& bounded3(self.origin@, RAY_NUM_LIMIT as int)
        &&& bounded3(self.direction@, RAY_NUM_LIMIT as int)
        &&& 0 < self.den <= RAY_DEN_LIMIT
    }

    /// A world-space ray as a host hands it in: quantised coordinates and a
    /// unit denominator.
    pub open spec fn world_wf(self) -> bool {
        &&& bounded3(self.origin@, COORD_LIMIT as int)
        &&& bounded3(self.direction@, COORD_LIMIT as int)
        &&& self.den == 1
    }

    pub fn new(origin: Vec3i, direction: Vec3i, den: i64) -> (r: Ray)
        requires
            den > 0,
        ensures
            r == (Ray { origin, direction, den }),
    {
        Ray { origin, direction, den }
    }
}

/// Intermediate bounds of the intersection computation, all derived from the
/// input limits.
pub open spec fn bnd_e() -> int {
    2 * (COORD_LIMIT as int)
}

pub open spec fn bnd_tvec() -> int {
    RAY_NUM_LIMIT as int + (RAY_DEN_LIMIT as int) * (COORD_LIMIT as int)
}

pub open spec fn bnd_pvec() -> int {
    2 * ((RAY_NUM_LIMIT as int) * bnd_e())
}

pub open spec fn bnd_det() -> int {
    3 * (bnd_e() * bnd_pvec())
}

pub open spec fn bnd_qvec() -> int {
    2 * (bnd_tvec() * bnd_e())
}

pub open spec fn bnd_tn() -> int {
    3 * (bnd_e() * bnd_qvec())
}

pub open spec fn bnd_un() -> int {
    3 * (bnd_tvec() * bnd_pvec())
}

pub open spec fn bnd_vn() -> int {
    3 * ((RAY_NUM_LIMIT as int) * bnd_qvec())
}

pub open spec fn bnd_wdet() -> int {
    (RAY_DEN_LIMIT as int) * bnd_det()
}

/// The numeric values of the derived bounds, pinned once so that all later
/// range reasoning is linear.
pub proof fn lemma_bnd_values()
    ensures
        bnd_e() == 512,
        bnd_tvec() == 77309411328,
        bnd_pvec() == 52776558133248,
        bnd_det() == 81064793292668928,
        bnd_qvec() == 79164837199872,
        bnd_tn() == 121597189939003392,
        bnd_un() == 12240373923598120393900032,
        bnd_vn() == 12240373923598120393900032,
        bnd_wdet() == 8160249282398746929266688,
{
    assert(bnd_tvec() == 51539607552 + 100663296 * 256);
    assert(bnd_pvec() == 2 * (51539607552 * 512));
    assert(bnd_det() == 3 * (512 * 52776558133248));
    assert(bnd_qvec() == 2 * (77309411328 * 512));
    assert(bnd_tn() == 3 * (512 * 79164837199872));
    assert(bnd_un() == 3 * (77309411328 * 52776558133248));
    assert(bnd_vn() == 3 * (51539607552 * 79164837199872));
    assert(bnd_wdet() == 100663296 * 81064793292668928);
}

/// The two triangle edges from vertex 0.
pub open spec fn mt_e1(v0: Vec3i, v1: Vec3i) -> (int, int, int) {
    ssub(v1@, v0@)
}

pub open spec fn mt_e2(v0: Vec3i, v2: Vec3i) -> (int, int, int) {
    ssub(v2@, v0@)
}

/// Origin numerator relative to vertex 0, cleared of the denominator.
pub open spec fn mt_tvec(r: Ray, v0: Vec3i) -> (int, int, int) {
    ssub(r.origin@, sscale(r.den as int, v0@))
}

pub open spec fn mt_pvec(r: Ray, v0: Vec3i, v2: Vec3i) -> (int, int, int) {
    scross(r.direction@, mt_e2(v0, v2))
}

pub open spec fn mt_qvec(r: Ray, v0: Vec3i, v1: Vec3i) -> (int, int, int) {
    scross(mt_tvec(r, v0), mt_e1(v0, v1))
}

/// The Möller–Trumbore determinant, scaled by the ray denominator.
pub open spec fn mt_det(r: Ray, v0: Vec3i, v1: Vec3i, v2: Vec3i) -> int {
    sdot(mt_e1(v0, v1), mt_pvec(r, v0, v2))
}

pub open spec fn mt_un(r: Ray, v0: Vec3i, v1: Vec3i, v2: Vec3i) -> int {
    sdot(mt_tvec(r, v0), mt_pvec(r, v0, v2))
}

pub open spec fn mt_vn(r: Ray, v0: Vec3i, v1: Vec3i, v2: Vec3i) -> int {
    sdot(r.direction@, mt_qvec(r, v0, v1))
}

pub open spec fn mt_tn(r: Ray, v0: Vec3i, v1: Vec3i, v2: Vec3i) -> int {
    sdot(mt_e2(v0, v2), mt_qvec(r, v0, v1))
}

pub open spec fn sgn(x: int) -> int {
    if x >= 0 {
        1
    } else {
        -1
    }
}

/// The determinant test of each backface policy, with the floating-point
/// epsilon threshold collapsed to an exact zero test.
pub open spec fn det_allowed(det: int, culling: Backfaces) -> bool {
    match culling {
        Backfaces::Cull => det > 0,
        Backfaces::Include => det != 0,
    }
}

/// The exact acceptance region of the intersection: determinant allowed by
/// the policy, `u >= 0`, `v >= 0`, `u + v <= 1` over the sign-normalised
/// numerators (`u <= 1` follows).
pub open spec fn mt_accepts(r: Ray, v0: Vec3i, v1: Vec3i, v2: Vec3i, culling: Backfaces) -> bool {
    let det = mt_det(r, v0, v1, v2);
    let s = sgn(det);
    let un = mt_un(r, v0, v1, v2);
    let vn = mt_vn(r, v0, v1, v2);
    &&& det_allowed(det, culling)
    &&& 0 <= s * un
    &&& 0 <= s * vn
    &&& s * un + s * vn <= (r.den as int) * (s * det)
}

/// The signed distance parameter of the intersection, as a rational with a
/// positive denominator.
pub open spec fn mt_dist(r: Ray, v0: Vec3i, v1: Vec3i, v2: Vec3i) -> (int, int) {
    let det = mt_det(r, v0, v1, v2);
    let s = sgn(det);
    (s * mt_tn(r, v0, v1, v2), s * det)
}

pub open spec fn mt_bary_u(r: Ray, v0: Vec3i, v1: Vec3i, v2: Vec3i) -> (int, int) {
    let det = mt_det(r, v0, v1, v2);
    let s = sgn(det);
    (s * mt_un(r, v0, v1, v2), (r.den as int) * (s * det))
}

pub open spec fn mt_bary_v(r: Ray, v0: Vec3i, v1: Vec3i, v2: Vec3i) -> (int, int) {
    let det = mt_det(r, v0, v1, v2);
    let s = sgn(det);
    (s * mt_vn(r, v0, v1, v2), (r.den as int) * (s * det))
}

/// Hit data for an intersection between a ray and a triangle.
#[derive(Clone, Copy, Debug)]
pub struct RayTriangleHit {
    pub distance: Ratio,
    pub barycentric_coords: (Ratio, Ratio),
}

/// Takes a ray and triangle and computes the intersection, exactly. The
/// distance is not yet range-checked: callers apply their own lower and
/// upper bound, so the raw result can also serve any-hit queries.
pub fn ray_triangle_intersection(
    ray: &Ray,
    triangle: &[Vec3i; 3],
    backface_culling: Backfaces,
) -> (r: Option<RayTriangleHit>)
    requires
        ray.wf(),
        bounded3(triangle[0]@, COORD_LIMIT as int),
        bounded3(triangle[1]@, COORD_LIMIT as int),
        bounded3(triangle[2]@, COORD_LIMIT as int),
    ensures
        r.is_some() == mt_accepts(*ray, triangle[0], triangle[1], triangle[2], backface_culling),
        match r {
            Some(h) => {
                &&& h.distance@ == mt_dist(*ray, triangle[0], triangle[1], triangle[2])
                &&& h.distance.wf()
                &&& h.distance.cmp_bounded()
                &&& h.barycentric_coords.0@ == mt_bary_u(
                    *ray,
                    triangle[0],
                    triangle[1],
                    triangle[2],
                )
                &&& h.barycentric_coords.1@ == mt_bary_v(
                    *ray,
                    triangle[0],
                    triangle[1],
                    triangle[2],
                )
                &&& h.barycentric_coords.0.wf()
                &&& h.barycentric_coords.1.wf()
            },
            None => true,
        },
{
    let v0 = triangle[0];
    let v1 = triangle[1];
    let v2 = triangle[2];
    let w0 = widen(&v0);
    let w1 = widen(&v1);
    let w2 = widen(&v2);
    let ow = widen(&ray.origin);
    let dw = widen(&ray.direction);

    let e1 = wsub(&w1, &w0, Ghost(COORD_LIMIT as int), Ghost(COORD_LIMIT as int));
    let e2 = wsub(&w2, &w0, Ghost(COORD_LIMIT as int), Ghost(COORD_LIMIT as int));
    let pvec = wcross(&dw, &e2, Ghost(RAY_NUM_LIMIT as int), Ghost(bnd_e()));
    let det = wdot(&e1, &pvec, Ghost(bnd_e()), Ghost(bnd_pvec()));

    match backface_culling {
        Backfaces::Cull => {
            if det <= 0 {
                return None;
            }
        },
        Backfaces::Include => {
            if det == 0 {
                return None;
            }
        },
    }

    let w128 = ray.den as i128;
    let w0s = crate::math::wscale(
        w128,
        &w0,
        Ghost(RAY_DEN_LIMIT as int),
        Ghost(COORD_LIMIT as int),
    );
    let tvec = wsub(&ow, &w0s, Ghost(RAY_NUM_LIMIT as int), Ghost(
        (RAY_DEN_LIMIT as int) * (COORD_LIMIT as int),
    ));
    let un = wdot(&tvec, &pvec, Ghost(bnd_tvec()), Ghost(bnd_pvec()));
    let qvec = wcross(&tvec, &e1, Ghost(bnd_tvec()), Ghost(bnd_e()));
    let vn = wdot(&dw, &qvec, Ghost(RAY_NUM_LIMIT as int), Ghost(bnd_qvec()));
    let tn = wdot(&e2, &qvec, Ghost(bnd_e()), Ghost(bnd_qvec()));

    let su: i128 = if det > 0 {
        un
    } else {
        -un
    };
    let sv: i128 = if det > 0 {
        vn
    } else {
        -vn
    };
    let stn: i128 = if det > 0 {
        tn
    } else {
        -tn
    };
    let sdet: i128 = if det > 0 {
        det
    } else {
        -det
    };
    proof {
        lemma_mul_bound(w128 as int, sdet as int, RAY_DEN_LIMIT as int, bnd_det());
        assert((w128 as int) * (sdet as int) > 0) by (nonlinear_arith)
            requires
                w128 > 0,
                sdet > 0,
        ;
    }
    let wdet: i128 = w128 * sdet;

    if su < 0 || sv < 0 || su + sv > wdet {
        return None;
    }

    Some(
        RayTriangleHit {
            distance: Ratio::new(stn, sdet),
            barycentric_coords: (Ratio::new(su, wdet), Ratio::new(sv, wdet)),
        },
    )
}

/// Bounds on every Möller–Trumbore intermediate, derived from the input
/// limits alone.
pub proof fn lemma_mt_bounds(r: Ray, v0: Vec3i, v1: Vec3i, v2: Vec3i)
    requires
        r.wf(),
        bounded3(v0@, COORD_LIMIT as int),
        bounded3(v1@, COORD_LIMIT as int),
        bounded3(v2@, COORD_LIMIT as int),
    ensures
        -bnd_det() <= mt_det(r, v0, v1, v2) <= bnd_det(),
        -bnd_un() <= mt_un(r, v0, v1, v2) <= bnd_un(),
        -bnd_vn() <= mt_vn(r, v0, v1, v2) <= bnd_vn(),
        -bnd_tn() <= mt_tn(r, v0, v1, v2) <= bnd_tn(),
        -bnd_wdet() <= (r.den as int) * (sgn(mt_det(r, v0, v1, v2)) * mt_det(r, v0, v1, v2))
            <= bnd_wdet(),
{
    lemma_mul_bound(r.den as int, v0@.0, RAY_DEN_LIMIT as int, COORD_LIMIT as int);
    lemma_mul_bound(r.den as int, v0@.1, RAY_DEN_LIMIT as int, COORD_LIMIT as int);
    lemma_mul_bound(r.den as int, v0@.2, RAY_DEN_LIMIT as int, COORD_LIMIT as int);
    lemma_cross_bound(r.direction@, mt_e2(v0, v2), RAY_NUM_LIMIT as int, bnd_e());
    lemma_dot_bound(mt_e1(v0, v1), mt_pvec(r, v0, v2), bnd_e(), bnd_pvec());
    lemma_dot_bound(mt_tvec(r, v0), mt_pvec(r, v0, v2), bnd_tvec(), bnd_pvec());
    lemma_cross_bound(mt_tvec(r, v0), mt_e1(v0, v1), bnd_tvec(), bnd_e());
    lemma_dot_bound(r.direction@, mt_qvec(r, v0, v1), RAY_NUM_LIMIT as int, bnd_qvec());
    lemma_dot_bound(mt_e2(v0, v2), mt_qvec(r, v0, v1), bnd_e(), bnd_qvec());
    lemma_mul_bound(
        r.den as int,
        sgn(mt_det(r, v0, v1, v2)) * mt_det(r, v0, v1, v2),
        RAY_DEN_LIMIT as int,
        bnd_det(),
    );
}

/// Whether the ray strikes the triangle under the policy, with a
/// non-negative distance no greater than the optional bound.
pub open spec fn ti_accepts(
    r: Ray,
    v0: Vec3i,
    v1: Vec3i,
    v2: Vec3i,
    culling: Backfaces,
    bound: Option<(int, int)>,
) -> bool {
    &&& mt_accepts(r, v0, v1, v2, culling)
    &&& mt_dist(r, v0, v1, v2).0 >= 0
    &&& match bound {
        None => true,
        Some(b) => rat_le(mt_dist(r, v0, v1, v2), b),
    }
}

/// Remaining barycentric numerator for vertex 0: the weight `1 - u - v`.
pub open spec fn mt_bary_w(r: Ray, v0: Vec3i, v1: Vec3i, v2: Vec3i) -> (int, int) {
    let det = mt_det(r, v0, v1, v2);
    let s = sgn(det);
    let wdet = (r.den as int) * (s * det);
    (wdet - s * mt_un(r, v0, v1, v2) - s * mt_vn(r, v0, v1, v2), wdet)
}

/// Numerators of the hit point `origin/den + t * direction/den` over the
/// denominator `den * |det|`.
pub open spec fn mt_point_num(r: Ray, v0: Vec3i, v1: Vec3i, v2: Vec3i) -> (int, int, int) {
    let det = mt_det(r, v0, v1, v2);
    let s = sgn(det);
    sadd(sscale(s * det, r.origin@), sscale(s * mt_tn(r, v0, v1, v2), r.direction@))
}

pub open spec fn mt_point_den(r: Ray, v0: Vec3i, v1: Vec3i, v2: Vec3i) -> int {
    (r.den as int) * (sgn(mt_det(r, v0, v1, v2)) * mt_det(r, v0, v1, v2))
}

/// Numerators of the interpolated vertex normal `n1*u + n2*v + n0*(1-u-v)`
/// over the same denominator as the hit point.
pub open spec fn mt_normal_num(
    r: Ray,
    v0: Vec3i,
    v1: Vec3i,
    v2: Vec3i,
    ns: [Vec3i; 3],
) -> (int, int, int) {
    let det = mt_det(r, v0, v1, v2);
    let s = sgn(det);
    let su = s * mt_un(r, v0, v1, v2);
    let sv = s * mt_vn(r, v0, v1, v2);
    let wrem = (r.den as int) * (s * det) - su - sv;
    sadd(sadd(sscale(su, ns[1]@), sscale(sv, ns[2]@)), sscale(wrem, ns[0]@))
}

/// The flat face normal used when no vertex normals are present; exact and
/// deliberately unnormalised, since a unit length is not representable in
/// this arithmetic.
pub open spec fn mt_face_normal(v0: Vec3i, v1: Vec3i, v2: Vec3i) -> (int, int, int) {
    scross(mt_e1(v0, v1), mt_e2(v0, v2))
}

/// Numerators of the barycentric combination `v0*(1-u-v) + v1*u + v2*v`
/// over the same denominator as the hit point.
pub open spec fn mt_bary_point_num(r: Ray, v0: Vec3i, v1: Vec3i, v2: Vec3i) -> (int, int, int) {
    let det = mt_det(r, v0, v1, v2);
    let s = sgn(det);
    let su = s * mt_un(r, v0, v1, v2);
    let sv = s * mt_vn(r, v0, v1, v2);
    let wrem = (r.den as int) * (s * det) - su - sv;
    sadd(sadd(sscale(wrem, v0@), sscale(su, v1@)), sscale(sv, v2@))
}

/// The ray point at the hit parameter coincides, exactly, with the
/// barycentric combination of the triangle's vertices: both have the same
/// numerators over the denominator `den * |det|`. This holds for every ray
/// and triangle; together with the acceptance region it shows that every
/// reported hit lies on its triangle.
pub proof fn lemma_hit_point_on_triangle(r: Ray, v0: Vec3i, v1: Vec3i, v2: Vec3i)
    ensures
        mt_point_num(r, v0, v1, v2) == mt_bary_point_num(r, v0, v1, v2),
{
    let o = r.origin@;
    let d = r.direction@;
    let w = r.den as int;
    let tv = mt_tvec(r, v0);
    let a = mt_e1(v0, v1);
    let b = mt_e2(v0, v2);
    crate::alg::lemma_cramer_c0(tv.0, tv.1, tv.2, d.0, d.1, d.2, a.0, a.1, a.2, b.0, b.1, b.2);
    crate::alg::lemma_cramer_c1(tv.0, tv.1, tv.2, d.0, d.1, d.2, a.0, a.1, a.2, b.0, b.1, b.2);
    crate::alg::lemma_cramer_c2(tv.0, tv.1, tv.2, d.0, d.1, d.2, a.0, a.1, a.2, b.0, b.1, b.2);
    let det = mt_det(r, v0, v1, v2);
    let un = mt_un(r, v0, v1, v2);
    let vn = mt_vn(r, v0, v1, v2);
    let tn = mt_tn(r, v0, v1, v2);
    let s = sgn(det);
    assert(det * (o.0 - w * v0@.0) == un * (v1@.0 - v0@.0) + vn * (v2@.0 - v0@.0) - tn * d.0);
    assert(det * (o.1 - w * v0@.1) == un * (v1@.1 - v0@.1) + vn * (v2@.1 - v0@.1) - tn * d.1);
    assert(det * (o.2 - w * v0@.2) == un * (v1@.2 - v0@.2) + vn * (v2@.2 - v0@.2) - tn * d.2);
    crate::alg::lemma_rearrange_c(det, un, vn, tn, o.0, d.0, w, v0@.0, v1@.0, v2@.0);
    crate::alg::lemma_rearrange_c(det, un, vn, tn, o.1, d.1, w, v0@.1, v1@.1, v2@.1);
    crate::alg::lemma_rearrange_c(det, un, vn, tn, o.2, d.2, w, v0@.2, v1@.2, v2@.2);
    crate::alg::lemma_sign_c(det, un, vn, tn, o.0, d.0, w, v0@.0, v1@.0, v2@.0, s);
    crate::alg::lemma_sign_c(det, un, vn, tn, o.1, d.1, w, v0@.1, v1@.1, v2@.1, s);
    crate::alg::lemma_sign_c(det, un, vn, tn, o.2, d.2, w, v0@.2, v1@.2, v2@.2, s);
}

/// Hit data for an intersection between a ray and a mesh: the hit point and
/// normal as exact rationals, the three barycentric weights, the distance
/// parameter, and the struck triangle.
#[derive(Clone, Copy, Debug)]
pub struct RayMeshHit {
    pub point: RatVec3,
    pub normal: RatVec3,
    pub barycentric_coords: (Ratio, Ratio, Ratio),
    pub distance: Ratio,
    pub triangle: Option<[RatVec3; 3]>,
    pub triangle_index: Option<usize>,
}

/// The full hit record for an accepted intersection in the ray's own space,
/// before any world conversion; `triangle_index` is left for the caller.
pub open spec fn mesh_hit_spec(
    r: Ray,
    v0: Vec3i,
    v1: Vec3i,
    v2: Vec3i,
    ns: Option<[Vec3i; 3]>,
    h: RayMeshHit,
) -> bool {
    &&& h.point.num@ == mt_point_num(r, v0, v1, v2)
    &&& h.point.den == mt_point_den(r, v0, v1, v2)
    &&& h.point.wf()
    &&& match ns {
        Some(nrm) => h.normal.num@ == mt_normal_num(r, v0, v1, v2, nrm) && h.normal.den
            == mt_point_den(r, v0, v1, v2),
        None => h.normal.num@ == mt_face_normal(v0, v1, v2) && h.normal.den == 1,
    }
    &&& h.normal.wf()
    &&& h.barycentric_coords.0@ == mt_bary_u(r, v0, v1, v2)
    &&& h.barycentric_coords.1@ == mt_bary_v(r, v0, v1, v2)
    &&& h.barycentric_coords.2@ == mt_bary_w(r, v0, v1, v2)
    &&& h.distance@ == mt_dist(r, v0, v1, v2)
    &&& h.distance.wf()
    &&& h.distance.cmp_bounded()
    &&& h.triangle == Some(
        [
            RatVec3 { num: Vec3w { x: v0.x as i128, y: v0.y as i128, z: v0.z as i128 }, den: 1 },
            RatVec3 { num: Vec3w { x: v1.x as i128, y: v1.y as i128, z: v1.z as i128 }, den: 1 },
            RatVec3 { num: Vec3w { x: v2.x as i128, y: v2.y as i128, z: v2.z as i128 }, den: 1 },
        ],
    )
}

/// Intersects the ray with one triangle, keeping only hits with
/// `0 <= t <= max_distance`, and assembles the full hit record.
pub fn triangle_intersection(
    tri_vertices: &[Vec3i; 3],
    tri_normals: &Option<[Vec3i; 3]>,
    max_distance: &Option<Ratio>,
    ray: &Ray,
    backface_culling: Backfaces,
) -> (r: Option<RayMeshHit>)
    requires
        ray.wf(),
        bounded3(tri_vertices[0]@, COORD_LIMIT as int),
        bounded3(tri_vertices[1]@, COORD_LIMIT as int),
        bounded3(tri_vertices[2]@, COORD_LIMIT as int),
        match tri_normals {
            Some(ns) => bounded3(ns[0]@, COORD_LIMIT as int) && bounded3(ns[1]@, COORD_LIMIT as int)
                && bounded3(ns[2]@, COORD_LIMIT as int),
            None => true,
        },
        match max_distance {
            Some(m) => m.wf() && m.cmp_bounded(),
            None => true,
        },
    ensures
        r.is_some() == ti_accepts(
            *ray,
            tri_vertices[0],
            tri_vertices[1],
            tri_vertices[2],
            backface_culling,
            match max_distance {
                Some(m) => Some(m@),
                None => None,
            },
        ),
        match r {
            Some(h) => mesh_hit_spec(
                *ray,
                tri_vertices[0],
                tri_vertices[1],
                tri_vertices[2],
                *tri_normals,
                h,
            ) && h.triangle_index.is_none(),
            None => true,
        },
{
    let hit = match ray_triangle_intersection(ray, tri_vertices, backface_culling) {
        None => {
            return None;
        },
        Some(h) => h,
    };
    proof {
        lemma_bnd_values();
        lemma_mt_bounds(*ray, tri_vertices[0], tri_vertices[1], tri_vertices[2]);
    }

    if hit.distance.num < 0 {
        return None;
    }
    match max_distance {
        Some(m) => {
            if !ratio_le(&hit.distance, m) {
                return None;
            }
        },
        None => {},
    }

    let stn = hit.distance.num;
    let sdet = hit.distance.den;
    let su = hit.barycentric_coords.0.num;
    let sv = hit.barycentric_coords.1.num;
    let wdet = hit.barycentric_coords.0.den;
    proof {
        let det = mt_det(*ray, tri_vertices[0], tri_vertices[1], tri_vertices[2]);
        let s = sgn(det);
        crate::math::lemma_sgn_mul(s, det);
        crate::math::lemma_sgn_mul(s, mt_tn(*ray, tri_vertices[0], tri_vertices[1], tri_vertices[2]));
        crate::math::lemma_sgn_mul(s, mt_un(*ray, tri_vertices[0], tri_vertices[1], tri_vertices[2]));
        crate::math::lemma_sgn_mul(s, mt_vn(*ray, tri_vertices[0], tri_vertices[1], tri_vertices[2]));
        assert(-bnd_tn() <= stn as int <= bnd_tn());
        assert(0 < sdet as int <= bnd_det());
        assert(-bnd_un() <= su as int <= bnd_un());
        assert(-bnd_vn() <= sv as int <= bnd_vn());
        assert(0 < wdet as int <= bnd_wdet());
    }
    let wrem = wdet - su - sv;

    let ow = widen(&ray.origin);
    let dw = widen(&ray.direction);
    let point_num = wadd(
        &wscale(sdet, &ow, Ghost(bnd_det()), Ghost(RAY_NUM_LIMIT as int)),
        &wscale(stn, &dw, Ghost(bnd_tn()), Ghost(RAY_NUM_LIMIT as int)),
        Ghost(bnd_det() * (RAY_NUM_LIMIT as int)),
        Ghost(bnd_tn() * (RAY_NUM_LIMIT as int)),
    );
    let point = RatVec3::new(point_num, wdet);

    let normal = match tri_normals {
        Some(ns) => {
            let n0 = widen(&ns[0]);
            let n1 = widen(&ns[1]);
            let n2 = widen(&ns[2]);
            let part_uv = wadd(
                &wscale(su, &n1, Ghost(bnd_un()), Ghost(COORD_LIMIT as int)),
                &wscale(sv, &n2, Ghost(bnd_vn()), Ghost(COORD_LIMIT as int)),
                Ghost(bnd_un() * (COORD_LIMIT as int)),
                Ghost(bnd_vn() * (COORD_LIMIT as int)),
            );
            let num = wadd(
                &part_uv,
                &wscale(
                    wrem,
                    &n0,
                    Ghost(bnd_wdet() + bnd_un() + bnd_vn()),
                    Ghost(COORD_LIMIT as int),
                ),
                Ghost(bnd_un() * (COORD_LIMIT as int) + bnd_vn() * (COORD_LIMIT as int)),
                Ghost((bnd_wdet() + bnd_un() + bnd_vn()) * (COORD_LIMIT as int)),
            );
            RatVec3::new(num, wdet)
        },
        None => {
            let e1 = wsub(
                &widen(&tri_vertices[1]),
                &widen(&tri_vertices[0]),
                Ghost(COORD_LIMIT as int),
                Ghost(COORD_LIMIT as int),
            );
            let e2 = wsub(
                &widen(&tri_vertices[2]),
                &widen(&tri_vertices[0]),
                Ghost(COORD_LIMIT as int),
                Ghost(COORD_LIMIT as int),
            );
            RatVec3::new(wcross(&e1, &e2, Ghost(bnd_e()), Ghost(bnd_e())), 1)
        },
    };

    let bary_w = Ratio::new(wrem, wdet);

    Some(
        RayMeshHit {
            point,
            normal,
            barycentric_coords: (hit.barycentric_coords.0, hit.barycentric_coords.1, bary_w),
            distance: hit.distance,
            triangle: Some(
                [
                    RatVec3::new(widen(&tri_vertices[0]), 1),
                    RatVec3::new(widen(&tri_vertices[1]), 1),
                    RatVec3::new(widen(&tri_vertices[2]), 1),
                ],
            ),
            triangle_index: None,
        },
    )
}

/// The intersection law: an accepted hit lies inside its triangle. The
/// barycentric weights are in range as exact rationals (`u >= 0`, `v >= 0`,
/// `u + v <= 1` over the positive denominator), and the ray's point at the
/// hit parameter is exactly the barycentric combination of the vertices:
/// the same numerators over the same denominator, with no tolerance.
pub proof fn lemma_hit_inside_triangle(r: Ray, v0: Vec3i, v1: Vec3i, v2: Vec3i, culling: Backfaces)
    requires
        r.den > 0,
        mt_accepts(r, v0, v1, v2, culling),
    ensures
        mt_bary_u(r, v0, v1, v2).1 > 0,
        mt_bary_u(r, v0, v1, v2).0 >= 0,
        mt_bary_v(r, v0, v1, v2).0 >= 0,
        mt_bary_u(r, v0, v1, v2).0 + mt_bary_v(r, v0, v1, v2).0 <= mt_bary_u(r, v0, v1, v2).1,
        mt_point_den(r, v0, v1, v2) == mt_bary_u(r, v0, v1, v2).1,
        mt_point_num(r, v0, v1, v2) == mt_bary_point_num(r, v0, v1, v2),
{
    let det = mt_det(r, v0, v1, v2);
    let s = sgn(det);
    crate::math::lemma_sgn_mul(s, det);
    assert((r.den as int) * (s * det) > 0) by (nonlinear_arith)
        requires
            r.den > 0,
            s * det > 0,
    ;
    lemma_hit_point_on_triangle(r, v0, v1, v2);
}

/// The backface law: a front-facing hit that the culling policy accepts is
/// still a hit with backfaces included after reversing the vertex winding,
/// but the culling policy rejects the reversed triangle.
pub proof fn lemma_backface_cull_vs_include(r: Ray, v0: Vec3i, v1: Vec3i, v2: Vec3i)
    requires
        r.den > 0,
        mt_accepts(r, v0, v1, v2, Backfaces::Cull),
    ensures
        mt_accepts(r, v2, v1, v0, Backfaces::Include),
        !mt_accepts(r, v2, v1, v0, Backfaces::Cull),
{
    let o = r.origin@;
    let d = r.direction@;
    let w = r.den as int;
    crate::alg::lemma_reverse_det(
        o.0, o.1, o.2, w,
        d.0, d.1, d.2,
        v0@.0, v0@.1, v0@.2,
        v1@.0, v1@.1, v1@.2,
        v2@.0, v2@.1, v2@.2,
    );
    crate::alg::lemma_reverse_un(
        o.0, o.1, o.2, w,
        d.0, d.1, d.2,
        v0@.0, v0@.1, v0@.2,
        v1@.0, v1@.1, v1@.2,
        v2@.0, v2@.1, v2@.2,
    );
    crate::alg::lemma_reverse_vn(
        o.0, o.1, o.2, w,
        d.0, d.1, d.2,
        v0@.0, v0@.1, v0@.2,
        v1@.0, v1@.1, v1@.2,
        v2@.0, v2@.1, v2@.2,
    );
    let det = mt_det(r, v0, v1, v2);
    assert(mt_det(r, v2, v1, v0) == -det);
    assert(mt_un(r, v2, v1, v0) == -mt_un(r, v0, v1, v2));
    assert(mt_vn(r, v2, v1, v0) == -(w * det - mt_un(r, v0, v1, v2) - mt_vn(r, v0, v1, v2)));
    crate::math::lemma_sgn_mul(sgn(-det), -det);
    crate::math::lemma_sgn_mul(sgn(-det), mt_un(r, v2, v1, v0));
    crate::math::lemma_sgn_mul(sgn(-det), mt_vn(r, v2, v1, v0));
}

} // verus!
