//! Axis-aligned bounding boxes over quantised coordinates, and the exact
//! ray/box slab test used for broad-phase culling and tree traversal.

use vstd::prelude::*;

use crate::intersections::{Ray, RAY_DEN_LIMIT, RAY_NUM_LIMIT};
use crate::math::{bounded3, rat_le, ratio_le, Ratio, Vec3i};
use crate::triangle::Triangle;
use crate::COORD_LIMIT;

verus! {

#[derive(Clone, Copy, Debug)]
pub struct Aabb {
    pub min: Vec3i,
    pub max: Vec3i,
}

pub open spec fn aabb_wf(b: Aabb) -> bool {
    &&& bounded3(b.min@, COORD_LIMIT as int)
    &&& bounded3(b.max@, COORD_LIMIT as int)
    &&& b.min@.0 <= b.max@.0
    &&& b.min@.1 <= b.max@.1
    &&& b.min@.2 <= b.max@.2
}

/// An integer point lies inside the box.
pub open spec fn in_aabb(b: Aabb, p: (int, int, int)) -> bool {
    &&& b.min@.0 <= p.0 <= b.max@.0
    &&& b.min@.1 <= p.1 <= b.max@.1
    &&& b.min@.2 <= p.2 <= b.max@.2
}

/// All three vertices of the triangle lie inside the box.
pub open spec fn tri_in_aabb(b: Aabb, t: Triangle) -> bool {
    &&& in_aabb(b, t.positions[0]@)
    &&& in_aabb(b, t.positions[1]@)
    &&& in_aabb(b, t.positions[2]@)
}

pub open spec fn aabb_contains(outer: Aabb, inner: Aabb) -> bool {
    &&& outer.min@.0 <= inner.min@.0
    &&& outer.min@.1 <= inner.min@.1
    &&& outer.min@.2 <= inner.min@.2
    &&& inner.max@.0 <= outer.max@.0
    &&& inner.max@.1 <= outer.max@.1
    &&& inner.max@.2 <= outer.max@.2
}

pub open spec fn spec_min_i64(a: i64, b: i64) -> i64 {
    if a <= b {
        a
    } else {
        b
    }
}

pub open spec fn spec_max_i64(a: i64, b: i64) -> i64 {
    if a >= b {
        a
    } else {
        b
    }
}

fn min_i64(a: i64, b: i64) -> (r: i64)
    ensures
        r == spec_min_i64(a, b),
{
    if a <= b { a } else { b }
}

fn max_i64(a: i64, b: i64) -> (r: i64)
    ensures
        r == spec_max_i64(a, b),
{
    if a >= b { a } else { b }
}

/// The tight box of one triangle: componentwise min and max of its three
/// vertices.
pub open spec fn tri_aabb_spec(t: Triangle) -> Aabb {
    Aabb {
        min: Vec3i {
            x: spec_min_i64(spec_min_i64(t.positions[0].x, t.positions[1].x), t.positions[2].x),
            y: spec_min_i64(spec_min_i64(t.positions[0].y, t.positions[1].y), t.positions[2].y),
            z: spec_min_i64(spec_min_i64(t.positions[0].z, t.positions[1].z), t.positions[2].z),
        },
        max: Vec3i {
            x: spec_max_i64(spec_max_i64(t.positions[0].x, t.positions[1].x), t.positions[2].x),
            y: spec_max_i64(spec_max_i64(t.positions[0].y, t.positions[1].y), t.positions[2].y),
            z: spec_max_i64(spec_max_i64(t.positions[0].z, t.positions[1].z), t.positions[2].z),
        },
    }
}

/// The smallest box containing both arguments: componentwise min of mins
/// and max of maxes.
pub open spec fn merge_box(a: Aabb, b: Aabb) -> Aabb {
    Aabb {
        min: Vec3i {
            x: spec_min_i64(a.min.x, b.min.x),
            y: spec_min_i64(a.min.y, b.min.y),
            z: spec_min_i64(a.min.z, b.min.z),
        },
        max: Vec3i {
            x: spec_max_i64(a.max.x, b.max.x),
            y: spec_max_i64(a.max.y, b.max.y),
            z: spec_max_i64(a.max.z, b.max.z),
        },
    }
}

impl Triangle {
    /// The tight axis-aligned bounding box of the three vertices: equal to
    /// the componentwise min/max, so every face touches some vertex.
    pub fn aabb(&self) -> (r: Aabb)
        requires
            self.wf(),
        ensures
            aabb_wf(r),
            tri_in_aabb(r, *self),
            r == tri_aabb_spec(*self),
    {
        let p0 = self.positions[0];
        let p1 = self.positions[1];
        let p2 = self.positions[2];
        Aabb {
            min: Vec3i {
                x: min_i64(min_i64(p0.x, p1.x), p2.x),
                y: min_i64(min_i64(p0.y, p1.y), p2.y),
                z: min_i64(min_i64(p0.z, p1.z), p2.z),
            },
            max: Vec3i {
                x: max_i64(max_i64(p0.x, p1.x), p2.x),
                y: max_i64(max_i64(p0.y, p1.y), p2.y),
                z: max_i64(max_i64(p0.z, p1.z), p2.z),
            },
        }
    }
}

/// The smallest box containing both arguments: exactly the componentwise
/// min of the mins and max of the maxes.
pub fn merge_aabb(a: &Aabb, b: &Aabb) -> (r: Aabb)
    requires
        aabb_wf(*a),
        aabb_wf(*b),
    ensures
        aabb_wf(r),
        aabb_contains(r, *a),
        aabb_contains(r, *b),
        r == merge_box(*a, *b),
    {
    Aabb {
        min: Vec3i {
            x: min_i64(a.min.x, b.min.x),
            y: min_i64(a.min.y, b.min.y),
            z: min_i64(a.min.z, b.min.z),
        },
        max: Vec3i {
            x: max_i64(a.max.x, b.max.x),
            y: max_i64(a.max.y, b.max.y),
            z: max_i64(a.max.z, b.max.z),
        },
    }
}

/// The merged tight box of a whole triangle list, as a host needs when it
/// assembles a scene object around a mesh: `None` only for an empty list.
pub fn triangles_bounds(tris: &Vec<Triangle>) -> (r: Option<Aabb>)
    requires
        crate::common::tris_wf(tris@),
    ensures
        r.is_some() == (tris@.len() > 0),
        match r {
            Some(b) => aabb_wf(b) && forall|i: int|
                0 <= i < tris@.len() ==> tri_in_aabb(b, #[trigger] tris@[i]),
            None => true,
        },
{
    if tris.len() == 0 {
        return None;
    }
    let mut bounds = tris[0].aabb();
    let mut i: usize = 1;
    while i < tris.len()
        invariant
            0 < i <= tris@.len(),
            crate::common::tris_wf(tris@),
            aabb_wf(bounds),
            forall|j: int| 0 <= j < i ==> tri_in_aabb(bounds, #[trigger] tris@[j]),
        decreases tris@.len() - i,
    {
        let tb = tris[i].aabb();
        bounds = merge_aabb(&bounds, &tb);
        i = i + 1;
    }
    Some(bounds)
}

/// One axis of the slab condition: at parameter `tn/td` the ray coordinate
/// `(o + t*d)/w` lies within `[mn, mx]`, cleared of both denominators.
pub open spec fn axis_ok(o: int, d: int, w: int, mn: int, mx: int, tn: int, td: int) -> bool {
    &&& (mn * w) * td <= o * td + tn * d
    &&& o * td + tn * d <= (mx * w) * td
}

/// The ray point at parameter `tn/td` lies inside the box.
pub open spec fn ray_reaches_box(r: Ray, b: Aabb, tn: int, td: int) -> bool {
    &&& axis_ok(r.origin@.0, r.direction@.0, r.den as int, b.min@.0, b.max@.0, tn, td)
    &&& axis_ok(r.origin@.1, r.direction@.1, r.den as int, b.min@.1, b.max@.1, tn, td)
    &&& axis_ok(r.origin@.2, r.direction@.2, r.den as int, b.min@.2, b.max@.2, tn, td)
}

/// Membership of a parameter in the running slab interval.
pub open spec fn in_ival(lo: (int, int), hi: Option<(int, int)>, tn: int, td: int) -> bool {
    &&& rat_le(lo, (tn, td))
    &&& match hi {
        Some(h) => rat_le((tn, td), h),
        None => true,
    }
}

proof fn lemma_axis_entry(mnw: int, o: int, d: int, tn: int, td: int) by (nonlinear_arith)
    ensures
        ((mnw - o) * td <= tn * d) == (mnw * td <= o * td + tn * d),
        (tn * d <= (mnw - o) * td) == (o * td + tn * d <= mnw * td),
        ((o - mnw) * td <= tn * (-d)) == (o * td + tn * d <= mnw * td),
        (tn * (-d) <= (o - mnw) * td) == (mnw * td <= o * td + tn * d),
{
}

proof fn lemma_scale_le(a: int, b: int, td: int) by (nonlinear_arith)
    requires
        td > 0,
    ensures
        (a * td <= b * td) == (a <= b),
{
}

proof fn lemma_rat_above_nonneg(n: int, d: int, l: int, ld: int) by (nonlinear_arith)
    requires
        l >= 0,
        ld > 0,
        d > 0,
        !rat_le((n, d), (l, ld)),
    ensures
        n >= 0,
{
}

/// Clip the running interval by one axis. `None` means no parameter in the
/// old interval satisfies this axis.
fn axis_clip(lo: Ratio, hi: Option<Ratio>, o: i64, d: i64, w: i64, mn: i64, mx: i64) -> (r: Option<
    (Ratio, Option<Ratio>),
>)
    requires
        lo.wf(),
        lo.cmp_bounded(),
        lo.num >= 0,
        match hi {
            Some(h) => h.wf() && h.cmp_bounded() && rat_le(lo@, h@),
            None => true,
        },
        -RAY_NUM_LIMIT <= o <= RAY_NUM_LIMIT,
        -RAY_NUM_LIMIT <= d <= RAY_NUM_LIMIT,
        0 < w <= RAY_DEN_LIMIT,
        -COORD_LIMIT <= mn <= COORD_LIMIT,
        -COORD_LIMIT <= mx <= COORD_LIMIT,
    ensures
        match r {
            None => forall|tn: int, td: int|
                td > 0 ==> !(axis_ok(o as int, d as int, w as int, mn as int, mx as int, tn, td)
                    && in_ival(lo@, spec_hi(hi), tn, td)),
            Some((lo2, hi2)) => {
                &&& lo2.wf()
                &&& lo2.cmp_bounded()
                &&& lo2.num >= 0
                &&& match hi2 {
                    Some(h) => h.wf() && h.cmp_bounded() && rat_le(lo2@, h@),
                    None => true,
                }
                &&& rat_le(lo@, lo2@)
                &&& match hi {
                    Some(h) => hi2.is_some() && rat_le(spec_hi(hi2).unwrap(), h@),
                    None => true,
                }
                &&& forall|tn: int, td: int|
                    td > 0 && axis_ok(o as int, d as int, w as int, mn as int, mx as int, tn, td)
                        && in_ival(lo@, spec_hi(hi), tn, td) ==> in_ival(
                        lo2@,
                        spec_hi(hi2),
                        tn,
                        td,
                    )
                &&& forall|tn: int, td: int|
                    td > 0 && in_ival(lo2@, spec_hi(hi2), tn, td) ==> axis_ok(
                        o as int,
                        d as int,
                        w as int,
                        mn as int,
                        mx as int,
                        tn,
                        td,
                    )
            },
        },
{
    proof {
        crate::math::lemma_mul_bound(mn as int, w as int, COORD_LIMIT as int, RAY_DEN_LIMIT as int);
        crate::math::lemma_mul_bound(mx as int, w as int, COORD_LIMIT as int, RAY_DEN_LIMIT as int);
    }
    let mnw: i128 = (mn as i128) * (w as i128);
    let mxw: i128 = (mx as i128) * (w as i128);
    let o128 = o as i128;
    if d == 0 {
        if mnw <= o128 && o128 <= mxw {
            proof {
                assert forall|tn: int, td: int|
                    td > 0 && axis_ok(o as int, d as int, w as int, mn as int, mx as int, tn, td)
                        && in_ival(lo@, spec_hi(hi), tn, td) implies in_ival(
                    lo@,
                    spec_hi(hi),
                    tn,
                    td,
                ) by {}
                assert forall|tn: int, td: int| td > 0 implies axis_ok(
                    o as int,
                    d as int,
                    w as int,
                    mn as int,
                    mx as int,
                    tn,
                    td,
                ) by {
                    lemma_scale_le((mn * w) as int, o as int, td);
                    lemma_scale_le(o as int, (mx * w) as int, td);
                }
            }
            Some((lo, hi))
        } else {
            proof {
                assert forall|tn: int, td: int| td > 0 implies !(axis_ok(
                    o as int,
                    d as int,
                    w as int,
                    mn as int,
                    mx as int,
                    tn,
                    td,
                ) && in_ival(lo@, spec_hi(hi), tn, td)) by {
                    if axis_ok(o as int, d as int, w as int, mn as int, mx as int, tn, td) {
                        lemma_scale_le((mn * w) as int, o as int, td);
                        lemma_scale_le(o as int, (mx * w) as int, td);
                    }
                }
            }
            None
        }
    } else {
        let (entry, exit) = if d > 0 {
            (Ratio::new(mnw - o128, d as i128), Ratio::new(mxw - o128, d as i128))
        } else {
            (Ratio::new(o128 - mxw, -(d as i128)), Ratio::new(o128 - mnw, -(d as i128)))
        };
        let lo2 = if ratio_le(&entry, &lo) {
            lo
        } else {
            proof {
                lemma_rat_above_nonneg(entry@.0, entry@.1, lo@.0, lo@.1);
            }
            entry
        };
        let hi2 = match hi {
            Some(h) => {
                if ratio_le(&h, &exit) {
                    Some(h)
                } else {
                    Some(exit)
                }
            },
            None => Some(exit),
        };
        let keep = match hi2 {
            Some(h) => ratio_le(&lo2, &h),
            None => true,
        };
        if keep {
            proof {
                assert forall|tn: int, td: int|
                    td > 0 && axis_ok(o as int, d as int, w as int, mn as int, mx as int, tn, td)
                        && in_ival(lo@, spec_hi(hi), tn, td) implies in_ival(
                    lo2@,
                    spec_hi(hi2),
                    tn,
                    td,
                ) by {
                    lemma_axis_entry((mn * w) as int, o as int, d as int, tn, td);
                    lemma_axis_entry((mx * w) as int, o as int, d as int, tn, td);
                }
                assert forall|tn: int, td: int|
                    td > 0 && in_ival(lo2@, spec_hi(hi2), tn, td) implies axis_ok(
                    o as int,
                    d as int,
                    w as int,
                    mn as int,
                    mx as int,
                    tn,
                    td,
                ) by {
                    lemma_axis_entry((mn * w) as int, o as int, d as int, tn, td);
                    lemma_axis_entry((mx * w) as int, o as int, d as int, tn, td);
                    crate::math::lemma_rat_le_trans(entry@, lo2@, (tn, td));
                    let h2 = spec_hi(hi2).unwrap();
                    crate::math::lemma_rat_le_trans((tn, td), h2, exit@);
                }
            }
            Some((lo2, hi2))
        } else {
            proof {
                assert forall|tn: int, td: int| td > 0 implies !(axis_ok(
                    o as int,
                    d as int,
                    w as int,
                    mn as int,
                    mx as int,
                    tn,
                    td,
                ) && in_ival(lo@, spec_hi(hi), tn, td)) by {
                    if axis_ok(o as int, d as int, w as int, mn as int, mx as int, tn, td)
                        && in_ival(lo@, spec_hi(hi), tn, td) {
                        lemma_axis_entry((mn * w) as int, o as int, d as int, tn, td);
                        lemma_axis_entry((mx * w) as int, o as int, d as int, tn, td);
                        let h = match hi2 {
                            Some(h) => h,
                            None => Ratio { num: 0, den: 1 },
                        };
                        crate::math::lemma_rat_le_trans(lo2@, (tn, td), h@);
                    }
                }
            }
            None
        }
    }
}

/// A convex combination with non-negative weights stays within the bounds of
/// its points, scaled by the weight sum.
proof fn lemma_convex_bound(
    p0: int, p1: int, p2: int,
    su: int, sv: int, wrem: int,
    den: int, mn: int, mx: int,
) by (nonlinear_arith)
    requires
        su >= 0,
        sv >= 0,
        wrem >= 0,
        wrem + su + sv == den,
        mn <= p0 <= mx,
        mn <= p1 <= mx,
        mn <= p2 <= mx,
    ensures
        mn * den <= wrem * p0 + su * p1 + sv * p2 <= mx * den,
{
}

/// Rewriting a scaled coordinate bound into the slab condition's shape.
proof fn lemma_axis_from_bound(
    mn: int, mx: int, w: int, sdet: int, o: int, d: int, tns: int,
) by (nonlinear_arith)
    requires
        mn * (w * sdet) <= sdet * o + tns * d,
        sdet * o + tns * d <= mx * (w * sdet),
    ensures
        (mn * w) * sdet <= o * sdet + tns * d,
        o * sdet + tns * d <= (mx * w) * sdet,
{
}

/// An accepted forward hit on a triangle reaches every box that contains the
/// triangle's vertices: the keystone of acceleration-structure completeness.
pub proof fn lemma_hit_reaches_box(
    r: Ray,
    v0: Vec3i,
    v1: Vec3i,
    v2: Vec3i,
    culling: crate::intersections::Backfaces,
    b: Aabb,
)
    requires
        r.den > 0,
        crate::intersections::mt_accepts(r, v0, v1, v2, culling),
        crate::intersections::mt_dist(r, v0, v1, v2).0 >= 0,
        in_aabb(b, v0@),
        in_aabb(b, v1@),
        in_aabb(b, v2@),
    ensures
        crate::intersections::mt_dist(r, v0, v1, v2).1 > 0,
        ray_reaches_box(
            r,
            b,
            crate::intersections::mt_dist(r, v0, v1, v2).0,
            crate::intersections::mt_dist(r, v0, v1, v2).1,
        ),
{
    let det = crate::intersections::mt_det(r, v0, v1, v2);
    let s = crate::intersections::sgn(det);
    crate::math::lemma_sgn_mul(s, det);
    crate::math::lemma_sgn_mul(s, crate::intersections::mt_un(r, v0, v1, v2));
    crate::math::lemma_sgn_mul(s, crate::intersections::mt_vn(r, v0, v1, v2));
    let sdet = s * det;
    let su = s * crate::intersections::mt_un(r, v0, v1, v2);
    let sv = s * crate::intersections::mt_vn(r, v0, v1, v2);
    let tns = s * crate::intersections::mt_tn(r, v0, v1, v2);
    let w = r.den as int;
    assert(det != 0);
    if det >= 0 {
        assert(sdet == det);
    } else {
        assert(sdet == -det);
    }
    assert(sdet > 0);
    assert(w * sdet > 0) by (nonlinear_arith)
        requires
            w > 0,
            sdet > 0,
    ;
    let den = w * sdet;
    let wrem = den - su - sv;
    crate::intersections::lemma_hit_point_on_triangle(r, v0, v1, v2);
    let pn = crate::intersections::mt_point_num(r, v0, v1, v2);
    lemma_convex_bound(v0@.0, v1@.0, v2@.0, su, sv, wrem, den, b.min@.0, b.max@.0);
    lemma_convex_bound(v0@.1, v1@.1, v2@.1, su, sv, wrem, den, b.min@.1, b.max@.1);
    lemma_convex_bound(v0@.2, v1@.2, v2@.2, su, sv, wrem, den, b.min@.2, b.max@.2);
    lemma_axis_from_bound(b.min@.0, b.max@.0, w, sdet, r.origin@.0, r.direction@.0, tns);
    lemma_axis_from_bound(b.min@.1, b.max@.1, w, sdet, r.origin@.1, r.direction@.1, tns);
    lemma_axis_from_bound(b.min@.2, b.max@.2, w, sdet, r.origin@.2, r.direction@.2, tns);
}

/// The `Option<Ratio>` view used by the slab interval specs.
pub open spec fn spec_hi(hi: Option<Ratio>) -> Option<(int, int)> {
    match hi {
        Some(h) => Some(h@),
        None => None,
    }
}

/// Exact slab test. The result is `Some` exactly when some non-negative
/// parameter puts the ray inside the box, and `near` is then the least such
/// parameter: it reaches the box itself and lower-bounds every parameter
/// that does. `near` serves as the broad-phase approach distance.
pub fn ray_aabb_intersection(ray: &Ray, aabb: &Aabb) -> (r: Option<Ratio>)
    requires
        ray.wf(),
        aabb_wf(*aabb),
    ensures
        match r {
            None => forall|tn: int, td: int|
                td > 0 && tn >= 0 ==> !ray_reaches_box(*ray, *aabb, tn, td),
            Some(near) => {
                &&& near.wf()
                &&& near.cmp_bounded()
                &&& near.num >= 0
                &&& ray_reaches_box(*ray, *aabb, near@.0, near@.1)
                &&& forall|tn: int, td: int|
                    td > 0 && tn >= 0 && ray_reaches_box(*ray, *aabb, tn, td) ==> rat_le(
                        near@,
                        (tn, td),
                    )
            },
        },
{
    let lo0 = Ratio::new(0, 1);
    let hi0: Option<Ratio> = None;
    let step1 = match axis_clip(lo0, hi0, ray.origin.x, ray.direction.x, ray.den, aabb.min.x, aabb.max.x) {
        None => {
            proof {
                assert forall|tn: int, td: int| td > 0 && tn >= 0 implies !ray_reaches_box(
                    *ray,
                    *aabb,
                    tn,
                    td,
                ) by {
                    assert(in_ival(lo0@, spec_hi(hi0), tn, td));
                }
            }
            return None;
        },
        Some(s) => s,
    };
    let step2 = match axis_clip(
        step1.0,
        step1.1,
        ray.origin.y,
        ray.direction.y,
        ray.den,
        aabb.min.y,
        aabb.max.y,
    ) {
        None => {
            proof {
                assert forall|tn: int, td: int| td > 0 && tn >= 0 implies !ray_reaches_box(
                    *ray,
                    *aabb,
                    tn,
                    td,
                ) by {
                    if ray_reaches_box(*ray, *aabb, tn, td) {
                        assert(in_ival(lo0@, spec_hi(hi0), tn, td));
                        assert(in_ival(step1.0@, spec_hi(step1.1), tn, td));
                    }
                }
            }
            return None;
        },
        Some(s) => s,
    };
    let step3 = match axis_clip(
        step2.0,
        step2.1,
        ray.origin.z,
        ray.direction.z,
        ray.den,
        aabb.min.z,
        aabb.max.z,
    ) {
        None => {
            proof {
                assert forall|tn: int, td: int| td > 0 && tn >= 0 implies !ray_reaches_box(
                    *ray,
                    *aabb,
                    tn,
                    td,
                ) by {
                    if ray_reaches_box(*ray, *aabb, tn, td) {
                        assert(in_ival(lo0@, spec_hi(hi0), tn, td));
                        assert(in_ival(step1.0@, spec_hi(step1.1), tn, td));
                        assert(in_ival(step2.0@, spec_hi(step2.1), tn, td));
                    }
                }
            }
            return None;
        },
        Some(s) => s,
    };
    proof {
        assert forall|tn: int, td: int|
            td > 0 && tn >= 0 && ray_reaches_box(*ray, *aabb, tn, td) implies rat_le(
            step3.0@,
            (tn, td),
        ) by {
            assert(in_ival(lo0@, spec_hi(hi0), tn, td));
            assert(in_ival(step1.0@, spec_hi(step1.1), tn, td));
            assert(in_ival(step2.0@, spec_hi(step2.1), tn, td));
            assert(in_ival(step3.0@, spec_hi(step3.1), tn, td));
        }
        // the least member itself reaches the box: it lies in every output
        // interval, hence satisfies every axis
        let tn = step3.0@.0;
        let td = step3.0@.1;
        assert(in_ival(step3.0@, spec_hi(step3.1), tn, td));
        assert(in_ival(step2.0@, spec_hi(step2.1), tn, td)) by {
            match step2.1 {
                Some(h2) => {
                    crate::math::lemma_rat_le_trans((tn, td), spec_hi(step3.1).unwrap(), h2@);
                },
                None => {},
            }
        }
        assert(in_ival(step1.0@, spec_hi(step1.1), tn, td)) by {
            crate::math::lemma_rat_le_trans(step1.0@, step2.0@, (tn, td));
            match step1.1 {
                Some(h1) => {
                    crate::math::lemma_rat_le_trans((tn, td), spec_hi(step2.1).unwrap(), h1@);
                },
                None => {},
            }
        }
        assert(ray_reaches_box(*ray, *aabb, tn, td));
    }
    Some(step3.0)
}

} // verus!
