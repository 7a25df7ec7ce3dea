//! World-space ray casting over meshes: conversion of mesh-space hits to
//! world space, and the brute-force query that scans every triangle.

use vstd::prelude::*;

use crate::bvh::{nearest_hit_index, nearest_hit_post, scan_candidates, tri_hits};
use crate::common::{
    extracted_triangles, get_triangles, normals_view, tris_wf, MeshData, PrimitiveTopology,
};
use crate::intersections::{
    bnd_det, bnd_tn, bnd_un, bnd_vn, bnd_wdet, lemma_bnd_values, lemma_mt_bounds, mesh_hit_spec,
    mt_det, mt_tn, mt_un, mt_vn, sgn, Backfaces, Ray, RayMeshHit, RAY_NUM_LIMIT,
};
use crate::math::{bounded3, lemma_mul_bound, lemma_sgn_mul, rat_le, ratio_le, Ratio, Vec3i};
use crate::sorting::{srcs_has, srcs_prefix_has, within_bound};
use crate::transform::{
    det3, fwd_point, fwd_point_num, fwd_vector, fwd_vec_num, mesh_ray_spec, world_to_mesh_ray,
    AffineMap, HIT_DEN_LIMIT, HIT_NUM_LIMIT,
};
use crate::triangle::Triangle;
use crate::COORD_LIMIT;

verus! {

/// Numeric bounds that every mesh-space hit record satisfies; what the
/// world conversion needs to multiply safely.
pub open spec fn hit_bounded(h: RayMeshHit) -> bool {
    &&& bounded3(h.point.num@, HIT_NUM_LIMIT as int)
    &&& 0 < h.point.den <= HIT_DEN_LIMIT
    &&& bounded3(h.normal.num@, HIT_NUM_LIMIT as int)
    &&& 0 < h.normal.den <= HIT_DEN_LIMIT
    &&& match h.triangle {
        Some(tv) => {
            &&& bounded3(tv[0].num@, HIT_NUM_LIMIT as int)
            &&& bounded3(tv[1].num@, HIT_NUM_LIMIT as int)
            &&& bounded3(tv[2].num@, HIT_NUM_LIMIT as int)
            &&& 0 < tv[0].den <= HIT_DEN_LIMIT
            &&& 0 < tv[1].den <= HIT_DEN_LIMIT
            &&& 0 < tv[2].den <= HIT_DEN_LIMIT
        },
        None => true,
    }
}

/// A well-formed mesh-space hit stays within the world conversion's bounds.
pub proof fn lemma_mesh_hit_bounds(
    r: Ray,
    v0: Vec3i,
    v1: Vec3i,
    v2: Vec3i,
    ns: Option<[Vec3i; 3]>,
    h: RayMeshHit,
)
    requires
        r.wf(),
        bounded3(v0@, COORD_LIMIT as int),
        bounded3(v1@, COORD_LIMIT as int),
        bounded3(v2@, COORD_LIMIT as int),
        match ns {
            Some(n) => bounded3(n[0]@, COORD_LIMIT as int) && bounded3(n[1]@, COORD_LIMIT as int)
                && bounded3(n[2]@, COORD_LIMIT as int),
            None => true,
        },
        mesh_hit_spec(r, v0, v1, v2, ns, h),
    ensures
        hit_bounded(h),
{
    lemma_bnd_values();
    lemma_mt_bounds(r, v0, v1, v2);
    let det = mt_det(r, v0, v1, v2);
    let s = sgn(det);
    lemma_sgn_mul(s, det);
    lemma_sgn_mul(s, mt_tn(r, v0, v1, v2));
    lemma_sgn_mul(s, mt_un(r, v0, v1, v2));
    lemma_sgn_mul(s, mt_vn(r, v0, v1, v2));
    let sdet = s * det;
    let stn = s * mt_tn(r, v0, v1, v2);
    let su = s * mt_un(r, v0, v1, v2);
    let sv = s * mt_vn(r, v0, v1, v2);
    lemma_mul_bound(sdet, r.origin@.0, bnd_det(), RAY_NUM_LIMIT as int);
    lemma_mul_bound(sdet, r.origin@.1, bnd_det(), RAY_NUM_LIMIT as int);
    lemma_mul_bound(sdet, r.origin@.2, bnd_det(), RAY_NUM_LIMIT as int);
    lemma_mul_bound(stn, r.direction@.0, bnd_tn(), RAY_NUM_LIMIT as int);
    lemma_mul_bound(stn, r.direction@.1, bnd_tn(), RAY_NUM_LIMIT as int);
    lemma_mul_bound(stn, r.direction@.2, bnd_tn(), RAY_NUM_LIMIT as int);
    match ns {
        Some(n) => {
            let wrem = (r.den as int) * sdet - su - sv;
            lemma_mul_bound(su, n[1]@.0, bnd_un(), COORD_LIMIT as int);
            lemma_mul_bound(su, n[1]@.1, bnd_un(), COORD_LIMIT as int);
            lemma_mul_bound(su, n[1]@.2, bnd_un(), COORD_LIMIT as int);
            lemma_mul_bound(sv, n[2]@.0, bnd_vn(), COORD_LIMIT as int);
            lemma_mul_bound(sv, n[2]@.1, bnd_vn(), COORD_LIMIT as int);
            lemma_mul_bound(sv, n[2]@.2, bnd_vn(), COORD_LIMIT as int);
            lemma_mul_bound(wrem, n[0]@.0, bnd_wdet() + bnd_un() + bnd_vn(), COORD_LIMIT as int);
            lemma_mul_bound(wrem, n[0]@.1, bnd_wdet() + bnd_un() + bnd_vn(), COORD_LIMIT as int);
            lemma_mul_bound(wrem, n[0]@.2, bnd_wdet() + bnd_un() + bnd_vn(), COORD_LIMIT as int);
        },
        None => {
            crate::math::lemma_cross_bound(
                crate::intersections::mt_e1(v0, v1),
                crate::intersections::mt_e2(v0, v2),
                crate::intersections::bnd_e(),
                crate::intersections::bnd_e(),
            );
        },
    }
}

/// What the world form of a mesh-space hit holds, field by field: point and
/// normal carried through the forward placement, distance parameter and
/// barycentric weights unchanged, triangle vertices transformed.
pub open spec fn world_of_mesh_hit(t: AffineMap, mh: RayMeshHit, h: RayMeshHit) -> bool {
    &&& h.point.num@.0 == fwd_point_num(t, mh.point.num@, mh.point.den as int, 0)
    &&& h.point.num@.1 == fwd_point_num(t, mh.point.num@, mh.point.den as int, 1)
    &&& h.point.num@.2 == fwd_point_num(t, mh.point.num@, mh.point.den as int, 2)
    &&& h.point.den == (t.den as int) * (mh.point.den as int)
    &&& h.normal.num@.0 == fwd_vec_num(t, mh.normal.num@, 0)
    &&& h.normal.num@.1 == fwd_vec_num(t, mh.normal.num@, 1)
    &&& h.normal.num@.2 == fwd_vec_num(t, mh.normal.num@, 2)
    &&& h.normal.den == (t.den as int) * (mh.normal.den as int)
    &&& h.barycentric_coords == mh.barycentric_coords
    &&& h.distance == mh.distance
    &&& h.triangle_index == mh.triangle_index
    &&& match mh.triangle {
        Some(tv) => match h.triangle {
            Some(wv) => {
                &&& wv[0].num@.0 == fwd_point_num(t, tv[0].num@, tv[0].den as int, 0)
                &&& wv[0].num@.1 == fwd_point_num(t, tv[0].num@, tv[0].den as int, 1)
                &&& wv[0].num@.2 == fwd_point_num(t, tv[0].num@, tv[0].den as int, 2)
                &&& wv[1].num@.0 == fwd_point_num(t, tv[1].num@, tv[1].den as int, 0)
                &&& wv[1].num@.1 == fwd_point_num(t, tv[1].num@, tv[1].den as int, 1)
                &&& wv[1].num@.2 == fwd_point_num(t, tv[1].num@, tv[1].den as int, 2)
                &&& wv[2].num@.0 == fwd_point_num(t, tv[2].num@, tv[2].den as int, 0)
                &&& wv[2].num@.1 == fwd_point_num(t, tv[2].num@, tv[2].den as int, 1)
                &&& wv[2].num@.2 == fwd_point_num(t, tv[2].num@, tv[2].den as int, 2)
            },
            None => false,
        },
        None => h.triangle.is_none(),
    }
}

/// Convert a mesh-space hit to world space through the forward placement.
pub fn world_hit(t: &AffineMap, mh: &RayMeshHit) -> (r: RayMeshHit)
    requires
        t.wf(),
        mh.point.wf(),
        mh.normal.wf(),
        hit_bounded(*mh),
    ensures
        world_of_mesh_hit(*t, *mh, r),
{
    let point = fwd_point(t, &mh.point);
    let normal = fwd_vector(t, &mh.normal);
    let triangle = match &mh.triangle {
        Some(tv) => Some([fwd_point(t, &tv[0]), fwd_point(t, &tv[1]), fwd_point(t, &tv[2])]),
        None => None,
    };
    RayMeshHit {
        point,
        normal,
        barycentric_coords: mh.barycentric_coords,
        distance: mh.distance,
        triangle,
        triangle_index: mh.triangle_index,
    }
}

/// The triangle list a mesh stands for: empty unless it is a triangle list
/// with position data.
pub open spec fn mesh_triangles(mesh: MeshData) -> Seq<Triangle> {
    match mesh.positions {
        None => Seq::empty(),
        Some(ps) => if mesh.topology == PrimitiveTopology::TriangleList {
            extracted_triangles(ps@, match mesh.normals {
                Some(ns) => Some(ns@),
                None => None,
            }, mesh.indices)
        } else {
            Seq::empty()
        },
    }
}

/// The full contract of a world-space mesh query: no hit when the placement
/// is degenerate; otherwise exactly the world form of the nearest mesh-space
/// hit of the given triangle list, or no hit when no triangle is struck.
pub open spec fn world_query_post(
    t: AffineMap,
    tris: Seq<Triangle>,
    wray: Ray,
    culling: Backfaces,
    res: Option<RayMeshHit>,
) -> bool {
    if det3(t) == 0 {
        res.is_none()
    } else {
        let mr = mesh_ray_spec(t, wray);
        match nearest_hit_index(tris, mr, culling) {
            None => res.is_none(),
            Some(j) => match res {
                Some(h) => exists|mh: RayMeshHit|
                    {
                        &&& #[trigger] mesh_hit_spec(
                            mr,
                            tris[j].positions[0],
                            tris[j].positions[1],
                            tris[j].positions[2],
                            tris[j].normals,
                            mh,
                        )
                        &&& mh.triangle_index == Some(tris[j].triangle_index)
                        &&& world_of_mesh_hit(t, mh, h)
                    },
                None => false,
            },
        }
    }
}

/// Nearest hit of a triangle list against a mesh-space ray: scans every
/// triangle in order under a shrinking bound.
pub fn mesh_nearest(tris: &Vec<Triangle>, mray: &Ray, culling: Backfaces) -> (r: Option<RayMeshHit>)
    requires
        tris_wf(tris@),
        mray.wf(),
    ensures
        nearest_hit_post(tris@, *mray, culling, r),
{
    let mut idxs: Vec<usize> = Vec::new();
    let mut i: usize = 0;
    while i < tris.len()
        invariant
            0 <= i <= tris@.len(),
            idxs@.len() == i,
            forall|k: int| 0 <= k < idxs@.len() ==> (#[trigger] idxs@[k]) as int == k,
        decreases tris@.len() - i,
    {
        idxs.push(i);
        i = i + 1;
    }
    proof {
        assert forall|i2: int|
            0 <= i2 < tris@.len() && tri_hits(#[trigger] tris@[i2], *mray, culling) implies crate::bvh::contains_idx(
            idxs@,
            i2,
        ) by {
            assert(idxs@[i2] as int == i2);
        }
        crate::bvh::lemma_scan_subset(tris@, *mray, culling, idxs@, tris@.len() as int);
    }
    scan_candidates(tris, &idxs, mray, culling)
}

/// Finish a world query: convert the nearest mesh-space hit, if any, into
/// world space.
pub fn finish_world_query(
    t: &AffineMap,
    tris: &Vec<Triangle>,
    Ghost(mr): Ghost<Ray>,
    culling: Backfaces,
    mh: Option<RayMeshHit>,
) -> (r: Option<RayMeshHit>)
    requires
        t.wf(),
        tris_wf(tris@),
        mr.wf(),
        det3(*t) != 0,
        nearest_hit_post(tris@, mr, culling, mh),
    ensures
        match nearest_hit_index(tris@, mr, culling) {
            None => r.is_none(),
            Some(j) => match r {
                Some(h) => exists|m: RayMeshHit|
                    {
                        &&& #[trigger] mesh_hit_spec(
                            mr,
                            tris@[j].positions[0],
                            tris@[j].positions[1],
                            tris@[j].positions[2],
                            tris@[j].normals,
                            m,
                        )
                        &&& m.triangle_index == Some(tris@[j].triangle_index)
                        &&& world_of_mesh_hit(*t, m, h)
                    },
                None => false,
            },
        },
{
    match mh {
        None => None,
        Some(h) => {
            proof {
                crate::bvh::lemma_scan_best_range(tris@, mr, culling, tris@.len() as int);
                let j = nearest_hit_index(tris@, mr, culling).unwrap();
                assert(tris@[j].wf());
                lemma_mesh_hit_bounds(
                    mr,
                    tris@[j].positions[0],
                    tris@[j].positions[1],
                    tris@[j].positions[2],
                    tris@[j].normals,
                    h,
                );
            }
            let w = world_hit(t, &h);
            proof {
                let j = nearest_hit_index(tris@, mr, culling).unwrap();
                assert(mesh_hit_spec(
                    mr,
                    tris@[j].positions[0],
                    tris@[j].positions[1],
                    tris@[j].positions[2],
                    tris@[j].normals,
                    h,
                ) && h.triangle_index == Some(tris@[j].triangle_index) && world_of_mesh_hit(
                    *t,
                    h,
                    w,
                ));
            }
            Some(w)
        },
    }
}

/// Casts a ray on a mesh by scanning every extracted triangle, and returns
/// the nearest intersection in world space.
pub fn ray_intersection_over_mesh(
    mesh: &MeshData,
    transform: &AffineMap,
    ray: Ray,
    culling: Backfaces,
) -> (r: Option<RayMeshHit>)
    requires
        mesh.wf(),
        transform.wf(),
        ray.world_wf(),
    ensures
        world_query_post(*transform, mesh_triangles(*mesh), ray, culling, r),
{
    match mesh.topology {
        PrimitiveTopology::TriangleList => {},
        PrimitiveTopology::Other => {
            proof {
                broadcast use vstd::seq_lib::group_seq_properties;

            }
            return None;
        },
    }
    let positions = match &mesh.positions {
        Some(ps) => ps,
        None => {
            return None;
        },
    };
    let normals = match &mesh.normals {
        Some(ns) => Some(ns),
        None => None,
    };
    let indices = match &mesh.indices {
        Some(ix) => Some(ix),
        None => None,
    };
    let tris = get_triangles(positions, normals, indices);
    proof {
        crate::common::lemma_extracted_wf(positions@, normals_view(normals), match indices {
            Some(ix) => Some(*ix),
            None => None,
        });
    }
    let mray = match world_to_mesh_ray(transform, &ray) {
        None => {
            return None;
        },
        Some(mr) => mr,
    };
    let mh = mesh_nearest(&tris, &mray, culling);
    finish_world_query(transform, &tris, Ghost(mray), culling, mh)
}

/// Casts a ray on a mesh through its cached acceleration structure, and
/// returns the nearest intersection in world space: exactly the hit that
/// the brute-force scan of the same triangle list reports.
pub fn ray_intersection_over_mesh_using_bvh_cache(
    transform: &AffineMap,
    ray: Ray,
    culling: Backfaces,
    bvh_cache: &crate::bvh::BvhCache,
) -> (r: Option<RayMeshHit>)
    requires
        transform.wf(),
        ray.world_wf(),
        bvh_cache.wf(),
    ensures
        world_query_post(*transform, bvh_cache.triangles@, ray, culling, r),
{
    let mray = match world_to_mesh_ray(transform, &ray) {
        None => {
            return None;
        },
        Some(mr) => mr,
    };
    let mh = crate::bvh::bvh_nearest(&bvh_cache.bvh, &bvh_cache.triangles, &mray, culling);
    finish_world_query(transform, &bvh_cache.triangles, Ghost(mray), culling, mh)
}

/// Two results that both satisfy the query contract for the same placement,
/// triangle list, ray and policy agree: in particular the accelerated
/// traversal and the brute-force scan find the same nearest hit, and a
/// structure rebuilt from the same triangle list answers identically.
pub proof fn lemma_query_paths_agree(
    t: AffineMap,
    tris: Seq<Triangle>,
    wray: Ray,
    culling: Backfaces,
    r1: Option<RayMeshHit>,
    r2: Option<RayMeshHit>,
)
    requires
        world_query_post(t, tris, wray, culling, r1),
        world_query_post(t, tris, wray, culling, r2),
    ensures
        r1.is_some() == r2.is_some(),
        match (r1, r2) {
            (Some(h1), Some(h2)) => {
                &&& h1.distance@ == h2.distance@
                &&& h1.triangle_index == h2.triangle_index
                &&& h1.point.num@ == h2.point.num@
                &&& h1.point.den == h2.point.den
                &&& h1.normal.num@ == h2.normal.num@
                &&& h1.normal.den == h2.normal.den
                &&& h1.barycentric_coords.0@ == h2.barycentric_coords.0@
                &&& h1.barycentric_coords.1@ == h2.barycentric_coords.1@
                &&& h1.barycentric_coords.2@ == h2.barycentric_coords.2@
            },
            _ => true,
        },
{
}


/// Which objects a scene query may consider, by visibility.
#[derive(Clone, Copy, Debug, PartialEq, Eq, Structural)]
pub enum RayCastVisibility {
    Any,
    Visible,
    VisibleInView,
}

/// Settings of one scene query. The host's filter and early-exit
/// predicates are evaluated per object and handed in on each
/// [`SceneObject`], since they are host callbacks over host state.
#[derive(Clone, Copy, Debug, PartialEq, Eq, Structural)]
pub struct RayCastSettings {
    pub visibility: RayCastVisibility,
}

/// One ray-castable object of the scene, with everything the caster reads:
/// placement, local bounds, mesh triangles, optional cached structures, and
/// the host's per-object predicate results.
pub struct SceneObject {
    pub id: u64,
    pub inherited_visibility: bool,
    pub view_visibility: bool,
    pub aabb: crate::aabb::Aabb,
    pub transform: AffineMap,
    pub triangles: Vec<Triangle>,
    pub bvh_cache: Option<crate::bvh::BvhCache>,
    pub obvhs_bvh2_cache: Option<crate::obvhs::ObvhsBvh2Cache>,
    pub backfaces: Backfaces,
    pub pass_filter: bool,
    pub early_exit: bool,
}

impl SceneObject {
    /// Sound object data: quantised geometry, and the local box bounds every
    /// triangle of every list the object can be queried through.
    pub open spec fn wf(self) -> bool {
        &&& crate::aabb::aabb_wf(self.aabb)
        &&& self.transform.wf()
        &&& tris_wf(self.triangles@)
        &&& forall|i: int|
            0 <= i < self.triangles@.len() ==> crate::aabb::tri_in_aabb(
                self.aabb,
                #[trigger] self.triangles@[i],
            )
        &&& match self.bvh_cache {
            Some(c) => c.wf() && forall|i: int|
                0 <= i < c.triangles@.len() ==> crate::aabb::tri_in_aabb(
                    self.aabb,
                    #[trigger] c.triangles@[i],
                ),
            None => true,
        }
        &&& match self.obvhs_bvh2_cache {
            Some(c) => c.wf() && forall|i: int|
                0 <= i < c.triangles@.len() ==> crate::aabb::tri_in_aabb(
                    self.aabb,
                    #[trigger] c.triangles@[i],
                ),
            None => true,
        }
    }
}

pub open spec fn all_objects_wf(objects: Seq<SceneObject>) -> bool {
    forall|i: int| 0 <= i < objects.len() ==> (#[trigger] objects[i]).wf()
}

pub open spec fn visible(o: SceneObject, vis: RayCastVisibility) -> bool {
    match vis {
        RayCastVisibility::Any => true,
        RayCastVisibility::Visible => o.inherited_visibility,
        RayCastVisibility::VisibleInView => o.view_visibility,
    }
}

/// An object the narrow phase works on: visible under the mode and passing
/// the host's filter.
pub open spec fn qualifies(o: SceneObject, vis: RayCastVisibility) -> bool {
    o.pass_filter && visible(o, vis)
}

/// The triangle list a query against this object resolves, by backend: the
/// cached structure's own list when one exists, the raw mesh otherwise.
pub open spec fn object_triangles(o: SceneObject, backend: crate::BvhBackend) -> Seq<Triangle> {
    match backend {
        crate::BvhBackend::NoAcceleration => o.triangles@,
        crate::BvhBackend::Bvh => match o.bvh_cache {
            Some(c) => c.triangles@,
            None => o.triangles@,
        },
        crate::BvhBackend::ObvhsBvh2 => match o.obvhs_bvh2_cache {
            Some(c) => c.triangles@,
            None => o.triangles@,
        },
    }
}

/// The distance parameter of the object's nearest hit, if the ray strikes
/// it at all.
pub open spec fn object_nearest_dist(
    o: SceneObject,
    backend: crate::BvhBackend,
    wray: Ray,
) -> Option<(int, int)> {
    if det3(o.transform) == 0 {
        None
    } else {
        let mr = mesh_ray_spec(o.transform, wray);
        let tris = object_triangles(o, backend);
        match nearest_hit_index(tris, mr, o.backfaces) {
            None => None,
            Some(j) => Some(crate::bvh::tri_dist(tris[j], mr)),
        }
    }
}

/// One output entry is the true nearest hit of the named qualifying object.
pub open spec fn entry_from(
    objects: Seq<SceneObject>,
    backend: crate::BvhBackend,
    vis: RayCastVisibility,
    wray: Ray,
    e: (u64, RayMeshHit),
    i: int,
) -> bool {
    &&& 0 <= i < objects.len()
    &&& qualifies(objects[i], vis)
    &&& e.0 == objects[i].id
    &&& e.1.distance.wf()
    &&& world_query_post(
        objects[i].transform,
        object_triangles(objects[i], backend),
        wray,
        objects[i].backfaces,
        Some(e.1),
    )
}

pub open spec fn entry_ok(
    objects: Seq<SceneObject>,
    backend: crate::BvhBackend,
    vis: RayCastVisibility,
    wray: Ray,
    e: (u64, RayMeshHit),
) -> bool {
    exists|i: int| #[trigger] entry_from(objects, backend, vis, wray, e, i)
}

/// No entry is farther than any blocking (early-exit) object's own nearest
/// hit: a blocking surface hides everything behind it.
pub open spec fn below_blocking(
    objects: Seq<SceneObject>,
    backend: crate::BvhBackend,
    vis: RayCastVisibility,
    wray: Ray,
    e: (u64, RayMeshHit),
) -> bool {
    forall|i: int|
        0 <= i < objects.len() && qualifies(#[trigger] objects[i], vis) && objects[i].early_exit
            ==> match object_nearest_dist(objects[i], backend, wray) {
            Some(d) => rat_le(e.1.distance@, d),
            None => true,
        }
}

/// A distance not hidden behind any blocking (early-exit) object: it does
/// not exceed any such object's own nearest hit.
pub open spec fn within_blocking(
    objects: Seq<SceneObject>,
    backend: crate::BvhBackend,
    vis: RayCastVisibility,
    wray: Ray,
    d: (int, int),
) -> bool {
    forall|j: int|
        0 <= j < objects.len() && qualifies(#[trigger] objects[j], vis) && objects[j].early_exit
            ==> match object_nearest_dist(objects[j], backend, wray) {
            Some(dj) => rat_le(d, dj),
            None => true,
        }
}

/// Resolve the backface policy of one scene object from its per-entity
/// flags: faces are culled only for a plain three-dimensional mesh, while a
/// backface marker or a two-dimensional mesh keeps both windings.
pub fn resolve_backfaces(has_backfaces: bool, is_2d: bool) -> (r: Backfaces)
    ensures
        r == if !has_backfaces && !is_2d {
            Backfaces::Cull
        } else {
            Backfaces::Include
        },
{
    if !has_backfaces && !is_2d {
        Backfaces::Cull
    } else {
        Backfaces::Include
    }
}

/// The scene-level ray caster with its reused buffers. `output_srcs` names,
/// position by position, the object index each output entry came from.
pub struct BvhMeshRayCast {
    pub picking_bvh_backend: crate::PickingBvhBackend,
    pub hits: Vec<(Ratio, (u64, RayMeshHit))>,
    pub output: Vec<(u64, RayMeshHit)>,
    pub culled_list: Vec<(Ratio, usize)>,
    pub output_srcs: Ghost<Seq<int>>,
}

pub open spec fn culled_has(s: Seq<(Ratio, usize)>, i: int) -> bool {
    exists|k: int| 0 <= k < s.len() && (#[trigger] s[k]).1 as int == i
}

/// The object index occurs among the first `k` candidates.
pub open spec fn culled_prefix_has(s: Seq<(Ratio, usize)>, k: int, i: int) -> bool {
    exists|k2: int| 0 <= k2 < k && (#[trigger] s[k2]).1 as int == i
}

impl BvhMeshRayCast {
    pub fn new(picking_bvh_backend: crate::PickingBvhBackend) -> (r: Self)
        ensures
            r.picking_bvh_backend == picking_bvh_backend,
    {
        BvhMeshRayCast {
            picking_bvh_backend,
            hits: Vec::new(),
            output: Vec::new(),
            culled_list: Vec::new(),
            output_srcs: Ghost(Seq::empty()),
        }
    }

    /// Casts the ray into the scene. The buffers are cleared on entry, so
    /// `output` afterwards holds exactly this call's hits: one entry for
    /// each visible, filter-passing object whose nearest hit is not hidden
    /// behind a blocking object — the entry being that object's true
    /// nearest hit — sorted by distance ascending, with `output_srcs`
    /// naming each entry's object and no object contributing twice.
    #[verifier::rlimit(100)]
    pub fn cast_ray(&mut self, ray: Ray, settings: &RayCastSettings, objects: &Vec<SceneObject>)
        requires
            ray.world_wf(),
            all_objects_wf(objects@),
        ensures
            final(self).picking_bvh_backend == old(self).picking_bvh_backend,
            final(self).output_srcs@.len() == final(self).output@.len(),
            forall|k: int|
                0 <= k < final(self).output@.len() ==> entry_from(
                    objects@,
                    old(self).picking_bvh_backend.backend,
                    settings.visibility,
                    ray,
                    #[trigger] final(self).output@[k],
                    final(self).output_srcs@[k],
                ),
            forall|k1: int, k2: int|
                0 <= k1 < k2 < final(self).output_srcs@.len() ==> final(self).output_srcs@[k1]
                    != final(self).output_srcs@[k2],
            forall|i: int|
                0 <= i < objects@.len() && qualifies(#[trigger] objects@[i], settings.visibility)
                    ==> match object_nearest_dist(
                    objects@[i],
                    old(self).picking_bvh_backend.backend,
                    ray,
                ) {
                    Some(d) => within_blocking(
                        objects@,
                        old(self).picking_bvh_backend.backend,
                        settings.visibility,
                        ray,
                        d,
                    ) ==> srcs_has(final(self).output_srcs@, i),
                    None => true,
                },
            forall|k: int|
                0 <= k < final(self).output@.len() ==> entry_ok(
                    objects@,
                    old(self).picking_bvh_backend.backend,
                    settings.visibility,
                    ray,
                    #[trigger] final(self).output@[k],
                ),
            forall|k: int|
                0 <= k < final(self).output@.len() ==> below_blocking(
                    objects@,
                    old(self).picking_bvh_backend.backend,
                    settings.visibility,
                    ray,
                    #[trigger] final(self).output@[k],
                ),
            forall|k1: int, k2: int|
                0 <= k1 < k2 < final(self).output@.len() ==> rat_le(
                    final(self).output@[k1].1.distance@,
                    final(self).output@[k2].1.distance@,
                ),
    {
        let backend = self.picking_bvh_backend.backend;
        let vis = settings.visibility;
        self.hits.clear();
        self.culled_list.clear();
        self.output.clear();

        // Broad phase: keep every visible object whose local bounds the ray
        // reaches; an object pruned here provably has no hit. The approach
        // distance is recorded for the host; with every candidate fully
        // scanned, the result does not depend on candidate order.
        let mut i: usize = 0;
        while i < objects.len()
            invariant
                ray.world_wf(),
                all_objects_wf(objects@),
                self.picking_bvh_backend == old(self).picking_bvh_backend,
                0 <= i <= objects@.len(),
                self.hits@.len() == 0,
                forall|k: int|
                    0 <= k < self.culled_list@.len() ==> (#[trigger] self.culled_list@[k]).1
                        < objects@.len() && visible(
                        objects@[self.culled_list@[k].1 as int],
                        vis,
                    ),
                forall|k: int|
                    0 <= k < self.culled_list@.len() ==> (#[trigger] self.culled_list@[k]).0.wf()
                        && self.culled_list@[k].0.cmp_bounded(),
                forall|k: int|
                    0 <= k < self.culled_list@.len() ==> ((#[trigger] self.culled_list@[k]).1
                        as int) < i as int,
                forall|k1: int, k2: int|
                    0 <= k1 < k2 < self.culled_list@.len() ==> self.culled_list@[k1].1
                        != self.culled_list@[k2].1,
                forall|i2: int|
                    0 <= i2 < i && visible(#[trigger] objects@[i2], vis) && object_nearest_dist(
                        objects@[i2],
                        backend,
                        ray,
                    ).is_some() ==> culled_has(self.culled_list@, i2),
            decreases objects@.len() - i,
        {
            let o = &objects[i];
            let vis_ok = match vis {
                RayCastVisibility::Any => true,
                RayCastVisibility::Visible => o.inherited_visibility,
                RayCastVisibility::VisibleInView => o.view_visibility,
            };
            if vis_ok {
                match world_to_mesh_ray(&o.transform, &ray) {
                    None => {},
                    Some(mr) => {
                        match crate::aabb::ray_aabb_intersection(&mr, &o.aabb) {
                            None => {
                                proof {
                                    lemma_pruned_object_misses(
                                        objects@[i as int],
                                        backend,
                                        ray,
                                        mr,
                                    );
                                }
                            },
                            Some(near) => {
                                let ghost old_culled = self.culled_list@;
                                self.culled_list.push((near, i));
                                proof {
                                    assert(self.culled_list@[self.culled_list@.len() - 1].1 as int
                                        == i as int);
                                    assert forall|i2: int|
                                        culled_has(old_culled, i2) implies culled_has(
                                        self.culled_list@,
                                        i2,
                                    ) by {
                                        let kk = choose|kk: int|
                                            0 <= kk < old_culled.len() && (#[trigger] old_culled[kk]).1
                                                as int == i2;
                                        assert(self.culled_list@[kk].1 as int == i2);
                                    }
                                    assert(culled_has(self.culled_list@, i as int));
                                }
                            },
                        }
                    },
                }
            }
            i = i + 1;
        }

        // Order the candidates by approach distance before the narrow
        // phase; every candidate is still scanned, so this fixes the walk
        // order without affecting which hits are found.
        let ghost pre_sort = self.culled_list@;
        crate::sorting::sort_culled(&mut self.culled_list);
        proof {
            assert forall|k: int|
                0 <= k < self.culled_list@.len() implies (#[trigger] self.culled_list@[k]).1
                < objects@.len() && visible(objects@[self.culled_list@[k].1 as int], vis) by {
                assert(crate::sorting::in_prefix(
                    pre_sort,
                    pre_sort.len() as int,
                    self.culled_list@[k],
                ));
                let j = choose|j: int|
                    0 <= j < pre_sort.len() && pre_sort[j] == self.culled_list@[k];
                assert(pre_sort[j].1 < objects@.len());
            }
            assert forall|i2: int|
                0 <= i2 < objects@.len() && visible(#[trigger] objects@[i2], vis)
                    && object_nearest_dist(objects@[i2], backend, ray).is_some() implies culled_has(
                self.culled_list@,
                i2,
            ) by {
                assert(culled_has(pre_sort, i2));
                let j = choose|j: int|
                    0 <= j < pre_sort.len() && (#[trigger] pre_sort[j]).1 as int == i2;
                assert(crate::sorting::appears(self.culled_list@, pre_sort[j]));
                let k = choose|k: int|
                    0 <= k < self.culled_list@.len() && self.culled_list@[k] == pre_sort[j];
                assert(self.culled_list@[k].1 as int == i2);
            }
        }

        // Narrow phase: resolve each candidate's nearest hit through the
        // selected backend, recording blocking hits' minimum distance.
        // `hsrcs` names the object index behind each recorded hit.
        let ghost mut hsrcs: Seq<int> = Seq::empty();
        let mut nearest_blocking: Option<Ratio> = None;
        let mut k: usize = 0;
        while k < self.culled_list.len()
            invariant
                ray.world_wf(),
                all_objects_wf(objects@),
                self.picking_bvh_backend == old(self).picking_bvh_backend,
                0 <= k <= self.culled_list@.len(),
                forall|m: int|
                    0 <= m < self.culled_list@.len() ==> (#[trigger] self.culled_list@[m]).1
                        < objects@.len() && visible(
                        objects@[self.culled_list@[m].1 as int],
                        vis,
                    ),
                forall|k1: int, k2: int|
                    0 <= k1 < k2 < self.culled_list@.len() ==> self.culled_list@[k1].1
                        != self.culled_list@[k2].1,
                forall|i2: int|
                    0 <= i2 < objects@.len() && visible(#[trigger] objects@[i2], vis)
                        && object_nearest_dist(objects@[i2], backend, ray).is_some()
                        ==> culled_has(self.culled_list@, i2),
                hsrcs.len() == self.hits@.len(),
                forall|m: int|
                    0 <= m < self.hits@.len() ==> entry_from(
                        objects@,
                        backend,
                        vis,
                        ray,
                        (#[trigger] self.hits@[m]).1,
                        hsrcs[m],
                    ),
                forall|m: int|
                    0 <= m < self.hits@.len() ==> object_nearest_dist(
                        objects@[hsrcs[m]],
                        backend,
                        ray,
                    ) == Some((#[trigger] self.hits@[m]).0@),
                forall|m: int|
                    0 <= m < hsrcs.len() ==> culled_prefix_has(
                        self.culled_list@,
                        k as int,
                        #[trigger] hsrcs[m],
                    ),
                forall|m1: int, m2: int| 0 <= m1 < m2 < hsrcs.len() ==> hsrcs[m1] != hsrcs[m2],
                forall|k2: int|
                    0 <= k2 < k && qualifies(
                        objects@[(#[trigger] self.culled_list@[k2]).1 as int],
                        vis,
                    ) && object_nearest_dist(
                        objects@[self.culled_list@[k2].1 as int],
                        backend,
                        ray,
                    ).is_some() ==> srcs_has(hsrcs, self.culled_list@[k2].1 as int),
                forall|m: int|
                    0 <= m < self.hits@.len() ==> (#[trigger] self.hits@[m]).0
                        == self.hits@[m].1.1.distance && self.hits@[m].0.wf()
                        && self.hits@[m].0.cmp_bounded(),
                match nearest_blocking {
                    Some(b) => b.wf() && b.cmp_bounded() && exists|j: int|
                        0 <= j < objects@.len() && qualifies(#[trigger] objects@[j], vis)
                            && objects@[j].early_exit && object_nearest_dist(
                            objects@[j],
                            backend,
                            ray,
                        ) == Some(b@),
                    None => true,
                },
                forall|m: int|
                    0 <= m < k && qualifies(
                        #[trigger] objects@[self.culled_list@[m].1 as int],
                        vis,
                    ) && objects@[self.culled_list@[m].1 as int].early_exit ==> match object_nearest_dist(
                        objects@[self.culled_list@[m].1 as int],
                        backend,
                        ray,
                    ) {
                        Some(d) => nearest_blocking.is_some() && rat_le(
                            nearest_blocking.unwrap()@,
                            d,
                        ),
                        None => true,
                    },
            decreases self.culled_list@.len() - k,
        {
            let idx = self.culled_list[k].1;
            let o = &objects[idx];
            if o.pass_filter {
                let res: Option<RayMeshHit> = match backend {
                    crate::BvhBackend::NoAcceleration => scan_object_raw(o, ray),
                    crate::BvhBackend::Bvh => match &o.bvh_cache {
                        Some(c) => ray_intersection_over_mesh_using_bvh_cache(
                            &o.transform,
                            ray,
                            o.backfaces,
                            c,
                        ),
                        None => scan_object_raw(o, ray),
                    },
                    crate::BvhBackend::ObvhsBvh2 => match &o.obvhs_bvh2_cache {
                        Some(c) => crate::obvhs::ray_intersection_over_mesh_using_obvhs_bvh2_cache(
                            &o.transform,
                            ray,
                            o.backfaces,
                            c,
                        ),
                        None => scan_object_raw(o, ray),
                    },
                };
                proof {
                    assert(world_query_post(
                        objects@[idx as int].transform,
                        object_triangles(objects@[idx as int], backend),
                        ray,
                        objects@[idx as int].backfaces,
                        res,
                    ));
                }
                match res {
                    Some(hit) => {
                        proof {
                            lemma_result_distance(objects@[idx as int], backend, ray, hit);
                        }
                        if o.early_exit {
                            let nb = match &nearest_blocking {
                                None => hit.distance,
                                Some(b) => {
                                    if ratio_le(&hit.distance, b) {
                                        hit.distance
                                    } else {
                                        *b
                                    }
                                },
                            };
                            proof {
                                if nearest_blocking.is_some() {
                                    crate::math::lemma_rat_le_total(
                                        hit.distance@,
                                        nearest_blocking.unwrap()@,
                                    );
                                }
                                assert forall|m: int|
                                    0 <= m < k + 1 && qualifies(
                                        #[trigger] objects@[self.culled_list@[m].1 as int],
                                        vis,
                                    ) && objects@[self.culled_list@[m].1 as int].early_exit implies match object_nearest_dist(
                                    objects@[self.culled_list@[m].1 as int],
                                    backend,
                                    ray,
                                ) {
                                    Some(d) => Some(nb).is_some() && rat_le(nb@, d),
                                    None => true,
                                } by {
                                    let oi = objects@[self.culled_list@[m].1 as int];
                                    lemma_nearest_dist_pos(oi, backend, ray);
                                    match object_nearest_dist(oi, backend, ray) {
                                        Some(d) => {
                                            if m < k {
                                                crate::math::lemma_rat_le_trans(
                                                    nb@,
                                                    nearest_blocking.unwrap()@,
                                                    d,
                                                );
                                            }
                                        },
                                        None => {},
                                    }
                                }
                            }
                            proof {
                                if nb == hit.distance {
                                    assert(qualifies(objects@[idx as int], vis)
                                        && objects@[idx as int].early_exit
                                        && object_nearest_dist(objects@[idx as int], backend, ray)
                                        == Some(nb@));
                                }
                            }
                            nearest_blocking = Some(nb);
                        }
                        let ghost old_hits = self.hits@;
                        let ghost old_hsrcs = hsrcs;
                        self.hits.push((hit.distance, (o.id, hit)));
                        proof {
                            hsrcs = hsrcs.push(idx as int);
                            assert(entry_from(
                                objects@,
                                backend,
                                vis,
                                ray,
                                self.hits@[self.hits@.len() - 1].1,
                                idx as int,
                            ));
                            assert forall|m2: int|
                                0 <= m2 < self.hits@.len() implies entry_from(
                                objects@,
                                backend,
                                vis,
                                ray,
                                (#[trigger] self.hits@[m2]).1,
                                hsrcs[m2],
                            ) && object_nearest_dist(objects@[hsrcs[m2]], backend, ray) == Some(
                                self.hits@[m2].0@,
                            ) by {
                                if m2 < old_hits.len() {
                                    assert(self.hits@[m2] == old_hits[m2]);
                                    assert(hsrcs[m2] == old_hsrcs[m2]);
                                }
                            }
                            assert forall|m2: int|
                                0 <= m2 < hsrcs.len() implies culled_prefix_has(
                                self.culled_list@,
                                k as int + 1,
                                #[trigger] hsrcs[m2],
                            ) by {
                                if m2 < old_hsrcs.len() {
                                    assert(culled_prefix_has(
                                        self.culled_list@,
                                        k as int,
                                        old_hsrcs[m2],
                                    ));
                                    let k2 = choose|k2: int|
                                        0 <= k2 < k && (#[trigger] self.culled_list@[k2]).1
                                            as int == old_hsrcs[m2];
                                    assert((self.culled_list@[k2]).1 as int == hsrcs[m2]);
                                } else {
                                    assert((self.culled_list@[k as int]).1 as int == hsrcs[m2]);
                                }
                            }
                            assert forall|m1: int, m2: int|
                                0 <= m1 < m2 < hsrcs.len() implies hsrcs[m1] != hsrcs[m2] by {
                                if m2 == hsrcs.len() - 1 {
                                    assert(culled_prefix_has(
                                        self.culled_list@,
                                        k as int,
                                        old_hsrcs[m1],
                                    ));
                                    let k2 = choose|k2: int|
                                        0 <= k2 < k && (#[trigger] self.culled_list@[k2]).1
                                            as int == old_hsrcs[m1];
                                    assert(self.culled_list@[k2].1
                                        != self.culled_list@[k as int].1);
                                }
                            }
                            assert forall|k2: int|
                                0 <= k2 < k + 1 && qualifies(
                                    objects@[(#[trigger] self.culled_list@[k2]).1 as int],
                                    vis,
                                ) && object_nearest_dist(
                                    objects@[self.culled_list@[k2].1 as int],
                                    backend,
                                    ray,
                                ).is_some() implies srcs_has(
                                hsrcs,
                                self.culled_list@[k2].1 as int,
                            ) by {
                                if k2 < k {
                                    assert(srcs_has(old_hsrcs, self.culled_list@[k2].1 as int));
                                    let m2 = choose|m2: int|
                                        0 <= m2 < old_hsrcs.len() && (#[trigger] old_hsrcs[m2])
                                            == self.culled_list@[k2].1 as int;
                                    assert(hsrcs[m2] == self.culled_list@[k2].1 as int);
                                } else {
                                    assert(hsrcs[hsrcs.len() - 1] == self.culled_list@[k2].1
                                        as int);
                                }
                            }
                        }
                    },
                    None => {
                        proof {
                            assert(object_nearest_dist(
                                objects@[idx as int],
                                backend,
                                ray,
                            ).is_none());
                        }
                    },
                }
            }
            k = k + 1;
        }

        // A blocking hit discovered late invalidates farther hits collected
        // earlier: keep only hits within the final blocking bound, in
        // distance order.
        let ghost hits_snap = self.hits@;
        let ghost hsrcs_snap = hsrcs;
        let ghost keys_snap = Seq::new(hits_snap.len(), |mm: int| hits_snap[mm].0);
        let ghost culled_snap = self.culled_list@;
        proof {
            assert forall|ii: int|
                0 <= ii < objects@.len() && qualifies(#[trigger] objects@[ii], vis)
                    && objects@[ii].early_exit implies match object_nearest_dist(
                objects@[ii],
                backend,
                ray,
            ) {
                Some(d) => match nearest_blocking {
                    Some(b) => rat_le(b@, d),
                    None => false,
                },
                None => true,
            } by {
                match object_nearest_dist(objects@[ii], backend, ray) {
                    Some(d) => {
                        assert(visible(objects@[ii], vis));
                        assert(culled_has(culled_snap, ii));
                        let m = choose|m: int|
                            0 <= m < culled_snap.len() && (#[trigger] culled_snap[m]).1 as int
                                == ii;
                        assert(qualifies(objects@[culled_snap[m].1 as int], vis));
                    },
                    None => {},
                }
            }
        }
        let mut out: Vec<(u64, RayMeshHit)> = Vec::new();
        let ghost mut osrcs: Seq<int> = Seq::empty();
        let mut m: usize = 0;
        while m < self.hits.len()
            invariant
                self.picking_bvh_backend == old(self).picking_bvh_backend,
                0 <= m <= self.hits@.len(),
                self.hits@ == hits_snap,
                hsrcs_snap.len() == hits_snap.len(),
                forall|mm: int|
                    0 <= mm < hits_snap.len() ==> entry_from(
                        objects@,
                        backend,
                        vis,
                        ray,
                        (#[trigger] hits_snap[mm]).1,
                        hsrcs_snap[mm],
                    ),
                forall|m1: int, m2: int|
                    0 <= m1 < m2 < hsrcs_snap.len() ==> hsrcs_snap[m1] != hsrcs_snap[m2],
                osrcs.len() == out@.len(),
                forall|kk: int|
                    0 <= kk < out@.len() ==> entry_from(
                        objects@,
                        backend,
                        vis,
                        ray,
                        #[trigger] out@[kk],
                        osrcs[kk],
                    ),
                forall|kk: int|
                    0 <= kk < osrcs.len() ==> srcs_prefix_has(
                        hsrcs_snap,
                        m as int,
                        #[trigger] osrcs[kk],
                    ),
                forall|k1: int, k2: int| 0 <= k1 < k2 < osrcs.len() ==> osrcs[k1] != osrcs[k2],
                keys_snap.len() == hits_snap.len(),
                forall|mm: int| 0 <= mm < keys_snap.len() ==> (#[trigger] keys_snap[mm]) == hits_snap[mm].0,
                forall|mm: int|
                    0 <= mm < m && within_bound(nearest_blocking, #[trigger] keys_snap[mm])
                        ==> srcs_has(osrcs, hsrcs_snap[mm]),
                match nearest_blocking {
                    Some(b) => b.wf() && b.cmp_bounded(),
                    None => true,
                },
                forall|mm: int|
                    0 <= mm < hits_snap.len() ==> (#[trigger] hits_snap[mm]).0
                        == hits_snap[mm].1.1.distance && hits_snap[mm].0.wf()
                        && hits_snap[mm].0.cmp_bounded(),
                forall|kk: int|
                    0 <= kk < out@.len() ==> exists|mm: int|
                        0 <= mm < hits_snap.len() && (#[trigger] out@[kk])
                            == hits_snap[mm].1,
                forall|kk: int|
                    0 <= kk < out@.len() ==> match nearest_blocking {
                        Some(b) => rat_le((#[trigger] out@[kk]).1.distance@, b@),
                        None => true,
                    },
                forall|k1: int, k2: int|
                    0 <= k1 < k2 < out@.len() ==> rat_le(
                        out@[k1].1.distance@,
                        out@[k2].1.distance@,
                    ),
                forall|kk: int|
                    0 <= kk < out@.len() ==> (#[trigger] out@[kk]).1.distance.wf()
                        && out@[kk].1.distance.cmp_bounded(),
            decreases self.hits@.len() - m,
        {
            let e = self.hits[m].1;
            let keep = match &nearest_blocking {
                None => true,
                Some(b) => ratio_le(&e.1.distance, b),
            };
            if keep {
                let mut p: usize = 0;
                while p < out.len() && ratio_le(&out[p].1.distance, &e.1.distance)
                    invariant
                        0 <= p <= out@.len(),
                        e.1.distance.wf(),
                        e.1.distance.cmp_bounded(),
                        forall|kk: int|
                            0 <= kk < out@.len() ==> (#[trigger] out@[kk]).1.distance.wf()
                                && out@[kk].1.distance.cmp_bounded(),
                        forall|kk: int| 0 <= kk < p ==> rat_le(
                            (#[trigger] out@[kk]).1.distance@,
                            e.1.distance@,
                        ),
                    decreases out@.len() - p,
                {
                    p = p + 1;
                }
                proof {
                    if p < out@.len() {
                        crate::math::lemma_rat_le_total(
                            out@[p as int].1.distance@,
                            e.1.distance@,
                        );
                        assert(rat_le(e.1.distance@, out@[p as int].1.distance@));
                    }
                }
                let ghost old_out = out@;
                let ghost old_osrcs = osrcs;
                let ghost pp = p as int;
                out.insert(p, e);
                proof {
                    osrcs = Seq::new(
                        (old_osrcs.len() + 1) as nat,
                        |kk: int|
                            if kk < pp {
                                old_osrcs[kk]
                            } else if kk == pp {
                                hsrcs_snap[m as int]
                            } else {
                                old_osrcs[kk - 1]
                            },
                    );
                    assert forall|kk: int| 0 <= kk < out@.len() implies (#[trigger] out@[kk])
                        == if kk < pp {
                        old_out[kk]
                    } else if kk == pp {
                        e
                    } else {
                        old_out[kk - 1]
                    } by {}
                    assert forall|kk: int|
                        0 <= kk < out@.len() implies entry_from(
                        objects@,
                        backend,
                        vis,
                        ray,
                        #[trigger] out@[kk],
                        osrcs[kk],
                    ) by {
                        if kk < pp {
                            assert(out@[kk] == old_out[kk] && osrcs[kk] == old_osrcs[kk]);
                        } else if kk == pp {
                            assert(out@[kk] == hits_snap[m as int].1);
                        } else {
                            assert(out@[kk] == old_out[kk - 1] && osrcs[kk] == old_osrcs[kk - 1]);
                        }
                    }
                    assert(osrcs[pp] == hsrcs_snap[m as int]);
                    crate::sorting::lemma_retain_insert_srcs(
                        hsrcs_snap,
                        keys_snap,
                        old_osrcs,
                        osrcs,
                        nearest_blocking,
                        m as int,
                        pp,
                    );
                    assert forall|k1: int, k2: int|
                        0 <= k1 < k2 < out@.len() implies rat_le(
                        out@[k1].1.distance@,
                        out@[k2].1.distance@,
                    ) by {
                        let d1 = out@[k1].1.distance;
                        let d2 = out@[k2].1.distance;
                        if k2 < pp {
                        } else if k1 < pp && k2 == pp {
                        } else if k1 < pp && k2 > pp {
                            if pp < old_out.len() {
                                if k2 - 1 > pp {
                                    crate::math::lemma_rat_le_trans(
                                        old_out[k1].1.distance@,
                                        old_out[pp].1.distance@,
                                        old_out[k2 - 1].1.distance@,
                                    );
                                }
                            } else {
                            }
                        } else if k1 == pp && k2 > pp {
                            if k2 - 1 > pp {
                                if pp < old_out.len() {
                                    crate::math::lemma_rat_le_trans(
                                        e.1.distance@,
                                        old_out[pp].1.distance@,
                                        old_out[k2 - 1].1.distance@,
                                    );
                                }
                            }
                        } else {
                        }
                    }
                    assert forall|kk: int|
                        0 <= kk < out@.len() implies exists|mm: int|
                        0 <= mm < hits_snap.len() && (#[trigger] out@[kk]) == hits_snap[mm].1 by {
                        if kk < pp {
                            let mm = choose|mm: int|
                                0 <= mm < hits_snap.len() && old_out[kk] == (
                                #[trigger] hits_snap[mm]).1;
                            assert(out@[kk] == hits_snap[mm].1);
                        } else if kk == pp {
                            assert(out@[kk] == hits_snap[m as int].1);
                        } else {
                            let mm = choose|mm: int|
                                0 <= mm < hits_snap.len() && old_out[kk - 1] == (
                                #[trigger] hits_snap[mm]).1;
                            assert(out@[kk] == hits_snap[mm].1);
                        }
                    }
                }
            }
            m = m + 1;
        }
        self.output = out;
        self.output_srcs = Ghost(osrcs);
        proof {
            // completeness: an unhidden qualifying hit always reaches the
            // output, under its own object index
            assert forall|i: int|
                0 <= i < objects@.len() && qualifies(#[trigger] objects@[i], vis) implies match object_nearest_dist(
                objects@[i],
                backend,
                ray,
            ) {
                Some(d) => within_blocking(objects@, backend, vis, ray, d) ==> srcs_has(
                    self.output_srcs@,
                    i,
                ),
                None => true,
            } by {
                match object_nearest_dist(objects@[i], backend, ray) {
                    Some(d) => {
                        if within_blocking(objects@, backend, vis, ray, d) {
                            assert(culled_has(culled_snap, i));
                            let k2 = choose|k2: int|
                                0 <= k2 < culled_snap.len() && (#[trigger] culled_snap[k2]).1
                                    as int == i;
                            assert(srcs_has(hsrcs_snap, culled_snap[k2].1 as int));
                            let mm = choose|mm: int|
                                0 <= mm < hsrcs_snap.len() && (#[trigger] hsrcs_snap[mm])
                                    == culled_snap[k2].1 as int;
                            assert(object_nearest_dist(objects@[i], backend, ray) == Some(
                                hits_snap[mm].0@,
                            ));
                            assert(hits_snap[mm].0@ == d);
                            match nearest_blocking {
                                None => {},
                                Some(b) => {
                                    let j = choose|j: int|
                                        0 <= j < objects@.len() && qualifies(
                                            #[trigger] objects@[j],
                                            vis,
                                        ) && objects@[j].early_exit && object_nearest_dist(
                                            objects@[j],
                                            backend,
                                            ray,
                                        ) == Some(b@);
                                    assert(rat_le(d, b@));
                                },
                            }
                            assert(within_bound(nearest_blocking, keys_snap[mm]));
                            assert(srcs_has(osrcs, hsrcs_snap[mm]));
                            let kk = choose|kk: int|
                                0 <= kk < osrcs.len() && (#[trigger] osrcs[kk]) == hsrcs_snap[mm];
                            assert(self.output_srcs@[kk] == i);
                        }
                    },
                    None => {},
                }
            }
            assert forall|kk: int|
                0 <= kk < self.output@.len() implies entry_ok(
                objects@,
                backend,
                vis,
                ray,
                #[trigger] self.output@[kk],
            ) by {
                let mm = choose|mm: int|
                    0 <= mm < hits_snap.len() && self.output@[kk] == (#[trigger] hits_snap[mm]).1;
                assert(entry_ok(objects@, backend, vis, ray, hits_snap[mm].1));
            }
            assert forall|kk: int|
                0 <= kk < self.output@.len() implies below_blocking(
                objects@,
                backend,
                vis,
                ray,
                #[trigger] self.output@[kk],
            ) by {
                assert forall|ii: int|
                    0 <= ii < objects@.len() && qualifies(#[trigger] objects@[ii], vis)
                        && objects@[ii].early_exit implies match object_nearest_dist(
                    objects@[ii],
                    backend,
                    ray,
                ) {
                    Some(d) => rat_le(self.output@[kk].1.distance@, d),
                    None => true,
                } by {
                    lemma_nearest_dist_pos(objects@[ii], backend, ray);
                    match object_nearest_dist(objects@[ii], backend, ray) {
                        Some(d) => {
                            let b = nearest_blocking.unwrap();
                            crate::math::lemma_rat_le_trans(
                                self.output@[kk].1.distance@,
                                b@,
                                d,
                            );
                        },
                        None => {},
                    }
                }
            }
        }
    }
}


/// The nearest hit of an object against its raw triangle list, without any
/// acceleration structure.
fn scan_object_raw(o: &SceneObject, ray: Ray) -> (r: Option<RayMeshHit>)
    requires
        o.wf(),
        ray.world_wf(),
    ensures
        world_query_post(
            o.transform,
            o.triangles@,
            ray,
            o.backfaces,
            r,
        ),
{
    let mray = match world_to_mesh_ray(&o.transform, &ray) {
        None => {
            return None;
        },
        Some(mr) => mr,
    };
    let mh = mesh_nearest(&o.triangles, &mray, o.backfaces);
    finish_world_query(&o.transform, &o.triangles, Ghost(mray), o.backfaces, mh)
}

/// An object whose bounds the ray provably cannot reach has no hit at all.
proof fn lemma_pruned_object_misses(
    o: SceneObject,
    backend: crate::BvhBackend,
    wray: Ray,
    mr: Ray,
)
    requires
        o.wf(),
        det3(o.transform) != 0,
        mr == mesh_ray_spec(o.transform, wray),
        mr.wf(),
        forall|tn: int, td: int|
            td > 0 && tn >= 0 ==> !crate::aabb::ray_reaches_box(mr, o.aabb, tn, td),
    ensures
        object_nearest_dist(o, backend, wray).is_none(),
{
    let tris = object_triangles(o, backend);
    crate::bvh::lemma_scan_best_range(tris, mr, o.backfaces, tris.len() as int);
    match nearest_hit_index(tris, mr, o.backfaces) {
        None => {},
        Some(j) => {
            let t = tris[j];
            crate::aabb::lemma_hit_reaches_box(
                mr,
                t.positions[0],
                t.positions[1],
                t.positions[2],
                o.backfaces,
                o.aabb,
            );
        },
    }
}

/// A returned object hit carries the distance that the object's nearest-hit
/// fold selects, within comparison bounds.
proof fn lemma_result_distance(
    o: SceneObject,
    backend: crate::BvhBackend,
    wray: Ray,
    hit: RayMeshHit,
)
    requires
        o.wf(),
        wray.world_wf(),
        world_query_post(
            o.transform,
            object_triangles(o, backend),
            wray,
            o.backfaces,
            Some(hit),
        ),
    ensures
        hit.distance.wf(),
        hit.distance.cmp_bounded(),
        object_nearest_dist(o, backend, wray) == Some(hit.distance@),
{
    let tris = object_triangles(o, backend);
    let mr = mesh_ray_spec(o.transform, wray);
    crate::bvh::lemma_scan_best_range(tris, mr, o.backfaces, tris.len() as int);
    let j = nearest_hit_index(tris, mr, o.backfaces).unwrap();
    let mh = choose|mh: RayMeshHit|
        {
            &&& #[trigger] mesh_hit_spec(
                mr,
                tris[j].positions[0],
                tris[j].positions[1],
                tris[j].positions[2],
                tris[j].normals,
                mh,
            )
            &&& mh.triangle_index == Some(tris[j].triangle_index)
            &&& world_of_mesh_hit(o.transform, mh, hit)
        };
    assert(hit.distance == mh.distance);
}

/// A struck object's nearest distance is a rational with a positive
/// denominator.
proof fn lemma_nearest_dist_pos(o: SceneObject, backend: crate::BvhBackend, wray: Ray)
    ensures
        match object_nearest_dist(o, backend, wray) {
            Some(d) => d.1 > 0,
            None => true,
        },
{
    let tris = object_triangles(o, backend);
    if det3(o.transform) != 0 {
        let mr = mesh_ray_spec(o.transform, wray);
        crate::bvh::lemma_scan_best_range(tris, mr, o.backfaces, tris.len() as int);
        match nearest_hit_index(tris, mr, o.backfaces) {
            None => {},
            Some(j) => {
                let t = tris[j];
                let det = mt_det(mr, t.positions[0], t.positions[1], t.positions[2]);
                lemma_sgn_mul(sgn(det), det);
            },
        }
    }
}

} // verus!
