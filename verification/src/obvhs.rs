//! The higher-quality build strategy: declines small meshes in favour of
//! the brute-force fallback, and exposes a single build-effort parameter
//! that trades construction work against tree granularity.

use vstd::prelude::*;

use crate::bvh::{contains_idx, node_wf, BvhNode, RayTraversal};
use crate::common::{tris_wf, MeshData, PrimitiveTopology};
use crate::intersections::{Backfaces, Ray, RayMeshHit};
use crate::ray_cast::{finish_world_query, mesh_triangles, world_query_post};
use crate::transform::{world_to_mesh_ray, AffineMap};
use crate::triangle::Triangle;

verus! {

/// Below this triangle count the quality builder yields no structure and
/// callers use the brute-force fallback.
pub const MIN_QUALITY_TRIANGLES: usize = 64;

/// Build effort of the quality builder: more effort spends more splitting
/// work for finer leaves.
#[derive(Clone, Copy, Debug, PartialEq, Eq, Structural)]
pub struct BvhBuildParams {
    pub leaf_size: usize,
}

impl BvhBuildParams {
    pub open spec fn wf(self) -> bool {
        self.leaf_size >= 1
    }

    pub fn fast_build() -> (r: BvhBuildParams)
        ensures
            r.wf(),
    {
        BvhBuildParams { leaf_size: 8 }
    }

    pub fn medium_build() -> (r: BvhBuildParams)
        ensures
            r.wf(),
    {
        BvhBuildParams { leaf_size: 4 }
    }

    pub fn slow_build() -> (r: BvhBuildParams)
        ensures
            r.wf(),
    {
        BvhBuildParams { leaf_size: 2 }
    }
}

/// A structure of the quality builder, with the triangle list it was built
/// from.
pub struct ObvhsBvh2Cache {
    pub bvh: BvhNode,
    pub triangles: Vec<Triangle>,
}

impl ObvhsBvh2Cache {
    pub open spec fn wf(self) -> bool {
        &&& tris_wf(self.triangles@)
        &&& node_wf(self.bvh, self.triangles@)
        &&& self.bvh.lo == 0
        &&& self.bvh.hi == self.triangles@.len()
    }
}

/// Build the quality structure over a mesh with the given effort; `None`
/// for unusable meshes and for meshes below the minimum triangle count,
/// which is not an error but a cue to use the fallback.
pub fn build_bvh2_cache_with_params(mesh: &MeshData, params: BvhBuildParams) -> (r: Option<
    ObvhsBvh2Cache,
>)
    requires
        mesh.wf(),
        params.wf(),
    ensures
        r.is_some() == (mesh.topology == PrimitiveTopology::TriangleList
            && mesh.positions.is_some() && mesh_triangles(*mesh).len() >= MIN_QUALITY_TRIANGLES),
        match r {
            Some(c) => c.wf() && c.triangles@ == mesh_triangles(*mesh),
            None => true,
        },
{
    let built = crate::bvh::build_cache_with_leaf_size(mesh, params.leaf_size);
    match built {
        None => None,
        Some(c) => {
            if c.triangles.len() < MIN_QUALITY_TRIANGLES {
                None
            } else {
                Some(ObvhsBvh2Cache { bvh: c.bvh, triangles: c.triangles })
            }
        },
    }
}

/// Build the quality structure with the default (medium) effort.
pub fn build_bvh2_cache(mesh: &MeshData) -> (r: Option<ObvhsBvh2Cache>)
    requires
        mesh.wf(),
    ensures
        r.is_some() == (mesh.topology == PrimitiveTopology::TriangleList
            && mesh.positions.is_some() && mesh_triangles(*mesh).len() >= MIN_QUALITY_TRIANGLES),
        match r {
            Some(c) => c.wf() && c.triangles@ == mesh_triangles(*mesh),
            None => true,
        },
{
    build_bvh2_cache_with_params(mesh, BvhBuildParams::medium_build())
}

/// Nearest hit through the quality structure, drawing candidates from the
/// pull-style traversal one at a time and keeping the nearest under a
/// shrinking bound; identical semantics to the generic traversal and to the
/// brute-force scan of the same triangle list.
fn bvh2_nearest(cache: &ObvhsBvh2Cache, mray: &Ray, culling: Backfaces) -> (r: Option<RayMeshHit>)
    requires
        cache.wf(),
        mray.wf(),
    ensures
        crate::bvh::nearest_hit_post(cache.triangles@, *mray, culling, r),
{
    let mut tr = RayTraversal::new(&cache.bvh, &cache.triangles, Ghost(*mray));
    let mut idxs: Vec<usize> = Vec::new();
    let mut done = false;
    while !done
        invariant
            tris_wf(cache.triangles@),
            mray.wf(),
            tr.wf(cache.triangles@, *mray),
            idxs@ == tr.emitted@,
            done ==> forall|i: int|
                0 <= i < cache.triangles@.len() && crate::bvh::tri_hits(
                    #[trigger] cache.triangles@[i],
                    *mray,
                    Backfaces::Include,
                ) ==> contains_idx(tr.emitted@, i),
        decreases tr.measure(), (if done {
            0int
        } else {
            1int
        }),
    {
        match tr.next_candidate(&cache.triangles, mray) {
            Some(i) => {
                idxs.push(i);
            },
            None => {
                done = true;
            },
        }
    }
    proof {
        assert forall|i: int|
            0 <= i < cache.triangles@.len() && crate::bvh::tri_hits(
                #[trigger] cache.triangles@[i],
                *mray,
                culling,
            ) implies contains_idx(idxs@, i) by {
            crate::bvh::lemma_cull_hit_is_include_hit(cache.triangles@[i], *mray, culling);
        }
        crate::bvh::lemma_scan_subset(
            cache.triangles@,
            *mray,
            culling,
            idxs@,
            cache.triangles@.len() as int,
        );
    }
    crate::bvh::scan_candidates(&cache.triangles, &idxs, mray, culling)
}

/// Casts a ray on a mesh through the quality structure; identical semantics
/// to the generic traversal and to the brute-force scan of the same
/// triangle list.
pub fn ray_intersection_over_mesh_using_obvhs_bvh2_cache(
    transform: &AffineMap,
    ray: Ray,
    culling: Backfaces,
    cache: &ObvhsBvh2Cache,
) -> (r: Option<RayMeshHit>)
    requires
        transform.wf(),
        ray.world_wf(),
        cache.wf(),
    ensures
        world_query_post(*transform, cache.triangles@, ray, culling, r),
{
    let mray = match world_to_mesh_ray(transform, &ray) {
        None => {
            return None;
        },
        Some(mr) => mr,
    };
    let mh = bvh2_nearest(cache, &mray, culling);
    finish_world_query(transform, &cache.triangles, Ghost(mray), culling, mh)
}

} // verus!
