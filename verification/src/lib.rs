//! Ray-versus-triangle-mesh picking with a bounding-volume acceleration
//! structure, carried out in exact integer and rational arithmetic so that
//! every geometric decision is verified.
//!
//! Coordinates are quantised integers: a host layer scales its floating-point
//! geometry into the box `[-COORD_LIMIT, COORD_LIMIT]` before handing it to
//! this crate, and all derived quantities (intersection parameters,
//! barycentric weights, hit points) are exact rationals over those integers.

pub mod aabb;
pub mod alg;
pub mod bvh;
pub mod common;
pub mod intersections;
pub mod math;
pub mod obvhs;
pub mod ray_cast;
pub mod sorting;
pub mod storage;
pub mod transform;
pub mod triangle;

use vstd::prelude::*;

verus! {

/// Bound on every quantised input coordinate: triangle vertices and normals,
/// ray origins and directions in world space, affine-map numerators and
/// denominators all lie in `[-COORD_LIMIT, COORD_LIMIT]`.
pub const COORD_LIMIT: i64 = 256;

/// Whether every requested acceleration structure has been built and merged.
#[derive(Clone, Copy, Debug, PartialEq, Eq, Structural)]
pub enum BvhCacheStatus {
    Building,
    Ready,
}

impl Default for BvhCacheStatus {
    fn default() -> (r: BvhCacheStatus)
        ensures
            r == BvhCacheStatus::Ready,
    {
        BvhCacheStatus::Ready
    }
}

/// Which backend a query uses: brute force, the general-purpose tree, or
/// the quality builder. A closed set selected at query time.
#[derive(Clone, Copy, Debug, PartialEq, Eq, Structural)]
pub enum BvhBackend {
    NoAcceleration,
    Bvh,
    ObvhsBvh2,
}

impl Default for BvhBackend {
    fn default() -> (r: BvhBackend)
        ensures
            r == BvhBackend::ObvhsBvh2,
    {
        BvhBackend::ObvhsBvh2
    }
}

/// The backend selection a host installs for its scene queries.
#[derive(Clone, Copy, Debug, PartialEq, Eq, Structural)]
pub struct PickingBvhBackend {
    pub backend: BvhBackend,
}

impl PickingBvhBackend {
    pub fn with_backend(backend: BvhBackend) -> (r: Self)
        ensures
            r.backend == backend,
    {
        PickingBvhBackend { backend }
    }
}

impl Default for PickingBvhBackend {
    fn default() -> (r: PickingBvhBackend)
        ensures
            r.backend == BvhBackend::ObvhsBvh2,
    {
        PickingBvhBackend { backend: BvhBackend::ObvhsBvh2 }
    }
}

/// The build pipeline's visible state.
#[derive(Clone, Copy, Debug, PartialEq, Eq, Structural)]
pub struct PickingBvhCache {
    pub status: BvhCacheStatus,
}

impl Default for PickingBvhCache {
    fn default() -> (r: PickingBvhCache)
        ensures
            r.status == BvhCacheStatus::Ready,
    {
        PickingBvhCache { status: BvhCacheStatus::Ready }
    }
}

/// An asset-change notification; only additions trigger a (re)build.
#[derive(Clone, Copy, Debug, PartialEq, Eq, Structural)]
pub enum AssetEvent {
    Added(crate::storage::AssetKey),
    Modified(crate::storage::AssetKey),
    Removed(crate::storage::AssetKey),
    Unused(crate::storage::AssetKey),
}

pub open spec fn is_added(e: AssetEvent) -> bool {
    match e {
        AssetEvent::Added(_) => true,
        _ => false,
    }
}

pub open spec fn any_added(events: Seq<AssetEvent>) -> bool {
    exists|i: int| 0 <= i < events.len() && is_added(#[trigger] events[i])
}

/// Scan a frame's asset events; any addition marks the cache as building
/// until the corresponding structure lands.
pub fn detect_meshes(events: &Vec<AssetEvent>, bvh_cache: &mut PickingBvhCache)
    ensures
        final(bvh_cache).status == if any_added(events@) {
            BvhCacheStatus::Building
        } else {
            old(bvh_cache).status
        },
{
    let mut i: usize = 0;
    while i < events.len()
        invariant
            0 <= i <= events@.len(),
            bvh_cache.status == old(bvh_cache).status,
            forall|j: int| 0 <= j < i ==> !is_added(#[trigger] events@[j]),
        decreases events@.len() - i,
    {
        match events[i] {
            AssetEvent::Added(_) => {
                bvh_cache.status = BvhCacheStatus::Building;
                proof {
                    assert(is_added(events@[i as int]));
                }
                return ;
            },
            _ => {},
        }
        i = i + 1;
    }
}

/// The keys whose structures a frame's events ask to build, in event order.
pub open spec fn added_keys(events: Seq<AssetEvent>) -> Seq<crate::storage::AssetKey>
    decreases events.len(),
{
    if events.len() == 0 {
        Seq::empty()
    } else {
        let rest = added_keys(events.drop_last());
        match events.last() {
            AssetEvent::Added(k) => rest.push(k),
            _ => rest,
        }
    }
}

/// Decide which assets a frame's events require a build for: one build per
/// addition, in order; nothing else triggers one.
pub fn assets_to_build(events: &Vec<AssetEvent>) -> (r: Vec<crate::storage::AssetKey>)
    ensures
        r@ == added_keys(events@),
{
    let mut out: Vec<crate::storage::AssetKey> = Vec::new();
    let mut i: usize = 0;
    while i < events.len()
        invariant
            0 <= i <= events@.len(),
            out@ == added_keys(events@.take(i as int)),
        decreases events@.len() - i,
    {
        match events[i] {
            AssetEvent::Added(k) => {
                out.push(k);
            },
            _ => {},
        }
        proof {
            assert(events@.take(i as int + 1).drop_last() =~= events@.take(i as int));
            assert(events@.take(i as int + 1).last() == events@[i as int]);
        }
        i = i + 1;
    }
    proof {
        assert(events@.take(events@.len() as int) =~= events@);
    }
    out
}

/// After polling the in-flight build tasks, the cache is ready exactly when
/// none remain.
pub fn handle_tasks_status(remaining_tasks: usize, bvh_cache: &mut PickingBvhCache)
    ensures
        final(bvh_cache).status == if remaining_tasks > 0 {
            BvhCacheStatus::Building
        } else {
            BvhCacheStatus::Ready
        },
{
    if remaining_tasks > 0 {
        bvh_cache.status = BvhCacheStatus::Building;
    } else {
        bvh_cache.status = BvhCacheStatus::Ready;
    }
}

/// Whether scene queries may rely on every structure being built.
pub fn run_if_bvh_cache_ready(bvh_cache: &PickingBvhCache) -> (r: bool)
    ensures
        r == (bvh_cache.status == BvhCacheStatus::Ready),
{
    match bvh_cache.status {
        BvhCacheStatus::Ready => true,
        BvhCacheStatus::Building => false,
    }
}

} // verus!
