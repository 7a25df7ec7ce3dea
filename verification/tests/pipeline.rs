use picking_bvh::bvh::{build_bvh_cache, BvhCache};
use picking_bvh::common::{get_triangles, MeshData, MeshIndices, PrimitiveTopology};
use picking_bvh::intersections::{Backfaces, Ray};
use picking_bvh::math::Vec3i;
use picking_bvh::obvhs::{build_bvh2_cache, ObvhsBvh2Cache};
use picking_bvh::ray_cast::{ray_intersection_over_mesh, ray_intersection_over_mesh_using_bvh_cache};
use picking_bvh::storage::{AssetKey, AssetsBvhCaches};
use picking_bvh::transform::AffineMap;
use picking_bvh::{
    assets_to_build, detect_meshes, handle_tasks_status, run_if_bvh_cache_ready, AssetEvent,
    BvhCacheStatus, PickingBvhCache,
};

fn v(x: i64, y: i64, z: i64) -> Vec3i {
    Vec3i::new(x, y, z)
}

/// A flat fan of `n` triangles in the plane z = 5, one of which covers the
/// origin column.
fn plane_mesh(n: usize) -> MeshData {
    let mut positions = Vec::new();
    for k in 0..n {
        let x = (k % 8) as i64 - 4;
        let y = (k / 8) as i64 - 4;
        positions.push(v(x, y, 5));
        positions.push(v(x + 1, y, 5));
        positions.push(v(x, y + 1, 5));
    }
    MeshData { topology: PrimitiveTopology::TriangleList, positions: Some(positions), normals: None, indices: None }
}

#[test]
fn extraction_ordinal_runs_of_three() {
    let positions = vec![v(0, 0, 0), v(1, 0, 0), v(0, 1, 0), v(5, 5, 5), v(6, 5, 5), v(5, 6, 5), v(9, 9, 9)];
    let tris = get_triangles(&positions, None, None);
    // seven vertices make two complete runs; the leftover vertex is dropped
    assert_eq!(tris.len(), 2);
    assert_eq!(tris[0].triangle_index, 0);
    assert_eq!(tris[1].triangle_index, 1);
    assert_eq!(tris[1].positions[0].x, 5);
}

#[test]
fn extraction_indexed_skips_out_of_range() {
    let positions = vec![v(0, 0, 0), v(1, 0, 0), v(0, 1, 0)];
    let indices = MeshIndices::U32(vec![0, 1, 2, 0, 1, 9]);
    let tris = get_triangles(&positions, None, Some(&indices));
    // the run addressing index 9 is silently dropped
    assert_eq!(tris.len(), 1);
    assert_eq!(tris[0].triangle_index, 0);
}

#[test]
fn extraction_narrow_indices() {
    let positions = vec![v(0, 0, 0), v(1, 0, 0), v(0, 1, 0)];
    let indices = MeshIndices::U16(vec![2, 1, 0]);
    let tris = get_triangles(&positions, None, Some(&indices));
    assert_eq!(tris.len(), 1);
    // the run's first index is the stable triangle identity
    assert_eq!(tris[0].triangle_index, 2);
}

#[test]
fn build_declines_wrong_topology() {
    let mut mesh = plane_mesh(4);
    mesh.topology = PrimitiveTopology::Other;
    assert!(build_bvh_cache(&mesh).is_none());
    assert!(build_bvh2_cache(&mesh).is_none());
}

#[test]
fn build_declines_missing_positions() {
    let mesh = MeshData { topology: PrimitiveTopology::TriangleList, positions: None, normals: None, indices: None };
    assert!(build_bvh_cache(&mesh).is_none());
}

#[test]
fn general_builder_accepts_small_meshes() {
    let cache = build_bvh_cache(&plane_mesh(1)).unwrap();
    assert_eq!(cache.triangles.len(), 1);
    // zero triangles still build (empty structure)
    let empty = MeshData { topology: PrimitiveTopology::TriangleList, positions: Some(Vec::new()), normals: None, indices: None };
    assert_eq!(build_bvh_cache(&empty).unwrap().triangles.len(), 0);
}

#[test]
fn quality_builder_declines_small_meshes() {
    assert!(build_bvh2_cache(&plane_mesh(63)).is_none());
    let cache = build_bvh2_cache(&plane_mesh(64)).unwrap();
    assert_eq!(cache.triangles.len(), 64);
}

#[test]
fn rebuild_is_deterministic_for_queries() {
    // Idempotence: two structures built from the same triangle list answer
    // the same ray with the same nearest hit.
    let mesh = plane_mesh(64);
    let c1 = build_bvh_cache(&mesh).unwrap();
    let c2 = build_bvh_cache(&mesh).unwrap();
    let t = AffineMap::identity();
    let ray = Ray::new(v(0, 0, 0), v(0, 0, 1), 1);
    let h1 = ray_intersection_over_mesh_using_bvh_cache(&t, ray, Backfaces::Include, &c1).unwrap();
    let h2 = ray_intersection_over_mesh_using_bvh_cache(&t, ray, Backfaces::Include, &c2).unwrap();
    assert_eq!(h1.triangle_index, h2.triangle_index);
    assert_eq!(h1.distance.num * h2.distance.den, h2.distance.num * h1.distance.den);
}

#[test]
fn empty_mesh_yields_no_hit() {
    let empty = MeshData { topology: PrimitiveTopology::TriangleList, positions: Some(Vec::new()), normals: None, indices: None };
    let t = AffineMap::identity();
    let ray = Ray::new(v(0, 0, 0), v(0, 0, 1), 1);
    assert!(ray_intersection_over_mesh(&empty, &t, ray, Backfaces::Include).is_none());
}

#[test]
fn degenerate_transform_yields_no_hit() {
    let mesh = plane_mesh(4);
    let zero = AffineMap::new(
        [v(0, 0, 0), v(0, 0, 0), v(0, 0, 0)],
        v(0, 0, 0),
        1,
    );
    let ray = Ray::new(v(0, 0, 0), v(0, 0, 1), 1);
    assert!(ray_intersection_over_mesh(&mesh, &zero, ray, Backfaces::Include).is_none());
}

#[test]
fn default_store_is_empty() {
    let store: AssetsBvhCaches<BvhCache> = AssetsBvhCaches::default();
    assert!(store.get(AssetKey::Index(0)).is_none());
    assert!(store.get(AssetKey::Uuid(0)).is_none());
}

#[test]
fn storage_routes_on_key_space() {
    let mesh = plane_mesh(1);
    let mut store: AssetsBvhCaches<BvhCache> = AssetsBvhCaches::new();
    store.insert(AssetKey::Index(7), build_bvh_cache(&mesh).unwrap());
    store.insert(AssetKey::Uuid(7), build_bvh_cache(&mesh).unwrap());
    assert!(store.get(AssetKey::Index(7)).is_some());
    assert!(store.get(AssetKey::Uuid(7)).is_some());
    assert!(store.get(AssetKey::Index(8)).is_none());
    // removing from one key space leaves the other
    assert!(store.remove(AssetKey::Index(7)).is_some());
    assert!(store.get(AssetKey::Index(7)).is_none());
    assert!(store.get(AssetKey::Uuid(7)).is_some());
}

#[test]
fn storage_insert_replaces() {
    let mut store: AssetsBvhCaches<ObvhsBvh2Cache> = AssetsBvhCaches::new();
    let c = build_bvh2_cache(&plane_mesh(64)).unwrap();
    assert!(store.insert_with_uuid(1, c).is_none());
    let c2 = build_bvh2_cache(&plane_mesh(65)).unwrap();
    let old = store.insert_with_uuid(1, c2).unwrap();
    assert_eq!(old.triangles.len(), 64);
    assert_eq!(store.get(AssetKey::Uuid(1)).unwrap().triangles.len(), 65);
}

#[test]
fn storage_get_mut_edits_in_place() {
    let mut store: AssetsBvhCaches<BvhCache> = AssetsBvhCaches::new();
    store.insert_with_index(3, build_bvh_cache(&plane_mesh(2)).unwrap());
    assert!(store.get_mut(AssetKey::Index(4)).is_none());
    {
        let entry = store.get_mut(AssetKey::Index(3)).unwrap();
        *entry = build_bvh_cache(&plane_mesh(5)).unwrap();
    }
    assert_eq!(store.get(AssetKey::Index(3)).unwrap().triangles.len(), 5);
}

#[test]
fn added_assets_mark_cache_building() {
    let mut cache = PickingBvhCache::default();
    assert!(run_if_bvh_cache_ready(&cache));
    let events = vec![AssetEvent::Modified(AssetKey::Index(1)), AssetEvent::Added(AssetKey::Index(2))];
    detect_meshes(&events, &mut cache);
    assert_eq!(cache.status, BvhCacheStatus::Building);
    assert!(!run_if_bvh_cache_ready(&cache));
    let keys = assets_to_build(&events);
    assert_eq!(keys.len(), 1);
    assert_eq!(keys[0], AssetKey::Index(2));
}

#[test]
fn non_added_events_leave_status() {
    let mut cache = PickingBvhCache::default();
    let events = vec![AssetEvent::Removed(AssetKey::Uuid(9))];
    detect_meshes(&events, &mut cache);
    assert_eq!(cache.status, BvhCacheStatus::Ready);
}

#[test]
fn pending_tasks_hold_building_status() {
    let mut cache = PickingBvhCache::default();
    handle_tasks_status(2, &mut cache);
    assert_eq!(cache.status, BvhCacheStatus::Building);
    handle_tasks_status(0, &mut cache);
    assert_eq!(cache.status, BvhCacheStatus::Ready);
}
