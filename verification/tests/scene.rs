use picking_bvh::aabb::Aabb;
use picking_bvh::bvh::build_bvh_cache;
use picking_bvh::common::{MeshData, PrimitiveTopology};
use picking_bvh::intersections::{Backfaces, Ray};
use picking_bvh::math::Vec3i;
use picking_bvh::obvhs::build_bvh2_cache;
use picking_bvh::ray_cast::{
    ray_intersection_over_mesh, ray_intersection_over_mesh_using_bvh_cache, resolve_backfaces,
    BvhMeshRayCast, RayCastSettings, RayCastVisibility, SceneObject,
};
use picking_bvh::obvhs::ray_intersection_over_mesh_using_obvhs_bvh2_cache;
use picking_bvh::transform::AffineMap;
use picking_bvh::triangle::Triangle;
use picking_bvh::{BvhBackend, PickingBvhBackend};

fn v(x: i64, y: i64, z: i64) -> Vec3i {
    Vec3i::new(x, y, z)
}

fn plane_mesh(n: usize) -> MeshData {
    let mut positions = Vec::new();
    for k in 0..n {
        let x = (k % 8) as i64 - 4;
        let y = (k / 8) as i64 - 4;
        positions.push(v(x, y, 5));
        positions.push(v(x + 1, y, 5));
        positions.push(v(x, y + 1, 5));
    }
    MeshData { topology: PrimitiveTopology::TriangleList, positions: Some(positions), normals: None, indices: None }
}

/// A single-triangle wall in the plane x = d, straddling the x axis.
fn wall_triangles(d: i64) -> Vec<Triangle> {
    vec![Triangle::new(
        0,
        [v(d, -1, 2), v(d, 2, -1), v(d, -1, -1)],
        None,
    )]
}

fn wall_object(id: u64, d: i64, pass_filter: bool, early_exit: bool) -> SceneObject {
    SceneObject {
        id,
        inherited_visibility: true,
        view_visibility: true,
        aabb: Aabb { min: v(d, -1, -1), max: v(d, 2, 2) },
        transform: AffineMap::identity(),
        triangles: wall_triangles(d),
        bvh_cache: None,
        obvhs_bvh2_cache: None,
        backfaces: Backfaces::Include,
        pass_filter,
        early_exit,
    }
}

fn x_ray() -> Ray {
    Ray::new(v(0, 0, 0), v(1, 0, 0), 1)
}

#[test]
fn accelerated_equals_brute_force() {
    // Equivalence of the three backends over one mesh, both policies.
    let mesh = plane_mesh(64);
    let bvh = build_bvh_cache(&mesh).unwrap();
    let quality = build_bvh2_cache(&mesh).unwrap();
    let t = AffineMap::identity();
    for culling in [Backfaces::Include, Backfaces::Cull] {
        for ray in [
            Ray::new(v(0, 0, 0), v(0, 0, 1), 1),
            Ray::new(v(0, 0, 0), v(1, 1, 9), 1),
            Ray::new(v(0, 0, 0), v(0, 0, -1), 1),
            Ray::new(v(-3, -3, 0), v(1, 1, 2), 1),
        ] {
            let brute = ray_intersection_over_mesh(&mesh, &t, ray, culling);
            let fast = ray_intersection_over_mesh_using_bvh_cache(&t, ray, culling, &bvh);
            let q = ray_intersection_over_mesh_using_obvhs_bvh2_cache(&t, ray, culling, &quality);
            assert_eq!(brute.is_some(), fast.is_some());
            assert_eq!(brute.is_some(), q.is_some());
            if let (Some(b), Some(f), Some(qq)) = (brute, fast, q) {
                assert_eq!(b.triangle_index, f.triangle_index);
                assert_eq!(b.triangle_index, qq.triangle_index);
                assert_eq!(b.distance.num * f.distance.den, f.distance.num * b.distance.den);
                assert_eq!(b.distance.num * qq.distance.den, qq.distance.num * b.distance.den);
            }
        }
    }
}

#[test]
fn equivalence_on_degenerate_meshes() {
    for n in [0usize, 1] {
        let mesh = plane_mesh(n);
        let bvh = build_bvh_cache(&mesh).unwrap();
        let t = AffineMap::identity();
        let ray = Ray::new(v(0, 0, 0), v(0, 0, 1), 1);
        let brute = ray_intersection_over_mesh(&mesh, &t, ray, Backfaces::Include);
        let fast = ray_intersection_over_mesh_using_bvh_cache(&t, ray, Backfaces::Include, &bvh);
        assert_eq!(brute.is_some(), fast.is_some());
    }
}

#[test]
fn non_uniform_scale_reports_scaled_distance() {
    // A unit triangle at x = 1, scaled by two along x: the hit parameter
    // along the unit world ray is exactly 2, not the unscaled mesh value.
    let mesh = MeshData {
        topology: PrimitiveTopology::TriangleList,
        positions: Some(vec![v(1, -1, 2), v(1, 2, -1), v(1, -1, -1)]),
        normals: None,
        indices: None,
    };
    let scale_x = AffineMap::new(
        [v(2, 0, 0), v(0, 1, 0), v(0, 0, 1)],
        v(0, 0, 0),
        1,
    );
    let hit = ray_intersection_over_mesh(&mesh, &scale_x, x_ray(), Backfaces::Include).unwrap();
    assert_eq!(hit.distance.num, 2 * hit.distance.den);
    // and the world hit point is (2, 0, 0)
    assert_eq!(hit.point.num.x, 2 * hit.point.den);
    assert_eq!(hit.point.num.y, 0);
    assert_eq!(hit.point.num.z, 0);
}

#[test]
fn scene_hits_sorted_by_distance() {
    let objects = vec![
        wall_object(20, 2, true, false),
        wall_object(10, 1, true, false),
    ];
    let mut rc = BvhMeshRayCast::new(PickingBvhBackend::with_backend(BvhBackend::NoAcceleration));
    rc.cast_ray(x_ray(), &RayCastSettings { visibility: RayCastVisibility::Any }, &objects);
    assert_eq!(rc.output.len(), 2);
    assert_eq!(rc.output[0].0, 10);
    assert_eq!(rc.output[1].0, 20);
    let d0 = rc.output[0].1.distance;
    let d1 = rc.output[1].1.distance;
    assert!(d0.num * d1.den <= d1.num * d0.den);
}

#[test]
fn blocking_object_hides_farther_hits() {
    // The near wall blocks: the far wall's hit is discarded even though it
    // was collected.
    let objects = vec![
        wall_object(20, 2, true, false),
        wall_object(10, 1, true, true),
    ];
    let mut rc = BvhMeshRayCast::new(PickingBvhBackend::with_backend(BvhBackend::NoAcceleration));
    rc.cast_ray(x_ray(), &RayCastSettings { visibility: RayCastVisibility::Any }, &objects);
    assert_eq!(rc.output.len(), 1);
    assert_eq!(rc.output[0].0, 10);
}

#[test]
fn blocking_discovered_late_prunes_earlier_hits() {
    // The blocking wall sits later in the object list than the farther one.
    let objects = vec![
        wall_object(20, 2, true, false),
        wall_object(30, 3, true, false),
        wall_object(10, 1, true, true),
    ];
    let mut rc = BvhMeshRayCast::new(PickingBvhBackend::with_backend(BvhBackend::NoAcceleration));
    rc.cast_ray(x_ray(), &RayCastSettings { visibility: RayCastVisibility::Any }, &objects);
    assert_eq!(rc.output.len(), 1);
    assert_eq!(rc.output[0].0, 10);
}

#[test]
fn filter_skips_objects() {
    let objects = vec![
        wall_object(10, 1, false, false),
        wall_object(20, 2, true, false),
    ];
    let mut rc = BvhMeshRayCast::new(PickingBvhBackend::with_backend(BvhBackend::NoAcceleration));
    rc.cast_ray(x_ray(), &RayCastSettings { visibility: RayCastVisibility::Any }, &objects);
    assert_eq!(rc.output.len(), 1);
    assert_eq!(rc.output[0].0, 20);
}

#[test]
fn visibility_mode_gates_objects() {
    let mut hidden = wall_object(10, 1, true, false);
    hidden.inherited_visibility = false;
    let objects = vec![hidden, wall_object(20, 2, true, false)];
    let mut rc = BvhMeshRayCast::new(PickingBvhBackend::with_backend(BvhBackend::NoAcceleration));
    rc.cast_ray(x_ray(), &RayCastSettings { visibility: RayCastVisibility::Visible }, &objects);
    assert_eq!(rc.output.len(), 1);
    assert_eq!(rc.output[0].0, 20);
    // with visibility ignored, both are hit
    let mut rc2 = BvhMeshRayCast::new(PickingBvhBackend::with_backend(BvhBackend::NoAcceleration));
    rc2.cast_ray(x_ray(), &RayCastSettings { visibility: RayCastVisibility::Any }, &objects);
    assert_eq!(rc2.output.len(), 2);
}

#[test]
fn scene_uses_cached_structures() {
    let mesh = plane_mesh(64);
    let cache = build_bvh_cache(&mesh).unwrap();
    let triangles = cache.triangles.clone();
    let object = SceneObject {
        id: 1,
        inherited_visibility: true,
        view_visibility: true,
        aabb: Aabb { min: v(-4, -4, 5), max: v(5, 5, 5) },
        transform: AffineMap::identity(),
        triangles,
        bvh_cache: Some(cache),
        obvhs_bvh2_cache: None,
        backfaces: Backfaces::Include,
        pass_filter: true,
        early_exit: false,
    };
    let ray = Ray::new(v(0, 0, 0), v(0, 0, 1), 1);
    let mut rc = BvhMeshRayCast::new(PickingBvhBackend::with_backend(BvhBackend::Bvh));
    rc.cast_ray(ray, &RayCastSettings { visibility: RayCastVisibility::Any }, &vec![object]);
    assert_eq!(rc.output.len(), 1);
    // distance 5 along the unit z ray, exactly
    let d = rc.output[0].1.distance;
    assert_eq!(d.num, 5 * d.den);
}

#[test]
fn backface_policy_resolution() {
    // culled only for a plain 3d mesh
    assert_eq!(resolve_backfaces(false, false), Backfaces::Cull);
    assert_eq!(resolve_backfaces(true, false), Backfaces::Include);
    assert_eq!(resolve_backfaces(false, true), Backfaces::Include);
    assert_eq!(resolve_backfaces(true, true), Backfaces::Include);
}

#[test]
fn candidates_sorted_by_approach_distance() {
    // the farther wall comes first in the object list; after the broad
    // phase the candidate buffer is ordered by approach distance
    let objects = vec![
        wall_object(20, 2, true, false),
        wall_object(10, 1, true, false),
    ];
    let mut rc = BvhMeshRayCast::new(PickingBvhBackend::with_backend(BvhBackend::NoAcceleration));
    rc.cast_ray(x_ray(), &RayCastSettings { visibility: RayCastVisibility::Any }, &objects);
    assert_eq!(rc.culled_list.len(), 2);
    let a = rc.culled_list[0].0;
    let b = rc.culled_list[1].0;
    assert!(a.num * b.den <= b.num * a.den);
    // the nearer wall (second object) is the first candidate
    assert_eq!(rc.culled_list[0].1, 1);
}

#[test]
fn tight_bounds_of_triangle_list() {
    let tris = wall_triangles(1);
    let b = picking_bvh::aabb::triangles_bounds(&tris).unwrap();
    assert_eq!((b.min.x, b.min.y, b.min.z), (1, -1, -1));
    assert_eq!((b.max.x, b.max.y, b.max.z), (1, 2, 2));
    assert!(picking_bvh::aabb::triangles_bounds(&Vec::new()).is_none());
}
