use picking_bvh::intersections::{
    ray_triangle_intersection, triangle_intersection, Backfaces, Ray,
};
use picking_bvh::math::Vec3i;

// Triangle vertices to be used in a left-hand coordinate system
const V0: (i64, i64, i64) = (1, -1, 2);
const V1: (i64, i64, i64) = (1, 2, -1);
const V2: (i64, i64, i64) = (1, -1, -1);

fn v(t: (i64, i64, i64)) -> Vec3i {
    Vec3i::new(t.0, t.1, t.2)
}

fn x_ray() -> Ray {
    Ray::new(Vec3i::new(0, 0, 0), Vec3i::new(1, 0, 0), 1)
}

#[test]
fn ray_cast_triangle_mt() {
    let triangle = [v(V0), v(V1), v(V2)];
    let ray = x_ray();
    let result = ray_triangle_intersection(&ray, &triangle, Backfaces::Include);
    let hit = result.unwrap();
    // the hit lies at distance exactly 1
    assert!(hit.distance.num == hit.distance.den);
}

#[test]
fn ray_cast_triangle_mt_culling() {
    let triangle = [v(V2), v(V1), v(V0)];
    let ray = x_ray();
    let result = ray_triangle_intersection(&ray, &triangle, Backfaces::Cull);
    assert!(result.is_none());
}

#[test]
fn intersections_ray_cast_triangle_mt() {
    let triangle = [v(V0), v(V1), v(V2)];
    let ray = x_ray();
    let result = ray_triangle_intersection(&ray, &triangle, Backfaces::Include);
    let hit = result.unwrap();
    assert!(hit.distance.num == 9 && hit.distance.den == 9);
}

#[test]
fn intersections_ray_cast_triangle_mt_culling() {
    let triangle = [v(V2), v(V1), v(V0)];
    let ray = x_ray();
    let result = ray_triangle_intersection(&ray, &triangle, Backfaces::Cull);
    assert!(result.is_none());
}

#[test]
fn include_accepts_reversed_winding() {
    // The winding that cull rejects is still a hit with backfaces included.
    let triangle = [v(V2), v(V1), v(V0)];
    let ray = x_ray();
    let result = ray_triangle_intersection(&ray, &triangle, Backfaces::Include);
    let hit = result.unwrap();
    assert!(hit.distance.num == hit.distance.den);
}

#[test]
fn barycentrics_of_known_hit() {
    let triangle = [v(V0), v(V1), v(V2)];
    let ray = x_ray();
    let hit = ray_triangle_intersection(&ray, &triangle, Backfaces::Include).unwrap();
    // u = v = 1/3 for this ray
    let (u, vb) = hit.barycentric_coords;
    assert_eq!(u.num * 3, u.den);
    assert_eq!(vb.num * 3, vb.den);
}

#[test]
fn full_hit_record_reconstructs_point() {
    let triangle = [v(V0), v(V1), v(V2)];
    let ray = x_ray();
    let hit = triangle_intersection(&triangle, &None, &None, &ray, Backfaces::Include).unwrap();
    // point = origin + t * direction = (1, 0, 0), exactly
    assert_eq!(hit.point.num.x, hit.point.den);
    assert_eq!(hit.point.num.y, 0);
    assert_eq!(hit.point.num.z, 0);
    // w = 1 - u - v = 1/3
    assert_eq!(hit.barycentric_coords.2.num * 3, hit.barycentric_coords.2.den);
    // the unnormalised face normal is e1 x e2 = (-9, 0, 0)
    assert_eq!(hit.normal.den, 1);
    assert_eq!(hit.normal.num.x, -9);
    assert_eq!(hit.normal.num.y, 0);
    assert_eq!(hit.normal.num.z, 0);
    assert!(hit.triangle.is_some());
    assert!(hit.triangle_index.is_none());
}

#[test]
fn negative_distance_is_rejected() {
    // Triangle behind the ray origin: raw intersection reports a negative
    // parameter, the bounded test rejects it.
    let triangle = [
        Vec3i::new(-1, -1, 2),
        Vec3i::new(-1, 2, -1),
        Vec3i::new(-1, -1, -1),
    ];
    let ray = x_ray();
    let raw = ray_triangle_intersection(&ray, &triangle, Backfaces::Include).unwrap();
    assert!(raw.distance.num < 0);
    let bounded = triangle_intersection(&triangle, &None, &None, &ray, Backfaces::Include);
    assert!(bounded.is_none());
}

#[test]
fn parallel_ray_misses() {
    let triangle = [v(V0), v(V1), v(V2)];
    let ray = Ray::new(Vec3i::new(0, 0, 0), Vec3i::new(0, 1, 0), 1);
    assert!(ray_triangle_intersection(&ray, &triangle, Backfaces::Include).is_none());
}

#[test]
fn max_distance_bound_applies() {
    let triangle = [v(V0), v(V1), v(V2)];
    let ray = x_ray();
    // bound 1/2 < 1: rejected
    let half = picking_bvh::math::Ratio::new(1, 2);
    assert!(triangle_intersection(&triangle, &None, &Some(half), &ray, Backfaces::Include)
        .is_none());
    // bound exactly 1: accepted (ties pass the bound)
    let one = picking_bvh::math::Ratio::new(1, 1);
    assert!(triangle_intersection(&triangle, &None, &Some(one), &ray, Backfaces::Include)
        .is_some());
}

#[test]
fn interpolated_normal_uses_vertex_normals() {
    let triangle = [v(V0), v(V1), v(V2)];
    let normals = Some([
        Vec3i::new(1, 0, 0),
        Vec3i::new(1, 0, 0),
        Vec3i::new(1, 0, 0),
    ]);
    let ray = x_ray();
    let hit = triangle_intersection(&triangle, &normals, &None, &ray, Backfaces::Include).unwrap();
    // all vertex normals equal (1,0,0): interpolation gives exactly that
    assert_eq!(hit.normal.num.x, hit.normal.den);
    assert_eq!(hit.normal.num.y, 0);
    assert_eq!(hit.normal.num.z, 0);
}
