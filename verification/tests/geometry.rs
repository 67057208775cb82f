//! Interval, bounding box, primitive intersection and hierarchy behaviour
//! on concrete fixed-point scenes. One fixed-point unit is 65536.

use ray_tracer::bounding_box::AxisAlignedBoundingBox;
use ray_tracer::colour::Colour;
use ray_tracer::fixed::{floor_div_i128, isqrt_u128, mul_fp};
use ray_tracer::hittable::{HittableList, HittableObject};
use ray_tracer::interval::Interval;
use ray_tracer::material::Material;
use ray_tracer::sphere::Sphere;
use ray_tracer::texture::SolidTexture;
use ray_tracer::triangle::Triangle;
use ray_tracer::vec3::{Point3, Ray, Vec3};

const ONE: i64 = 65536;

fn grey_material() -> Material {
    Material::new_opaque(0, SolidTexture::new(Colour::new(ONE / 2, ONE / 2, ONE / 2)).wrap())
}

#[test]
fn floor_division_rounds_down() {
    assert_eq!(floor_div_i128(7, 2), 3);
    assert_eq!(floor_div_i128(-7, 2), -4);
    assert_eq!(floor_div_i128(-8, 2), -4);
    assert_eq!(floor_div_i128(0, 5), 0);
}

#[test]
fn integer_square_root_brackets() {
    assert_eq!(isqrt_u128(0), 0);
    assert_eq!(isqrt_u128(1), 1);
    assert_eq!(isqrt_u128(15), 3);
    assert_eq!(isqrt_u128(16), 4);
    assert_eq!(isqrt_u128(1 << 64), 1 << 32);
}

#[test]
fn fixed_point_multiply() {
    assert_eq!(mul_fp(ONE, ONE), ONE);
    assert_eq!(mul_fp(ONE / 2, ONE / 2), ONE / 4);
    assert_eq!(mul_fp(-ONE, ONE / 2), -ONE / 2);
}

// Strict containment rejects both endpoints and accepts the interior.
#[test]
fn interval_surrounds_strict() {
    let unit = Interval::new(0, ONE);
    assert!(!unit.surrounds(0));
    assert!(!unit.surrounds(ONE));
    assert!(unit.surrounds(ONE / 2));
}

#[test]
fn interval_clamp_saturates() {
    let unit = Interval::new(0, ONE);
    assert_eq!(unit.clamp(-5), 0);
    assert_eq!(unit.clamp(ONE + 5), ONE);
    assert_eq!(unit.clamp(123), 123);
}

// Union with the empty interval is the identity.
#[test]
fn interval_enclose_empty_identity() {
    let a = Interval::new(-3 * ONE, 7 * ONE);
    let e = Interval::empty();
    assert_eq!(a.enclose(e), a);
    assert_eq!(e.enclose(a), a);
}

#[test]
fn interval_enclose_commutes_and_associates() {
    let a = Interval::new(-ONE, ONE);
    let b = Interval::new(0, 3 * ONE);
    let c = Interval::new(-5 * ONE, -2 * ONE);
    assert_eq!(a.enclose(b), b.enclose(a));
    assert_eq!(a.enclose(b).enclose(c), a.enclose(b.enclose(c)));
}

#[test]
fn box_union_identity_and_commutativity() {
    let a = AxisAlignedBoundingBox::new(
        Interval::new(0, ONE),
        Interval::new(-ONE, 0),
        Interval::new(2 * ONE, 3 * ONE),
    );
    let b = AxisAlignedBoundingBox::new(
        Interval::new(-ONE, 2 * ONE),
        Interval::new(0, ONE),
        Interval::new(0, ONE),
    );
    let e = AxisAlignedBoundingBox::empty();
    assert_eq!(AxisAlignedBoundingBox::new_from_boxes(&a, &e), a);
    assert_eq!(
        AxisAlignedBoundingBox::new_from_boxes(&a, &b),
        AxisAlignedBoundingBox::new_from_boxes(&b, &a)
    );
}

#[test]
fn box_from_corners_normalises_order() {
    let b = AxisAlignedBoundingBox::new_from_corners(
        Point3::new(ONE, -ONE, 5 * ONE),
        Point3::new(-ONE, ONE, 2 * ONE),
    );
    assert_eq!(b.x.min, -ONE);
    assert_eq!(b.x.max, ONE);
    assert_eq!(b.y.min, -ONE);
    assert_eq!(b.y.max, ONE);
    assert_eq!(b.z.min, 2 * ONE);
    assert_eq!(b.z.max, 5 * ONE);
}

#[test]
fn longest_axis_prefers_x_then_z() {
    let even = AxisAlignedBoundingBox::new(
        Interval::new(0, ONE),
        Interval::new(0, ONE),
        Interval::new(0, ONE),
    );
    assert_eq!(even.longest_axis(), 0);
    let zy = AxisAlignedBoundingBox::new(
        Interval::new(0, 1),
        Interval::new(0, 2 * ONE),
        Interval::new(0, 2 * ONE),
    );
    assert_eq!(zy.longest_axis(), 2);
    let y = AxisAlignedBoundingBox::new(
        Interval::new(0, 1),
        Interval::new(0, 3 * ONE),
        Interval::new(0, 2 * ONE),
    );
    assert_eq!(y.longest_axis(), 1);
}

#[test]
fn slab_test_hits_and_misses() {
    let b = AxisAlignedBoundingBox::new_from_corners(
        Point3::new(-ONE, -ONE, -ONE),
        Point3::new(ONE, ONE, ONE),
    );
    let toward = Ray::new_time_zero(Point3::new(-5 * ONE, 0, 0), Vec3::new(ONE, 0, 0));
    assert!(b.was_hit(toward, Interval::new(0, 100 * ONE)));
    let away = Ray::new_time_zero(Point3::new(-5 * ONE, 0, 0), Vec3::new(-ONE, 0, 0));
    assert!(!b.was_hit(away, Interval::new(0, 100 * ONE)));
    let above = Ray::new_time_zero(Point3::new(-5 * ONE, 3 * ONE, 0), Vec3::new(ONE, 0, 0));
    assert!(!b.was_hit(above, Interval::new(0, 100 * ONE)));
}

// A ray from x = -5 along the x axis onto the unit sphere at the origin:
// the hit point must lie at distance one from the centre (exactly, in the
// integer model) and the normal must be parallel to (hit - centre).
#[test]
fn sphere_round_trip() {
    let sphere = Sphere::new_still(Point3::new(0, 0, 0), ONE, grey_material());
    let ray = Ray::new_time_zero(Point3::new(-5 * ONE, 0, 0), Vec3::new(ONE, 0, 0));
    let hit = sphere.was_hit(ray, Interval::new(66, 1 << 40)).expect("must hit");
    assert_eq!(hit.collision_time, 4 * ONE);
    assert_eq!(hit.collision_point, Point3::new(-ONE, 0, 0));
    assert_eq!(hit.normal_vector, Vec3::new(-ONE, 0, 0));
    assert!(hit.front_face);
    let dx = hit.collision_point.x as f64;
    let dy = hit.collision_point.y as f64;
    let dz = hit.collision_point.z as f64;
    let dist = (dx * dx + dy * dy + dz * dz).sqrt();
    assert!((dist - ONE as f64).abs() < 1e-4 * ONE as f64);
}

// Viewing from inside the sphere: the nearer root is behind the window, so
// the farther root is returned.
#[test]
fn sphere_hit_from_inside() {
    let sphere = Sphere::new_still(Point3::new(0, 0, 0), ONE, grey_material());
    let ray = Ray::new_time_zero(Point3::new(0, 0, 0), Vec3::new(ONE, 0, 0));
    let hit = sphere.was_hit(ray, Interval::new(66, 1 << 40)).expect("must hit");
    assert_eq!(hit.collision_time, ONE);
    assert!(!hit.front_face);
}

#[test]
fn sphere_intersections_both_roots() {
    let sphere = Sphere::new_still(Point3::new(0, 0, 0), ONE, grey_material());
    let ray = Ray::new_time_zero(Point3::new(-5 * ONE, 0, 0), Vec3::new(ONE, 0, 0));
    let (near, far) = sphere.ray_intersections(ray, Interval::new(0, 1 << 40));
    assert_eq!(near, Some(4 * ONE));
    assert_eq!(far, Some(6 * ONE));
}

#[test]
fn sphere_miss_reports_none() {
    let sphere = Sphere::new_still(Point3::new(0, 0, 0), ONE, grey_material());
    let ray = Ray::new_time_zero(Point3::new(-5 * ONE, 3 * ONE, 0), Vec3::new(ONE, 0, 0));
    assert!(sphere.was_hit(ray, Interval::new(66, 1 << 40)).is_none());
}

// A ray at the centroid of the triangle (0,0,0), (1,0,0), (0,1,0) along +z
// must hit with nonnegative barycentric coordinates summing to at most one;
// a ray outside the footprint must miss.
#[test]
fn triangle_inside_outside_boundary() {
    let tri = Triangle::new(
        Point3::new(0, 0, 0),
        Point3::new(ONE, 0, 0),
        Point3::new(0, ONE, 0),
        grey_material(),
    );
    let third = ONE / 3;
    let inside = Ray::new_time_zero(
        Point3::new(third, third, -5 * ONE),
        Vec3::new(0, 0, ONE),
    );
    let hit = tri.was_hit(inside, Interval::new(66, 1 << 40)).expect("must hit");
    assert!(hit.u >= 0);
    assert!(hit.v >= 0);
    assert!(hit.u + hit.v <= ONE);
    assert_eq!(hit.collision_time, 5 * ONE);
    // the record's normal opposes the incoming ray
    assert_eq!(hit.normal_vector, Vec3::new(0, 0, -ONE));
    assert!(!hit.front_face);
    let d = inside.direction;
    let n = hit.normal_vector;
    assert!(d.x * n.x + d.y * n.y + d.z * n.z < 0);
    let outside = Ray::new_time_zero(
        Point3::new(-ONE, -ONE, -5 * ONE),
        Vec3::new(0, 0, ONE),
    );
    assert!(tri.was_hit(outside, Interval::new(66, 1 << 40)).is_none());
}

// A triangle lying in an axis-aligned plane has a zero-thickness box on
// that axis; a generic ray's exact hit time is not representable in fixed
// point, and the hit must still be found.
#[test]
fn planar_triangle_is_hit_at_unrepresentable_time() {
    let tri = Triangle::new(
        Point3::new(0, 0, 0),
        Point3::new(4 * ONE, 0, 0),
        Point3::new(0, 4 * ONE, 0),
        grey_material(),
    );
    let ray = Ray::new_time_zero(
        Point3::new(0, 0, -5 * ONE),
        Vec3::new(30000, 10000, 60000),
    );
    let hit = tri.was_hit(ray, Interval::new(66, 1 << 40)).expect("must hit");
    // exact time 5 * 65536 * 65536 / 60000, rounded down
    assert_eq!(hit.collision_time, 357913);
    assert!(hit.u >= 0 && hit.v >= 0 && hit.u + hit.v <= ONE);
}

#[test]
fn triangle_parallel_ray_misses() {
    let tri = Triangle::new(
        Point3::new(0, 0, 0),
        Point3::new(ONE, 0, 0),
        Point3::new(0, ONE, 0),
        grey_material(),
    );
    let parallel = Ray::new_time_zero(
        Point3::new(0, 0, -ONE),
        Vec3::new(ONE, 0, 0),
    );
    assert!(tri.was_hit(parallel, Interval::new(66, 1 << 40)).is_none());
}

fn sphere_grid_scene() -> HittableList {
    let mut list = HittableList::new();
    let centres = [
        (0i64, 0i64, 0i64),
        (3, 0, 0),
        (-3, 1, 2),
        (0, 4, -2),
        (2, -3, 3),
        (-4, -4, -4),
        (5, 5, 5),
    ];
    for (cx, cy, cz) in centres {
        list.push(HittableObject::Sphere(Sphere::new_still(
            Point3::new(cx * ONE, cy * ONE, cz * ONE),
            ONE,
            grey_material(),
        )));
    }
    list
}

// The hierarchy must agree with the brute-force scan: same hit/miss
// decision and the same nearest hit time, over a spread of rays.
#[test]
fn bvh_matches_linear_scan() {
    let window = Interval::new(66, 1 << 40);
    let dirs = [
        (1i64, 0i64, 0i64),
        (-1, 0, 0),
        (0, 1, 0),
        (1, 1, 1),
        (-1, 2, -1),
        (3, -2, 1),
        (0, 0, -1),
    ];
    let origins = [
        (-10i64, 0i64, 0i64),
        (0, -10, 0),
        (10, 10, 10),
        (0, 0, 10),
        (-10, -10, -10),
    ];
    let flat = sphere_grid_scene();
    let tree = sphere_grid_scene().optimise();
    for (ox, oy, oz) in origins {
        for (dx, dy, dz) in dirs {
            let ray = Ray::new_time_zero(
                Point3::new(ox * ONE, oy * ONE, oz * ONE),
                Vec3::new(dx * ONE / 4, dy * ONE / 4, dz * ONE / 4),
            );
            let flat_hit = flat.was_hit(ray, window);
            let tree_hit = tree.was_hit(ray, window);
            match (&flat_hit, &tree_hit) {
                (None, None) => {}
                (Some(a), Some(b)) => assert_eq!(a.collision_time, b.collision_time),
                _ => panic!("hierarchy and scan disagree"),
            }
        }
    }
}

#[test]
fn list_scan_returns_nearest() {
    let mut list = HittableList::new();
    list.push(HittableObject::Sphere(Sphere::new_still(
        Point3::new(6 * ONE, 0, 0),
        ONE,
        grey_material(),
    )));
    list.push(HittableObject::Sphere(Sphere::new_still(
        Point3::new(3 * ONE, 0, 0),
        ONE,
        grey_material(),
    )));
    let ray = Ray::new_time_zero(Point3::new(0, 0, 0), Vec3::new(ONE, 0, 0));
    let hit = list.was_hit(ray, Interval::new(66, 1 << 40)).expect("must hit");
    assert_eq!(hit.collision_time, 2 * ONE);
}

#[test]
fn reflect_mirrors_about_normal() {
    let v = Vec3::new(ONE, -ONE, 0);
    let n = Vec3::new(0, ONE, 0);
    let r = v.reflect(n);
    assert_eq!(r, Vec3::new(ONE, ONE, 0));
}

#[test]
fn unit_or_normalises_or_falls_back() {
    let v = Vec3::new(3 * ONE, 0, 0);
    let u = v.unit_or(Vec3::new(0, 0, ONE));
    assert_eq!(u, Vec3::new(ONE, 0, 0));
    let z = Vec3::new(0, 0, 0);
    assert_eq!(z.unit_or(Vec3::new(0, 0, ONE)), Vec3::new(0, 0, ONE));
}

#[test]
fn ray_at_walks_the_ray() {
    let ray = Ray::new(Point3::new(ONE, 0, 0), Vec3::new(ONE, -ONE, 0), 0);
    let p = ray.at(2 * ONE);
    assert_eq!(p, Point3::new(3 * ONE, -2 * ONE, 0));
}

#[test]
fn front_face_orients_against_the_ray() {
    let ray = Ray::new_time_zero(Point3::new(0, 0, 0), Vec3::new(0, 0, ONE));
    let outward = Vec3::new(0, 0, ONE);
    let (front, normal) = ray_tracer::hittable::HitRecord::calc_front_face(ray, outward);
    assert!(!front);
    assert_eq!(normal, Vec3::new(0, 0, -ONE));
    let toward = Ray::new_time_zero(Point3::new(0, 0, 0), Vec3::new(0, 0, -ONE));
    let (front2, normal2) = ray_tracer::hittable::HitRecord::calc_front_face(toward, outward);
    assert!(front2);
    assert_eq!(normal2, outward);
}

// The pseudo-angle u agrees with the spherical map at the axis directions:
// +z is 1/2, +x is 3/4, -x is 1/4; v runs from 0 at the bottom pole to 1/2
// at the equator.
#[test]
fn sphere_uv_maps_poles_and_equator() {
    let sphere = Sphere::new_still(Point3::new(0, 0, 0), ONE, grey_material());
    let (u, v) = sphere.get_uv(Point3::new(ONE, 0, 0));
    assert_eq!(u, 3 * ONE / 4);
    assert_eq!(v, ONE / 2);
    let (u2, v2) = sphere.get_uv(Point3::new(0, -ONE, 0));
    assert_eq!(u2, ONE / 2);
    assert_eq!(v2, 0);
    let (u3, _) = sphere.get_uv(Point3::new(0, 0, ONE));
    assert_eq!(u3, ONE / 2);
    let (u4, _) = sphere.get_uv(Point3::new(-ONE, 0, 0));
    assert_eq!(u4, ONE / 4);
}

#[test]
fn diffuse_scatter_falls_back_to_normal() {
    let sphere = Sphere::new_still(Point3::new(0, 0, 0), ONE, grey_material());
    let ray = Ray::new_time_zero(Point3::new(-5 * ONE, 0, 0), Vec3::new(ONE, 0, 0));
    let rec = sphere.was_hit(ray, Interval::new(66, 1 << 40)).expect("must hit");
    // a sampled vector exactly opposite the normal degenerates to the normal
    let opposite = Vec3::new(ONE, 0, 0);
    let d = Material::diffuse_reflection(&rec, opposite);
    assert_eq!(d, rec.normal_vector);
    // otherwise the sample is added to the normal
    let tilted = Vec3::new(0, ONE, 0);
    let d2 = Material::diffuse_reflection(&rec, tilted);
    assert_eq!(d2, Vec3::new(-ONE, ONE, 0));
}
