//! Spheres and their ray intersection. The quadratic
//! `a t^2 - 2 h t + c = 0` is solved exactly in integer arithmetic: the
//! discriminant's square root is the flooring integer root, and the two
//! parametric hit times are flooring quotients. A hit time counts only if
//! the rounded position also lies inside the sphere's own bounding box,
//! which is what lets a bounding hierarchy prune without missing hits.

use vstd::prelude::*;
use crate::bounding_box::{AxisAlignedBoundingBox, rat_time_in_box, time_hits_box, time_in_box};
use crate::fixed::{floor_div_i128, isqrt_u128, lemma_div_bound, lemma_mul_bound,
    lemma_sqrt_floor_is, lemma_square_nonneg_pub, sqrt_floor};
use crate::hittable::HitRecord;
use crate::interval::Interval;
use crate::material::{Material, material_wf};
use crate::vec3::{MAX_TIME, Point3, Ray, Vec3, point_in_range, spec_dot, vec_in_range};

verus! {

#[derive(Debug)]
pub struct Sphere {
    pub center: Point3,
    pub radius: i64,
    pub material: Material,
    pub bounds: AxisAlignedBoundingBox,
}

/// Well-formed sphere: centre in range, positive bounded radius, cached
/// bounding box equal to centre plus/minus radius on each axis.
pub open spec fn sphere_wf(s: Sphere) -> bool {
    &&& -0x1000_0000 <= s.center.x <= 0x1000_0000
    &&& -0x1000_0000 <= s.center.y <= 0x1000_0000
    &&& -0x1000_0000 <= s.center.z <= 0x1000_0000
    &&& 1 <= s.radius <= 0x1000_0000
    &&& material_wf(s.material)
    &&& s.bounds.x.min == s.center.x - s.radius && s.bounds.x.max == s.center.x + s.radius
    &&& s.bounds.y.min == s.center.y - s.radius && s.bounds.y.max == s.center.y + s.radius
    &&& s.bounds.z.min == s.center.z - s.radius && s.bounds.z.max == s.center.z + s.radius
}

/// Quadratic coefficient `a`: the squared length of the ray direction.
pub open spec fn sph_a(ray: Ray) -> int {
    spec_dot(ray.direction, ray.direction)
}

/// Quadratic coefficient `h`: direction dotted with centre minus origin.
pub open spec fn sph_h(s: Sphere, ray: Ray) -> int {
    ray.direction.x * (s.center.x - ray.origin.x)
        + ray.direction.y * (s.center.y - ray.origin.y)
        + ray.direction.z * (s.center.z - ray.origin.z)
}

/// Quadratic coefficient `c`: squared centre offset minus squared radius.
pub open spec fn sph_c(s: Sphere, ray: Ray) -> int {
    (s.center.x - ray.origin.x) * (s.center.x - ray.origin.x)
        + (s.center.y - ray.origin.y) * (s.center.y - ray.origin.y)
        + (s.center.z - ray.origin.z) * (s.center.z - ray.origin.z)
        - s.radius * s.radius
}

/// The discriminant `h^2 - a c`.
pub open spec fn sph_disc(s: Sphere, ray: Ray) -> int {
    sph_h(s, ray) * sph_h(s, ray) - sph_a(ray) * sph_c(s, ray)
}

/// The nearer parametric hit time, in fixed point, rounded down.
pub open spec fn sphere_near_time(s: Sphere, ray: Ray) -> int {
    (65536 * (sph_h(s, ray) - sqrt_floor(sph_disc(s, ray)))) / sph_a(ray)
}

/// The farther parametric hit time, in fixed point, rounded down.
pub open spec fn sphere_far_time(s: Sphere, ray: Ray) -> int {
    (65536 * (sph_h(s, ray) + sqrt_floor(sph_disc(s, ray)))) / sph_a(ray)
}

/// A candidate hit time of the sphere for this ray: one of the two
/// quadratic roots, with the rounded position inside the sphere's box.
pub open spec fn sphere_cand(s: Sphere, ray: Ray, t: int) -> bool {
    &&& sph_a(ray) > 0
    &&& sph_disc(s, ray) >= 0
    &&& (t == sphere_near_time(s, ray) || t == sphere_far_time(s, ray))
    &&& rat_time_in_box(s.bounds, ray, t, 1)
}

/// Clamp a fixed-point value into the signed unit range.
pub open spec fn clamp_unit(x: int) -> int {
    if x < -65536 {
        -65536int
    } else if x > 65536 {
        65536int
    } else {
        x
    }
}

/// The circular surface coordinate: a fixed-point pseudo-angle of `(x, z)`
/// around the vertical axis, the piecewise-rational stand-in for the
/// spherical `0.5 + atan2(x, z) / (2 pi)`. It agrees with that formula at
/// every axis direction (`+z` gives 1/2, `+x` gives 3/4, `-z` wraps at 0,
/// `-x` gives 1/4) and is monotone around the circle; within each quadrant
/// the arc is interpolated rationally rather than trigonometrically.
pub open spec fn spec_pseudo_angle_u(x: int, z: int) -> int {
    let ax = if x < 0 { -x } else { x };
    let az = if z < 0 { -z } else { z };
    let d = ax + az;
    if d == 0 {
        32768
    } else {
        let a = if x >= 0 && z >= 0 {
            (x * 65536) / d
        } else if x >= 0 {
            65536 + (az * 65536) / d
        } else if z < 0 {
            131072 + (ax * 65536) / d
        } else {
            196608 + (z * 65536) / d
        };
        ((a + 131072) % 262144) / 4
    }
}

/// Surface coordinates from the outward unit normal: the longitude-like
/// `u` from the pseudo-angle of `(x, z)`, the latitude-like `v` mapped
/// affinely from the vertical component.
pub open spec fn spec_sphere_uv(outward: Vec3) -> (int, int) {
    (
        spec_pseudo_angle_u(clamp_unit(outward.x as int), clamp_unit(outward.z as int)),
        (clamp_unit(outward.y as int) + 65536) / 2,
    )
}

/// The pseudo-angle stays within the unit range.
pub proof fn lemma_pseudo_angle_unit(x: int, z: int)
    ensures
        0 <= spec_pseudo_angle_u(x, z) < 65536,
{
    let ax = if x < 0 { -x } else { x };
    let az = if z < 0 { -z } else { z };
    let d = ax + az;
    if d != 0 {
        if x >= 0 && z >= 0 {
            lemma_ratio_in_unit(x, d);
        } else if x >= 0 {
            lemma_ratio_in_unit(az, d);
        } else if z < 0 {
            lemma_ratio_in_unit(ax, d);
        } else {
            lemma_ratio_in_unit(z, d);
        }
        let a = if x >= 0 && z >= 0 {
            (x * 65536) / d
        } else if x >= 0 {
            65536 + (az * 65536) / d
        } else if z < 0 {
            131072 + (ax * 65536) / d
        } else {
            196608 + (z * 65536) / d
        };
        vstd::arithmetic::div_mod::lemma_mod_bound(a + 131072, 262144);
        vstd::arithmetic::div_mod::lemma_fundamental_div_mod((a + 131072) % 262144, 4);
    }
}

/// A numerator between zero and the positive denominator scales into the
/// fixed-point unit range.
proof fn lemma_ratio_in_unit(num: int, den: int)
    requires
        1 <= den,
        0 <= num <= den,
    ensures
        0 <= (num * 65536) / den <= 65536,
{
    assert(0 <= num * 65536 && num * 65536 <= 65536 * den) by (nonlinear_arith)
        requires 0 <= num <= den;
    lemma_div_bound(num * 65536, den, 65536);
    vstd::arithmetic::div_mod::lemma_fundamental_div_mod(num * 65536, den);
    assert((num * 65536) / den >= 0) by (nonlinear_arith)
        requires
            num * 65536 >= 0,
            den >= 1,
            den * ((num * 65536) / den) + (num * 65536) % den == num * 65536,
            0 <= (num * 65536) % den < den,
    ;
}

/// The executable pseudo-angle, exactly its specification.
fn pseudo_angle_u(x: i64, z: i64) -> (u: i64)
    requires
        -65537 <= x <= 65536,
        -65537 <= z <= 65536,
    ensures
        u == spec_pseudo_angle_u(x as int, z as int),
        0 <= u < 65536,
{
    proof {
        lemma_pseudo_angle_unit(x as int, z as int);
    }
    let ax: i64 = if x < 0 { -x } else { x };
    let az: i64 = if z < 0 { -z } else { z };
    let d = ax + az;
    if d == 0 {
        return 32768;
    }
    proof {
        if x >= 0 && z >= 0 {
            lemma_ratio_in_unit(x as int, d as int);
            vstd::arithmetic::div_mod::lemma_fundamental_div_mod(x as int * 65536, d as int);
        } else if x >= 0 {
            lemma_ratio_in_unit(az as int, d as int);
            vstd::arithmetic::div_mod::lemma_fundamental_div_mod(az as int * 65536, d as int);
        } else if z < 0 {
            lemma_ratio_in_unit(ax as int, d as int);
            vstd::arithmetic::div_mod::lemma_fundamental_div_mod(ax as int * 65536, d as int);
        } else {
            lemma_ratio_in_unit(z as int, d as int);
            vstd::arithmetic::div_mod::lemma_fundamental_div_mod(z as int * 65536, d as int);
        }
    }
    let a: i64 = if x >= 0 && z >= 0 {
        floor_div_i128(x as i128 * 65536, d as i128) as i64
    } else if x >= 0 {
        65536 + floor_div_i128(az as i128 * 65536, d as i128) as i64
    } else if z < 0 {
        131072 + floor_div_i128(ax as i128 * 65536, d as i128) as i64
    } else {
        196608 + floor_div_i128(z as i128 * 65536, d as i128) as i64
    };
    proof {
        vstd::arithmetic::div_mod::lemma_mod_bound(a as int + 131072, 262144);
        vstd::arithmetic::div_mod::lemma_fundamental_div_mod((a as int + 131072) % 262144, 4);
    }
    ((a + 131072) % 262144) / 4
}

/// The hit record the sphere produces for hit time `t`.
pub open spec fn sphere_record(s: Sphere, ray: Ray, t: i64) -> HitRecord {
    let point = Point3 {
        x: (ray.origin.x + (ray.direction.x * t) / 65536) as i64,
        y: (ray.origin.y + (ray.direction.y * t) / 65536) as i64,
        z: (ray.origin.z + (ray.direction.z * t) / 65536) as i64,
    };
    let outward = Vec3 {
        x: (((point.x - s.center.x) * 65536) / (s.radius as int)) as i64,
        y: (((point.y - s.center.y) * 65536) / (s.radius as int)) as i64,
        z: (((point.z - s.center.z) * 65536) / (s.radius as int)) as i64,
    };
    let front = spec_dot(ray.direction, outward) < 0;
    let normal = if front {
        outward
    } else {
        Vec3 { x: -outward.x as i64, y: -outward.y as i64, z: -outward.z as i64 }
    };
    let uv = spec_sphere_uv(outward);
    HitRecord {
        collision_point: point,
        normal_vector: normal,
        collision_time: t,
        front_face: front,
        material: s.material,
        u: uv.0 as i64,
        v: uv.1 as i64,
    }
}

impl Sphere {
    /// A sphere at a fixed centre, with its bounding box cached.
    pub fn new_still(center: Point3, radius: i64, material: Material) -> (s: Sphere)
        requires
            -0x1000_0000 <= center.x <= 0x1000_0000,
            -0x1000_0000 <= center.y <= 0x1000_0000,
            -0x1000_0000 <= center.z <= 0x1000_0000,
            1 <= radius <= 0x1000_0000,
            material_wf(material),
        ensures
            s.center == center && s.radius == radius && s.material == material,
            sphere_wf(s),
    {
        let radius_low = Point3::new(center.x - radius, center.y - radius, center.z - radius);
        let radius_high = Point3::new(center.x + radius, center.y + radius, center.z + radius);
        let bounds = AxisAlignedBoundingBox::new_from_corners(radius_low, radius_high);
        Sphere { center, radius, material, bounds }
    }

    /// Surface coordinates of a point on (or near) the sphere: computed
    /// from the outward normal direction, clamped into the unit range.
    pub fn get_uv(&self, point: Point3) -> (uv: (i64, i64))
        requires
            sphere_wf(*self),
            -0x8000_0000_0000 <= point.x <= 0x8000_0000_0000,
            -0x8000_0000_0000 <= point.y <= 0x8000_0000_0000,
            -0x8000_0000_0000 <= point.z <= 0x8000_0000_0000,
        ensures
            uv.0 == spec_pseudo_angle_u(
                clamp_unit(((point.x - self.center.x) * 65536) / (self.radius as int)),
                clamp_unit(((point.z - self.center.z) * 65536) / (self.radius as int)),
            ),
            uv.1 == (clamp_unit(((point.y - self.center.y) * 65536) / (self.radius as int)) + 65536) / 2,
            0 <= uv.0 <= 65536,
            0 <= uv.1 <= 65536,
    {
        let ox = clamp_scaled_ratio(point.x - self.center.x, self.radius);
        let oy = clamp_scaled_ratio(point.y - self.center.y, self.radius);
        let oz = clamp_scaled_ratio(point.z - self.center.z, self.radius);
        (pseudo_angle_u(ox, oz), half_shift(oy))
    }

    /// The two quadratic roots that fall strictly inside the query window,
    /// nearer root first. The window membership of the rounded position is
    /// not tested here: this is the raw quadratic.
    pub fn ray_intersections(&self, ray: Ray, interval: Interval) -> (r: (Option<i64>, Option<i64>))
        requires
            sphere_wf(*self),
            point_in_range(ray.origin),
            vec_in_range(ray.direction),
        ensures
            ({
                let ok = sph_a(ray) > 0 && sph_disc(*self, ray) >= 0;
                let near = sphere_near_time(*self, ray);
                let far = sphere_far_time(*self, ray);
                &&& r.0 is Some <==> (ok && interval.min < near < interval.max)
                &&& r.1 is Some <==> (ok && interval.min < far < interval.max)
                &&& (r.0 is Some ==> r.0->0 == near)
                &&& (r.1 is Some ==> r.1->0 == far)
            }),
    {
        let (ok, near, far) = sphere_roots(self, ray);
        if !ok {
            return (None, None);
        }
        let first = if (interval.min as i128) < near && near < (interval.max as i128) {
            Some(near as i64)
        } else {
            None
        };
        let second = if (interval.min as i128) < far && far < (interval.max as i128) {
            Some(far as i64)
        } else {
            None
        };
        (first, second)
    }

    /// The nearest hit of the ray on this sphere strictly inside the query
    /// window: the nearer root when it qualifies, else the farther root
    /// (which supports hits from inside the sphere), else no hit.
    pub fn was_hit(&self, ray: Ray, interval: Interval) -> (r: Option<HitRecord>)
        requires
            sphere_wf(*self),
            point_in_range(ray.origin),
            vec_in_range(ray.direction),
            -MAX_TIME <= interval.min <= MAX_TIME,
            -MAX_TIME <= interval.max <= MAX_TIME,
        ensures
            match r {
                Some(rec) => {
                    &&& sphere_cand(*self, ray, rec.collision_time as int)
                    &&& rec == sphere_record(*self, ray, rec.collision_time)
                    &&& interval.min < rec.collision_time < interval.max
                    &&& forall|t: int|
                        sphere_cand(*self, ray, t) && interval.min < t < interval.max
                            ==> rec.collision_time <= t
                },
                None => forall|t: int|
                    !(sphere_cand(*self, ray, t) && interval.min < t < interval.max),
            },
    {
        let (ok, near, far) = sphere_roots(self, ray);
        if !ok {
            return None;
        }
        if (interval.min as i128) < near && near < (interval.max as i128) {
            let t = near as i64;
            if time_hits_box(&self.bounds, ray, t) {
                return Some(self.make_record(ray, t));
            }
        }
        if (interval.min as i128) < far && far < (interval.max as i128) {
            let t = far as i64;
            if time_hits_box(&self.bounds, ray, t) {
                return Some(self.make_record(ray, t));
            }
        }
        None
    }

    /// Build the hit record for a qualifying hit time.
    fn make_record(&self, ray: Ray, t: i64) -> (rec: HitRecord)
        requires
            sphere_wf(*self),
            point_in_range(ray.origin),
            vec_in_range(ray.direction),
            -MAX_TIME <= t <= MAX_TIME,
            time_in_box(self.bounds, ray, t),
        ensures
            rec == sphere_record(*self, ray, t),
            rec.collision_time == t,
    {
        let point = ray.at(t);
        proof {
            lemma_point_near_center(*self, ray, t);
        }
        let dx = clamp_scaled_ratio_exact(point.x - self.center.x, self.radius);
        let dy = clamp_scaled_ratio_exact(point.y - self.center.y, self.radius);
        let dz = clamp_scaled_ratio_exact(point.z - self.center.z, self.radius);
        let outward = Vec3::new(dx, dy, dz);
        let (front_face, normal_vector) = HitRecord::calc_front_face(ray, outward);
        let uv = self.get_uv(point);
        HitRecord {
            collision_point: point,
            normal_vector,
            collision_time: t,
            front_face,
            material: self.material.clone(),
            u: uv.0,
            v: uv.1,
        }
    }
}

/// The raw quadratic: whether the direction is non-degenerate and the
/// discriminant nonnegative, and if so the two rounded roots.
fn sphere_roots(s: &Sphere, ray: Ray) -> (r: (bool, i128, i128))
    requires
        sphere_wf(*s),
        point_in_range(ray.origin),
        vec_in_range(ray.direction),
    ensures
        r.0 == (sph_a(ray) > 0 && sph_disc(*s, ray) >= 0),
        r.0 ==> r.1 == sphere_near_time(*s, ray),
        r.0 ==> r.2 == sphere_far_time(*s, ray),
        r.0 ==> r.1 <= r.2,
{
    let d = ray.direction;
    let ocx: i64 = s.center.x - ray.origin.x;
    let ocy: i64 = s.center.y - ray.origin.y;
    let ocz: i64 = s.center.z - ray.origin.z;
    proof {
        lemma_mul_bound(d.x as int, d.x as int, 0x2000_0000, 0x2000_0000);
        lemma_mul_bound(d.y as int, d.y as int, 0x2000_0000, 0x2000_0000);
        lemma_mul_bound(d.z as int, d.z as int, 0x2000_0000, 0x2000_0000);
        lemma_mul_bound(d.x as int, ocx as int, 0x2000_0000, 0x4000_0000);
        lemma_mul_bound(d.y as int, ocy as int, 0x2000_0000, 0x4000_0000);
        lemma_mul_bound(d.z as int, ocz as int, 0x2000_0000, 0x4000_0000);
        lemma_mul_bound(ocx as int, ocx as int, 0x4000_0000, 0x4000_0000);
        lemma_mul_bound(ocy as int, ocy as int, 0x4000_0000, 0x4000_0000);
        lemma_mul_bound(ocz as int, ocz as int, 0x4000_0000, 0x4000_0000);
        lemma_mul_bound(s.radius as int, s.radius as int, 0x1000_0000, 0x1000_0000);
        lemma_square_nonneg_pub(d.x as int);
        lemma_square_nonneg_pub(d.y as int);
        lemma_square_nonneg_pub(d.z as int);
    }
    let a: i128 = d.x as i128 * d.x as i128 + d.y as i128 * d.y as i128 + d.z as i128 * d.z as i128;
    let h: i128 = d.x as i128 * ocx as i128 + d.y as i128 * ocy as i128 + d.z as i128 * ocz as i128;
    let c: i128 = ocx as i128 * ocx as i128 + ocy as i128 * ocy as i128 + ocz as i128 * ocz as i128
        - s.radius as i128 * s.radius as i128;
    proof {
        lemma_mul_bound(h as int, h as int, 0x1800_0000_0000_0000, 0x1800_0000_0000_0000);
        lemma_mul_bound(a as int, c as int, 0xC00_0000_0000_0000, 0x3100_0000_0000_0000);
    }
    let disc: i128 = h * h - a * c;
    if a == 0 || disc < 0 {
        proof {
            if a != 0 {
                assert(a > 0);
            }
        }
        return (false, 0, 0);
    }
    proof {
        assert(0x1800_0000_0000_0000int * 0x1800_0000_0000_0000int
            + 0xC00_0000_0000_0000int * 0x3100_0000_0000_0000int
            <= 0x4000_0000_0000_0000_0000_0000_0000_0000int);
    }
    let q = isqrt_u128(disc as u128);
    proof {
        lemma_sqrt_floor_is(disc as int, q as int);
        assert(q <= 0x8000_0000_0000_0000u128) by (nonlinear_arith)
            requires
                q as int * q as int <= 0x4000_0000_0000_0000_0000_0000_0000_0000int,
        ;
    }
    let near = floor_div_i128(65536 * (h - q as i128), a);
    let far = floor_div_i128(65536 * (h + q as i128), a);
    proof {
        vstd::arithmetic::div_mod::lemma_div_is_ordered(
            65536 * (h as int - q as int), 65536 * (h as int + q as int), a as int);
    }
    (true, near, far)
}

/// From box membership of the rounded position at time `t`, each coordinate
/// of `ray.at(t)` is within the radius of the centre.
pub proof fn lemma_point_near_center(s: Sphere, ray: Ray, t: i64)
    requires
        sphere_wf(s),
        point_in_range(ray.origin),
        vec_in_range(ray.direction),
        time_in_box(s.bounds, ray, t),
    ensures
        -(s.radius as int) <= ray.origin.x + (ray.direction.x * t) / 65536 - s.center.x
            <= s.radius as int,
        -(s.radius as int) <= ray.origin.y + (ray.direction.y * t) / 65536 - s.center.y
            <= s.radius as int,
        -(s.radius as int) <= ray.origin.z + (ray.direction.z * t) / 65536 - s.center.z
            <= s.radius as int,
{
    lemma_axis_floor_in(s.bounds.x.min as int, s.bounds.x.max as int,
        ray.origin.x as int, ray.direction.x as int, t as int);
    lemma_axis_floor_in(s.bounds.y.min as int, s.bounds.y.max as int,
        ray.origin.y as int, ray.direction.y as int, t as int);
    lemma_axis_floor_in(s.bounds.z.min as int, s.bounds.z.max as int,
        ray.origin.z as int, ray.direction.z as int, t as int);
}

/// On one axis: if the exact rational position at `t` lies within
/// `[mn, mx]`, then the floored fixed-point position does too.
pub proof fn lemma_axis_floor_in(mn: int, mx: int, o: int, d: int, t: int)
    requires
        65536 * mn * 1 <= 65536 * o * 1 + t * d,
        65536 * o * 1 + t * d <= 65536 * mx * 1,
    ensures
        mn <= o + (d * t) / 65536 <= mx,
{
    vstd::arithmetic::div_mod::lemma_fundamental_div_mod(d * t, 65536);
    let q = (d * t) / 65536;
    assert(d * t == t * d) by (nonlinear_arith);
    assert(65536 * mn <= 65536 * o + t * d) by {
        assert(65536 * mn * 1 == 65536 * mn) by (nonlinear_arith);
        assert(65536 * o * 1 == 65536 * o) by (nonlinear_arith);
    }
    assert(65536 * o + t * d <= 65536 * mx) by {
        assert(65536 * mx * 1 == 65536 * mx) by (nonlinear_arith);
        assert(65536 * o * 1 == 65536 * o) by (nonlinear_arith);
    }
    // 65536 q <= t d < 65536 q + 65536, so q stays within the slab bounds
    assert(mn <= o + q <= mx);
}

/// `clamp_unit` of the scaled ratio `(diff * FP_ONE) / radius`, for inputs
/// with no magnitude promise.
fn clamp_scaled_ratio(diff: i64, radius: i64) -> (r: i64)
    requires
        1 <= radius <= 0x1000_0000,
        -0x1_0000_0000_0000 <= diff <= 0x1_0000_0000_0000,
    ensures
        r == clamp_unit((diff * 65536) / (radius as int)),
        -65536 <= r <= 65536,
{
    let q = floor_div_i128(diff as i128 * 65536, radius as i128);
    if q < -65536 {
        -65536
    } else if q > 65536 {
        65536
    } else {
        q as i64
    }
}

/// The scaled ratio `(diff * FP_ONE) / radius` when the difference is known
/// to be within the radius: no clamping occurs except at the exact bounds.
fn clamp_scaled_ratio_exact(diff: i64, radius: i64) -> (r: i64)
    requires
        1 <= radius <= 0x1000_0000,
        -(radius as int) <= diff <= radius as int,
    ensures
        r == (diff * 65536) / (radius as int),
        r == clamp_unit((diff * 65536) / (radius as int)),
        -65536 <= r <= 65536,
    {
    proof {
        assert(-(65536int * radius as int) <= diff as int * 65536
            && diff as int * 65536 <= 65536int * radius as int) by (nonlinear_arith)
            requires -(radius as int) <= diff as int <= radius as int;
        lemma_div_bound(diff as int * 65536, radius as int, 65536);
        vstd::arithmetic::div_mod::lemma_fundamental_div_mod(
            diff as int * 65536, radius as int);
        // the quotient cannot round below the exact lower bound
        assert((diff as int * 65536) / (radius as int) >= -65536) by (nonlinear_arith)
            requires
                diff as int * 65536 >= -(65536int * radius as int),
                radius as int >= 1,
                radius as int * ((diff as int * 65536) / (radius as int))
                    + (diff as int * 65536) % (radius as int) == diff as int * 65536,
                0 <= (diff as int * 65536) % (radius as int) < radius as int,
        ;
    }
    let q = floor_div_i128(diff as i128 * 65536, radius as i128);
    q as i64
}

/// Affine shift from `[-FP_ONE, FP_ONE]` to `[0, FP_ONE]`.
fn half_shift(x: i64) -> (r: i64)
    requires
        -65536 <= x <= 65536,
    ensures
        r == (x + 65536) / 2,
        0 <= r <= 65536,
{
    (x + 65536) / 2
}

/// The fields of a sphere's hit record for a candidate time are well
/// behaved: the point is in range, the normal is near unit length, the
/// surface coordinates are in the unit range, and the material is the
/// sphere's.
pub proof fn lemma_sphere_record_props(s: Sphere, ray: Ray, t: i64)
    requires
        sphere_wf(s),
        point_in_range(ray.origin),
        vec_in_range(ray.direction),
        sphere_cand(s, ray, t as int),
    ensures
        ({
            let rec = sphere_record(s, ray, t);
            &&& point_in_range(rec.collision_point)
            &&& -0x2_0000 <= rec.normal_vector.x <= 0x2_0000
            &&& -0x2_0000 <= rec.normal_vector.y <= 0x2_0000
            &&& -0x2_0000 <= rec.normal_vector.z <= 0x2_0000
            &&& 0 <= rec.u <= 65536
            &&& 0 <= rec.v <= 65536
            &&& rec.material == s.material
        }),
{
    lemma_point_near_center(s, ray, t);
    let px = ray.origin.x + (ray.direction.x * t) / 65536;
    let py = ray.origin.y + (ray.direction.y * t) / 65536;
    let pz = ray.origin.z + (ray.direction.z * t) / 65536;
    lemma_outward_bounded(px - s.center.x, s.radius as int);
    lemma_outward_bounded(py - s.center.y, s.radius as int);
    lemma_outward_bounded(pz - s.center.z, s.radius as int);
}

/// The scaled ratio of a difference within the radius stays in the signed
/// unit range.
proof fn lemma_outward_bounded(diff: int, radius: int)
    requires
        1 <= radius,
        -radius <= diff <= radius,
    ensures
        -65536 <= (diff * 65536) / radius <= 65536,
{
    assert(-(65536 * radius) <= diff * 65536 && diff * 65536 <= 65536 * radius)
        by (nonlinear_arith)
        requires -radius <= diff <= radius, 1 <= radius;
    lemma_div_bound(diff * 65536, radius, 65536);
    vstd::arithmetic::div_mod::lemma_fundamental_div_mod(diff * 65536, radius);
    assert((diff * 65536) / radius >= -65536) by (nonlinear_arith)
        requires
            diff * 65536 >= -(65536 * radius),
            radius >= 1,
            radius * ((diff * 65536) / radius) + (diff * 65536) % radius == diff * 65536,
            0 <= (diff * 65536) % radius < radius,
    ;
}

} // verus!
