//! Triangles and their ray intersection by the Möller-Trumbore method,
//! carried out exactly: the barycentric conditions are stated on the
//! determinant-scaled numerators (sign-normalised so the denominator is
//! positive), and only the final hit time and coordinates are rounded to
//! fixed point.

use vstd::prelude::*;
use crate::bounding_box::{AxisAlignedBoundingBox, rat_time_in_box};
use crate::fixed::{floor_div_i128, isqrt_u128, lemma_div_bound, lemma_mul_bound,
    lemma_sqrt_floor_is, lemma_square_nonneg_pub, sqrt_floor};
use crate::hittable::HitRecord;
use crate::interval::Interval;
use crate::material::{Material, material_wf};
use crate::vec3::{MAX_TIME, Point3, Ray, Vec3, point_in_range, spec_dot, vec_in_range};

verus! {

#[derive(Debug)]
pub struct Triangle {
    pub corner_one: Point3,
    pub corner_two: Point3,
    pub corner_three: Point3,
    pub material: Material,
    pub normal: Vec3,
    pub bounds: AxisAlignedBoundingBox,
}

/// The cross product of the two edge vectors out of the first corner.
pub open spec fn tri_cross(t: Triangle) -> (int, int, int) {
    let e1x = t.corner_two.x - t.corner_one.x;
    let e1y = t.corner_two.y - t.corner_one.y;
    let e1z = t.corner_two.z - t.corner_one.z;
    let e2x = t.corner_three.x - t.corner_one.x;
    let e2y = t.corner_three.y - t.corner_one.y;
    let e2z = t.corner_three.z - t.corner_one.z;
    (e1y * e2z - e1z * e2y, e1z * e2x - e1x * e2z, e1x * e2y - e1y * e2x)
}

/// The unit face normal: the edge cross product scaled to fixed-point unit
/// length, or zero for a degenerate triangle.
pub open spec fn spec_tri_normal(t: Triangle) -> Vec3 {
    let (cx, cy, cz) = tri_cross(t);
    let len = sqrt_floor(cx * cx + cy * cy + cz * cz);
    if len == 0 {
        Vec3 { x: 0i64, y: 0i64, z: 0i64 }
    } else {
        Vec3 {
            x: ((cx * 65536) / len) as i64,
            y: ((cy * 65536) / len) as i64,
            z: ((cz * 65536) / len) as i64,
        }
    }
}

/// The per-axis extent of the three corners.
pub open spec fn spec_tri_bounds(t: Triangle) -> AxisAlignedBoundingBox {
    AxisAlignedBoundingBox {
        x: crate::interval::Interval {
            min: min3(t.corner_one.x, t.corner_two.x, t.corner_three.x),
            max: max3(t.corner_one.x, t.corner_two.x, t.corner_three.x),
        },
        y: crate::interval::Interval {
            min: min3(t.corner_one.y, t.corner_two.y, t.corner_three.y),
            max: max3(t.corner_one.y, t.corner_two.y, t.corner_three.y),
        },
        z: crate::interval::Interval {
            min: min3(t.corner_one.z, t.corner_two.z, t.corner_three.z),
            max: max3(t.corner_one.z, t.corner_two.z, t.corner_three.z),
        },
    }
}

/// A triangle corner stays within half the coordinate band, so hit points
/// rounded near the box stay within the full band.
pub open spec fn corner_in_band(p: Point3) -> bool {
    -0x1000_0000 <= p.x <= 0x1000_0000 && -0x1000_0000 <= p.y <= 0x1000_0000
        && -0x1000_0000 <= p.z <= 0x1000_0000
}

pub open spec fn min3(a: i64, b: i64, c: i64) -> i64 {
    if a <= b && a <= c { a } else if b <= c { b } else { c }
}

pub open spec fn max3(a: i64, b: i64, c: i64) -> i64 {
    if a >= b && a >= c { a } else if b >= c { b } else { c }
}

/// Well-formed triangle: corners in range, cached box and normal equal to
/// their defining formulas.
pub open spec fn triangle_wf(t: Triangle) -> bool {
    &&& corner_in_band(t.corner_one)
    &&& corner_in_band(t.corner_two)
    &&& corner_in_band(t.corner_three)
    &&& material_wf(t.material)
    &&& t.bounds == spec_tri_bounds(t)
    &&& t.normal == spec_tri_normal(t)
    &&& -65537 <= t.normal.x <= 65536
    &&& -65537 <= t.normal.y <= 65536
    &&& -65537 <= t.normal.z <= 65536
}

/// The Möller-Trumbore determinant `e1 . (d x e2)`.
pub open spec fn mt_det(t: Triangle, ray: Ray) -> int {
    let e1x = t.corner_two.x - t.corner_one.x;
    let e1y = t.corner_two.y - t.corner_one.y;
    let e1z = t.corner_two.z - t.corner_one.z;
    let (rx, ry, rz) = mt_ray_cross_e2(t, ray);
    e1x * rx + e1y * ry + e1z * rz
}

/// `d x e2`.
pub open spec fn mt_ray_cross_e2(t: Triangle, ray: Ray) -> (int, int, int) {
    let e2x = t.corner_three.x - t.corner_one.x;
    let e2y = t.corner_three.y - t.corner_one.y;
    let e2z = t.corner_three.z - t.corner_one.z;
    let dx = ray.direction.x as int;
    let dy = ray.direction.y as int;
    let dz = ray.direction.z as int;
    (dy * e2z - dz * e2y, dz * e2x - dx * e2z, dx * e2y - dy * e2x)
}

/// `s x e1` where `s` is the origin offset from the first corner.
pub open spec fn mt_s_cross_e1(t: Triangle, ray: Ray) -> (int, int, int) {
    let e1x = t.corner_two.x - t.corner_one.x;
    let e1y = t.corner_two.y - t.corner_one.y;
    let e1z = t.corner_two.z - t.corner_one.z;
    let sx = ray.origin.x - t.corner_one.x;
    let sy = ray.origin.y - t.corner_one.y;
    let sz = ray.origin.z - t.corner_one.z;
    (sy * e1z - sz * e1y, sz * e1x - sx * e1z, sx * e1y - sy * e1x)
}

/// Numerator of the barycentric `u`: `s . (d x e2)`.
pub open spec fn mt_u_num(t: Triangle, ray: Ray) -> int {
    let (rx, ry, rz) = mt_ray_cross_e2(t, ray);
    (ray.origin.x - t.corner_one.x) * rx + (ray.origin.y - t.corner_one.y) * ry
        + (ray.origin.z - t.corner_one.z) * rz
}

/// Numerator of the barycentric `v`: `d . (s x e1)`.
pub open spec fn mt_v_num(t: Triangle, ray: Ray) -> int {
    let (sx, sy, sz) = mt_s_cross_e1(t, ray);
    ray.direction.x * sx + ray.direction.y * sy + ray.direction.z * sz
}

/// Numerator of the hit time: `e2 . (s x e1)`.
pub open spec fn mt_t_num(t: Triangle, ray: Ray) -> int {
    let (sx, sy, sz) = mt_s_cross_e1(t, ray);
    (t.corner_three.x - t.corner_one.x) * sx + (t.corner_three.y - t.corner_one.y) * sy
        + (t.corner_three.z - t.corner_one.z) * sz
}

/// The barycentric conditions with the determinant's sign normalised away:
/// `0 <= u`, `0 <= v` and `u + v <= 1` as integer inequalities on the
/// determinant-scaled numerators.
pub open spec fn mt_inside(t: Triangle, ray: Ray) -> bool {
    let det = mt_det(t, ray);
    let u = if det < 0 { -mt_u_num(t, ray) } else { mt_u_num(t, ray) };
    let v = if det < 0 { -mt_v_num(t, ray) } else { mt_v_num(t, ray) };
    let sd = if det < 0 { -det } else { det };
    0 <= u && 0 <= v && u + v <= sd
}

/// The determinant's magnitude: the positive denominator all barycentric
/// ratios are taken over.
pub open spec fn mt_sdet(t: Triangle, ray: Ray) -> int {
    let det = mt_det(t, ray);
    if det < 0 { -det } else { det }
}

/// The hit-time numerator, sign-normalised to the positive denominator.
pub open spec fn mt_tnum_norm(t: Triangle, ray: Ray) -> int {
    if mt_det(t, ray) < 0 { -mt_t_num(t, ray) } else { mt_t_num(t, ray) }
}

/// The fixed-point hit time: the exact rational time rounded down.
pub open spec fn mt_time(t: Triangle, ray: Ray) -> int {
    (mt_tnum_norm(t, ray) * 65536) / mt_sdet(t, ray)
}

/// The fixed-point barycentric coordinates, rounded down.
pub open spec fn mt_u_fp(t: Triangle, ray: Ray) -> int {
    let det = mt_det(t, ray);
    let un = if det < 0 { -mt_u_num(t, ray) } else { mt_u_num(t, ray) };
    let sd = if det < 0 { -det } else { det };
    (un * 65536) / sd
}

pub open spec fn mt_v_fp(t: Triangle, ray: Ray) -> int {
    let det = mt_det(t, ray);
    let vn = if det < 0 { -mt_v_num(t, ray) } else { mt_v_num(t, ray) };
    let sd = if det < 0 { -det } else { det };
    (vn * 65536) / sd
}

/// A candidate hit time of the triangle: the ray is not parallel, the
/// barycentric coordinates lie inside the triangle, the rounded time is
/// positive, and the position at the *exact rational* hit time lies inside
/// the triangle's box (which a true hit always does, however thin the box).
pub open spec fn triangle_cand(t: Triangle, ray: Ray, tt: int) -> bool {
    &&& mt_det(t, ray) != 0
    &&& mt_inside(t, ray)
    &&& tt == mt_time(t, ray)
    &&& tt > 0
    &&& rat_time_in_box(t.bounds, ray, 65536 * mt_tnum_norm(t, ray), mt_sdet(t, ray))
}

/// The hit record the triangle produces for hit time `tt`.
pub open spec fn triangle_record(t: Triangle, ray: Ray, tt: i64) -> HitRecord {
    let point = Point3 {
        x: (ray.origin.x + (ray.direction.x * tt) / 65536) as i64,
        y: (ray.origin.y + (ray.direction.y * tt) / 65536) as i64,
        z: (ray.origin.z + (ray.direction.z * tt) / 65536) as i64,
    };
    let front = spec_dot(ray.direction, t.normal) < 0;
    let normal = if front {
        t.normal
    } else {
        Vec3 { x: -t.normal.x as i64, y: -t.normal.y as i64, z: -t.normal.z as i64 }
    };
    HitRecord {
        collision_point: point,
        normal_vector: normal,
        collision_time: tt,
        front_face: front,
        material: t.material,
        u: mt_u_fp(t, ray) as i64,
        v: mt_v_fp(t, ray) as i64,
    }
}

impl Triangle {
    /// Build a triangle, caching its face normal and bounding box.
    pub fn new(corner_one: Point3, corner_two: Point3, corner_three: Point3, material: Material)
        -> (t: Triangle)
        requires
            corner_in_band(corner_one),
            corner_in_band(corner_two),
            corner_in_band(corner_three),
            material_wf(material),
        ensures
            t.corner_one == corner_one && t.corner_two == corner_two
                && t.corner_three == corner_three && t.material == material,
            triangle_wf(t),
    {
        let e1x: i64 = corner_two.x - corner_one.x;
        let e1y: i64 = corner_two.y - corner_one.y;
        let e1z: i64 = corner_two.z - corner_one.z;
        let e2x: i64 = corner_three.x - corner_one.x;
        let e2y: i64 = corner_three.y - corner_one.y;
        let e2z: i64 = corner_three.z - corner_one.z;
        proof {
            lemma_mul_bound(e1y as int, e2z as int, 0x4000_0000, 0x4000_0000);
            lemma_mul_bound(e1z as int, e2y as int, 0x4000_0000, 0x4000_0000);
            lemma_mul_bound(e1z as int, e2x as int, 0x4000_0000, 0x4000_0000);
            lemma_mul_bound(e1x as int, e2z as int, 0x4000_0000, 0x4000_0000);
            lemma_mul_bound(e1x as int, e2y as int, 0x4000_0000, 0x4000_0000);
            lemma_mul_bound(e1y as int, e2x as int, 0x4000_0000, 0x4000_0000);
        }
        let cx: i128 = e1y as i128 * e2z as i128 - e1z as i128 * e2y as i128;
        let cy: i128 = e1z as i128 * e2x as i128 - e1x as i128 * e2z as i128;
        let cz: i128 = e1x as i128 * e2y as i128 - e1y as i128 * e2x as i128;
        proof {
            lemma_mul_bound(cx as int, cx as int, 0x2000_0000_0000_0000, 0x2000_0000_0000_0000);
            lemma_mul_bound(cy as int, cy as int, 0x2000_0000_0000_0000, 0x2000_0000_0000_0000);
            lemma_mul_bound(cz as int, cz as int, 0x2000_0000_0000_0000, 0x2000_0000_0000_0000);
            lemma_square_nonneg_pub(cx as int);
            lemma_square_nonneg_pub(cy as int);
            lemma_square_nonneg_pub(cz as int);
        }
        let len_sq: i128 = cx * cx + cy * cy + cz * cz;
        let len_root = isqrt_u128(len_sq as u128);
        proof {
            lemma_sqrt_floor_is(len_sq as int, len_root as int);
            assert(0x2000_0000_0000_0000int * 0x2000_0000_0000_0000int
                == 0x400_0000_0000_0000_0000_0000_0000_0000int) by (nonlinear_arith);
            assert(len_root <= 0x1_0000_0000_0000_0000u128) by (nonlinear_arith)
                requires
                    len_root as int * len_root as int
                        <= 3 * 0x400_0000_0000_0000_0000_0000_0000_0000int,
            ;
        }
        let normal: Vec3 = if len_root == 0 {
            Vec3::new(0, 0, 0)
        } else {
            let len = len_root as i128;
            proof {
                assert({
                    &&& -(len as int) <= cx <= len as int
                    &&& -(len as int) <= cy <= len as int
                    &&& -(len as int) <= cz <= len as int
                }) by (nonlinear_arith)
                    requires
                        len as int >= 0,
                        cx * cx <= len_sq as int,
                        cy * cy <= len_sq as int,
                        cz * cz <= len_sq as int,
                        (len as int + 1) * (len as int + 1) > len_sq as int,
                ;
                assert(-(65536int * (len as int)) <= cx * 65536 <= 65536int * (len as int)
                    && -(65536int * (len as int)) <= cy * 65536 <= 65536int * (len as int)
                    && -(65536int * (len as int)) <= cz * 65536 <= 65536int * (len as int))
                    by (nonlinear_arith)
                    requires
                        -(len as int) <= cx <= len as int,
                        -(len as int) <= cy <= len as int,
                        -(len as int) <= cz <= len as int,
                ;
                lemma_div_bound(cx as int * 65536, len as int, 65536);
                lemma_div_bound(cy as int * 65536, len as int, 65536);
                lemma_div_bound(cz as int * 65536, len as int, 65536);
            }
            let nx = floor_div_i128(cx * 65536, len);
            let ny = floor_div_i128(cy * 65536, len);
            let nz = floor_div_i128(cz * 65536, len);
            Vec3::new(nx as i64, ny as i64, nz as i64)
        };
        let bx = Interval::new(
            min3_exec(corner_one.x, corner_two.x, corner_three.x),
            max3_exec(corner_one.x, corner_two.x, corner_three.x),
        );
        let by = Interval::new(
            min3_exec(corner_one.y, corner_two.y, corner_three.y),
            max3_exec(corner_one.y, corner_two.y, corner_three.y),
        );
        let bz = Interval::new(
            min3_exec(corner_one.z, corner_two.z, corner_three.z),
            max3_exec(corner_one.z, corner_two.z, corner_three.z),
        );
        let bounds = AxisAlignedBoundingBox::new(bx, by, bz);
        Triangle { corner_one, corner_two, corner_three, material, normal, bounds }
    }

    /// The hit of the ray on this triangle strictly inside the query
    /// window, if any: at most one candidate time exists.
    pub fn was_hit(&self, ray: Ray, interval: Interval) -> (r: Option<HitRecord>)
        requires
            triangle_wf(*self),
            point_in_range(ray.origin),
            vec_in_range(ray.direction),
            -MAX_TIME <= interval.min <= MAX_TIME,
            -MAX_TIME <= interval.max <= MAX_TIME,
        ensures
            match r {
                Some(rec) => {
                    &&& triangle_cand(*self, ray, rec.collision_time as int)
                    &&& rec == triangle_record(*self, ray, rec.collision_time)
                    &&& interval.min < rec.collision_time < interval.max
                    &&& forall|t: int|
                        triangle_cand(*self, ray, t) && interval.min < t < interval.max
                            ==> rec.collision_time <= t
                },
                None => forall|t: int|
                    !(triangle_cand(*self, ray, t) && interval.min < t < interval.max),
            },
    {
        let (det, unum, vnum, tnum) = mt_numerators(self, ray);
        if det == 0 {
            return None;
        }
        let (sdet, sunum, svnum, stnum): (i128, i128, i128, i128) = if det < 0 {
            (-det, -unum, -vnum, -tnum)
        } else {
            (det, unum, vnum, tnum)
        };
        if sunum < 0 || svnum < 0 || sunum + svnum > sdet {
            return None;
        }
        proof {
            lemma_mul_bound(stnum as int, 65536, 0x4000_0000_0000_0000_0000_0000, 65536);
        }
        let t128 = floor_div_i128(stnum * 65536, sdet);
        if t128 <= 0 {
            return None;
        }
        if !((interval.min as i128) < t128 && t128 < (interval.max as i128)) {
            return None;
        }
        let tt = t128 as i64;
        if !exact_time_hits_box(&self.bounds, ray, stnum, sdet) {
            return None;
        }
        proof {
            assert(0 <= sunum * 65536 && sunum * 65536 <= sdet * 65536
                && 0 <= svnum * 65536 && svnum * 65536 <= sdet * 65536) by (nonlinear_arith)
                requires
                    0 <= sunum as int,
                    0 <= svnum as int,
                    sunum as int + svnum as int <= sdet as int,
            ;
            assert(sdet as int * 65536 == 65536int * (sdet as int)) by (nonlinear_arith);
            lemma_div_bound(sunum as int * 65536, sdet as int, 65536);
            lemma_div_bound(svnum as int * 65536, sdet as int, 65536);
            vstd::arithmetic::div_mod::lemma_fundamental_div_mod(
                sunum as int * 65536, sdet as int);
            vstd::arithmetic::div_mod::lemma_fundamental_div_mod(
                svnum as int * 65536, sdet as int);
        }
        let u = floor_div_i128(sunum * 65536, sdet) as i64;
        let v = floor_div_i128(svnum * 65536, sdet) as i64;
        let point = ray.at(tt);
        let (front_face, normal_vector) = HitRecord::calc_front_face(ray, self.normal);
        Some(HitRecord {
            collision_point: point,
            normal_vector,
            collision_time: tt,
            front_face,
            material: self.material.clone(),
            u,
            v,
        })
    }
}

/// Exact membership of the rational time `stnum / sdet` (in whole units;
/// `65536 * stnum / sdet` in fixed point) in the box: each scaled-position
/// inequality is divided through by the common factor so it fits machine
/// arithmetic.
fn exact_time_hits_box(b: &AxisAlignedBoundingBox, ray: Ray, stnum: i128, sdet: i128) -> (r: bool)
    requires
        point_in_range(ray.origin),
        vec_in_range(ray.direction),
        0 < sdet <= 0x4000_0000_0000_0000_0000_0000,
        -0x4000_0000_0000_0000_0000_0000 <= stnum <= 0x4000_0000_0000_0000_0000_0000,
        -0x2000_0000 <= b.x.min <= 0x2000_0000 && -0x2000_0000 <= b.x.max <= 0x2000_0000,
        -0x2000_0000 <= b.y.min <= 0x2000_0000 && -0x2000_0000 <= b.y.max <= 0x2000_0000,
        -0x2000_0000 <= b.z.min <= 0x2000_0000 && -0x2000_0000 <= b.z.max <= 0x2000_0000,
    ensures
        r == rat_time_in_box(*b, ray, 65536 * stnum as int, sdet as int),
{
    proof {
        lemma_exact_axis_scale(b.x.min as int, b.x.max as int, ray.origin.x as int,
            ray.direction.x as int, stnum as int, sdet as int);
        lemma_exact_axis_scale(b.y.min as int, b.y.max as int, ray.origin.y as int,
            ray.direction.y as int, stnum as int, sdet as int);
        lemma_exact_axis_scale(b.z.min as int, b.z.max as int, ray.origin.z as int,
            ray.direction.z as int, stnum as int, sdet as int);
        lemma_mul_bound(ray.origin.x as int, sdet as int, 0x2000_0000,
            0x4000_0000_0000_0000_0000_0000);
        lemma_mul_bound(ray.origin.y as int, sdet as int, 0x2000_0000,
            0x4000_0000_0000_0000_0000_0000);
        lemma_mul_bound(ray.origin.z as int, sdet as int, 0x2000_0000,
            0x4000_0000_0000_0000_0000_0000);
        lemma_mul_bound(stnum as int, ray.direction.x as int,
            0x4000_0000_0000_0000_0000_0000, 0x2000_0000);
        lemma_mul_bound(stnum as int, ray.direction.y as int,
            0x4000_0000_0000_0000_0000_0000, 0x2000_0000);
        lemma_mul_bound(stnum as int, ray.direction.z as int,
            0x4000_0000_0000_0000_0000_0000, 0x2000_0000);
        lemma_mul_bound(b.x.min as int, sdet as int, 0x2000_0000,
            0x4000_0000_0000_0000_0000_0000);
        lemma_mul_bound(b.x.max as int, sdet as int, 0x2000_0000,
            0x4000_0000_0000_0000_0000_0000);
        lemma_mul_bound(b.y.min as int, sdet as int, 0x2000_0000,
            0x4000_0000_0000_0000_0000_0000);
        lemma_mul_bound(b.y.max as int, sdet as int, 0x2000_0000,
            0x4000_0000_0000_0000_0000_0000);
        lemma_mul_bound(b.z.min as int, sdet as int, 0x2000_0000,
            0x4000_0000_0000_0000_0000_0000);
        lemma_mul_bound(b.z.max as int, sdet as int, 0x2000_0000,
            0x4000_0000_0000_0000_0000_0000);
    }
    let px: i128 = ray.origin.x as i128 * sdet + stnum * ray.direction.x as i128;
    let py: i128 = ray.origin.y as i128 * sdet + stnum * ray.direction.y as i128;
    let pz: i128 = ray.origin.z as i128 * sdet + stnum * ray.direction.z as i128;
    b.x.min as i128 * sdet <= px && px <= b.x.max as i128 * sdet
        && b.y.min as i128 * sdet <= py && py <= b.y.max as i128 * sdet
        && b.z.min as i128 * sdet <= pz && pz <= b.z.max as i128 * sdet
}

/// On one axis, membership of the fixed-point rational `65536 stnum / sdet`
/// is the unscaled inequality on `stnum / sdet`: the common factor 65536
/// divides out of every term.
proof fn lemma_exact_axis_scale(mn: int, mx: int, o: int, d: int, stnum: int, sdet: int)
    requires
        sdet > 0,
    ensures
        (65536 * mn * sdet <= 65536 * o * sdet + (65536 * stnum) * d
            && 65536 * o * sdet + (65536 * stnum) * d <= 65536 * mx * sdet)
            <==> (mn * sdet <= o * sdet + stnum * d && o * sdet + stnum * d <= mx * sdet),
{
    assert((65536 * mn * sdet <= 65536 * o * sdet + (65536 * stnum) * d
        && 65536 * o * sdet + (65536 * stnum) * d <= 65536 * mx * sdet)
        <==> (mn * sdet <= o * sdet + stnum * d && o * sdet + stnum * d <= mx * sdet))
        by (nonlinear_arith);
}

fn min3_exec(a: i64, b: i64, c: i64) -> (r: i64)
    ensures
        r == min3(a, b, c),
{
    if a <= b && a <= c { a } else if b <= c { b } else { c }
}

fn max3_exec(a: i64, b: i64, c: i64) -> (r: i64)
    ensures
        r == max3(a, b, c),
{
    if a >= b && a >= c { a } else if b >= c { b } else { c }
}

/// The Möller-Trumbore determinant and the three scaled numerators, exactly.
fn mt_numerators(t: &Triangle, ray: Ray) -> (r: (i128, i128, i128, i128))
    requires
        triangle_wf(*t),
        point_in_range(ray.origin),
        vec_in_range(ray.direction),
    ensures
        r.0 == mt_det(*t, ray),
        r.1 == mt_u_num(*t, ray),
        r.2 == mt_v_num(*t, ray),
        r.3 == mt_t_num(*t, ray),
        -0x4000_0000_0000_0000_0000_0000 <= r.0 <= 0x4000_0000_0000_0000_0000_0000,
        -0x4000_0000_0000_0000_0000_0000 <= r.1 <= 0x4000_0000_0000_0000_0000_0000,
        -0x4000_0000_0000_0000_0000_0000 <= r.2 <= 0x4000_0000_0000_0000_0000_0000,
        -0x4000_0000_0000_0000_0000_0000 <= r.3 <= 0x4000_0000_0000_0000_0000_0000,
{
    let e1x: i64 = t.corner_two.x - t.corner_one.x;
    let e1y: i64 = t.corner_two.y - t.corner_one.y;
    let e1z: i64 = t.corner_two.z - t.corner_one.z;
    let e2x: i64 = t.corner_three.x - t.corner_one.x;
    let e2y: i64 = t.corner_three.y - t.corner_one.y;
    let e2z: i64 = t.corner_three.z - t.corner_one.z;
    let sx: i64 = ray.origin.x - t.corner_one.x;
    let sy: i64 = ray.origin.y - t.corner_one.y;
    let sz: i64 = ray.origin.z - t.corner_one.z;
    let dx = ray.direction.x;
    let dy = ray.direction.y;
    let dz = ray.direction.z;
    proof {
        lemma_mul_bound(dy as int, e2z as int, 0x2000_0000, 0x4000_0000);
        lemma_mul_bound(dz as int, e2y as int, 0x2000_0000, 0x4000_0000);
        lemma_mul_bound(dz as int, e2x as int, 0x2000_0000, 0x4000_0000);
        lemma_mul_bound(dx as int, e2z as int, 0x2000_0000, 0x4000_0000);
        lemma_mul_bound(dx as int, e2y as int, 0x2000_0000, 0x4000_0000);
        lemma_mul_bound(dy as int, e2x as int, 0x2000_0000, 0x4000_0000);
        lemma_mul_bound(sy as int, e1z as int, 0x4000_0000, 0x4000_0000);
        lemma_mul_bound(sz as int, e1y as int, 0x4000_0000, 0x4000_0000);
        lemma_mul_bound(sz as int, e1x as int, 0x4000_0000, 0x4000_0000);
        lemma_mul_bound(sx as int, e1z as int, 0x4000_0000, 0x4000_0000);
        lemma_mul_bound(sx as int, e1y as int, 0x4000_0000, 0x4000_0000);
        lemma_mul_bound(sy as int, e1x as int, 0x4000_0000, 0x4000_0000);
    }
    let rcx: i128 = dy as i128 * e2z as i128 - dz as i128 * e2y as i128;
    let rcy: i128 = dz as i128 * e2x as i128 - dx as i128 * e2z as i128;
    let rcz: i128 = dx as i128 * e2y as i128 - dy as i128 * e2x as i128;
    let scx: i128 = sy as i128 * e1z as i128 - sz as i128 * e1y as i128;
    let scy: i128 = sz as i128 * e1x as i128 - sx as i128 * e1z as i128;
    let scz: i128 = sx as i128 * e1y as i128 - sy as i128 * e1x as i128;
    proof {
        lemma_mul_bound(e1x as int, rcx as int, 0x4000_0000, 0x2000_0000_0000_0000);
        lemma_mul_bound(e1y as int, rcy as int, 0x4000_0000, 0x2000_0000_0000_0000);
        lemma_mul_bound(e1z as int, rcz as int, 0x4000_0000, 0x2000_0000_0000_0000);
        lemma_mul_bound(sx as int, rcx as int, 0x4000_0000, 0x2000_0000_0000_0000);
        lemma_mul_bound(sy as int, rcy as int, 0x4000_0000, 0x2000_0000_0000_0000);
        lemma_mul_bound(sz as int, rcz as int, 0x4000_0000, 0x2000_0000_0000_0000);
        lemma_mul_bound(dx as int, scx as int, 0x4000_0000, 0x4000_0000_0000_0000);
        lemma_mul_bound(dy as int, scy as int, 0x4000_0000, 0x4000_0000_0000_0000);
        lemma_mul_bound(dz as int, scz as int, 0x4000_0000, 0x4000_0000_0000_0000);
        lemma_mul_bound(e2x as int, scx as int, 0x4000_0000, 0x4000_0000_0000_0000);
        lemma_mul_bound(e2y as int, scy as int, 0x4000_0000, 0x4000_0000_0000_0000);
        lemma_mul_bound(e2z as int, scz as int, 0x4000_0000, 0x4000_0000_0000_0000);
    }
    let det: i128 = e1x as i128 * rcx + e1y as i128 * rcy + e1z as i128 * rcz;
    let unum: i128 = sx as i128 * rcx + sy as i128 * rcy + sz as i128 * rcz;
    let vnum: i128 = dx as i128 * scx + dy as i128 * scy + dz as i128 * scz;
    let tnum: i128 = e2x as i128 * scx + e2y as i128 * scy + e2z as i128 * scz;
    (det, unum, vnum, tnum)
}

/// The fields of a triangle's hit record for a candidate time are well
/// behaved: the point is in range, the normal is near unit length, the
/// barycentric coordinates are in the unit range, and the material is the
/// triangle's.
pub proof fn lemma_triangle_record_props(t: Triangle, ray: Ray, tt: i64)
    requires
        triangle_wf(t),
        point_in_range(ray.origin),
        vec_in_range(ray.direction),
        triangle_cand(t, ray, tt as int),
    ensures
        ({
            let rec = triangle_record(t, ray, tt);
            &&& point_in_range(rec.collision_point)
            &&& -0x2_0000 <= rec.normal_vector.x <= 0x2_0000
            &&& -0x2_0000 <= rec.normal_vector.y <= 0x2_0000
            &&& -0x2_0000 <= rec.normal_vector.z <= 0x2_0000
            &&& 0 <= rec.u <= 65536
            &&& 0 <= rec.v <= 65536
            &&& rec.material == t.material
        }),
{
    let td = mt_sdet(t, ray);
    let tn = 65536 * mt_tnum_norm(t, ray);
    lemma_triangle_time_brackets(t, ray);
    lemma_floor_near_rational(t.bounds.x.min as int, t.bounds.x.max as int,
        ray.origin.x as int, ray.direction.x as int, tn, td, tt as int);
    lemma_floor_near_rational(t.bounds.y.min as int, t.bounds.y.max as int,
        ray.origin.y as int, ray.direction.y as int, tn, td, tt as int);
    lemma_floor_near_rational(t.bounds.z.min as int, t.bounds.z.max as int,
        ray.origin.z as int, ray.direction.z as int, tn, td, tt as int);
    let det = mt_det(t, ray);
    let sd = if det < 0 { -det } else { det };
    let un = if det < 0 { -mt_u_num(t, ray) } else { mt_u_num(t, ray) };
    let vn = if det < 0 { -mt_v_num(t, ray) } else { mt_v_num(t, ray) };
    lemma_bary_fp_unit(un, sd);
    lemma_bary_fp_unit(vn, sd);
}

/// For a non-parallel ray the fixed-point hit time brackets the exact
/// rational one: `mt_time * sdet <= 65536 * tnum < (mt_time + 1) * sdet`.
pub proof fn lemma_triangle_time_brackets(t: Triangle, ray: Ray)
    requires
        mt_det(t, ray) != 0,
    ensures
        mt_sdet(t, ray) > 0,
        mt_time(t, ray) * mt_sdet(t, ray) <= 65536 * mt_tnum_norm(t, ray),
        65536 * mt_tnum_norm(t, ray) < (mt_time(t, ray) + 1) * mt_sdet(t, ray),
{
    let td = mt_sdet(t, ray);
    let tn = mt_tnum_norm(t, ray) * 65536;
    vstd::arithmetic::div_mod::lemma_fundamental_div_mod(tn, td);
    let q = tn / td;
    let r = tn % td;
    assert(65536 * mt_tnum_norm(t, ray) == tn) by (nonlinear_arith)
        requires tn == mt_tnum_norm(t, ray) * 65536;
    assert(q * td <= tn && tn < (q + 1) * td) by (nonlinear_arith)
        requires
            tn == td * q + r,
            0 <= r < td,
    ;
}

/// If the exact rational time `tn / td` (fixed-point scale) places the ray
/// inside `[mn, mx]` on one axis, the position at the floored fixed-point
/// time `tt` stays within that slab widened by the per-unit ray motion.
pub proof fn lemma_floor_near_rational(mn: int, mx: int, o: int, d: int, tn: int, td: int, tt: int)
    requires
        td > 0,
        -0x2000_0000 <= d <= 0x2000_0000,
        tt * td <= tn,
        tn < (tt + 1) * td,
        65536 * mn * td <= 65536 * o * td + tn * d,
        65536 * o * td + tn * d <= 65536 * mx * td,
    ensures
        mn - 8193 <= o + (d * tt) / 65536,
        o + (d * tt) / 65536 <= mx + 8193,
{
    vstd::arithmetic::div_mod::lemma_fundamental_div_mod(d * tt, 65536);
    let q = (d * tt) / 65536;
    let rr = (d * tt) % 65536;
    // bracket d * tt between the membership bounds, widened by one unit of
    // ray motion to absorb the flooring of the hit time
    if d >= 0 {
        assert((d * tt) * td <= tn * d) by (nonlinear_arith)
            requires d >= 0, tt * td <= tn;
        assert(tn * d <= 65536 * (mx - o) * td) by (nonlinear_arith)
            requires 65536 * o * td + tn * d <= 65536 * mx * td;
        assert(d * tt <= 65536 * (mx - o)) by (nonlinear_arith)
            requires td > 0, (d * tt) * td <= 65536 * (mx - o) * td;
        assert(tn * d <= (d * tt) * td + td * d) by (nonlinear_arith)
            requires d >= 0, tn < (tt + 1) * td;
        assert(65536 * (mn - o) * td <= tn * d) by (nonlinear_arith)
            requires 65536 * mn * td <= 65536 * o * td + tn * d;
        assert(65536 * (mn - o) - d <= d * tt) by (nonlinear_arith)
            requires td > 0, 65536 * (mn - o) * td <= (d * tt) * td + td * d;
    } else {
        assert(tn * d <= (d * tt) * td) by (nonlinear_arith)
            requires d < 0, tt * td <= tn;
        assert(65536 * (mn - o) * td <= tn * d) by (nonlinear_arith)
            requires 65536 * mn * td <= 65536 * o * td + tn * d;
        assert(65536 * (mn - o) <= d * tt) by (nonlinear_arith)
            requires td > 0, 65536 * (mn - o) * td <= (d * tt) * td;
        assert((d * tt) * td + td * d - d <= tn * d) by (nonlinear_arith)
            requires d < 0, tn < (tt + 1) * td;
        assert(tn * d <= 65536 * (mx - o) * td) by (nonlinear_arith)
            requires 65536 * o * td + tn * d <= 65536 * mx * td;
        assert((d * tt) * td <= (65536 * (mx - o) - d) * td) by (nonlinear_arith)
            requires
                d < 0,
                (d * tt) * td + td * d - d <= 65536 * (mx - o) * td,
        ;
        assert(d * tt <= 65536 * (mx - o) - d) by (nonlinear_arith)
            requires td > 0, (d * tt) * td <= (65536 * (mx - o) - d) * td;
    }
    assert(65536 * (mn - o) - 0x2000_0000 <= d * tt);
    assert(d * tt <= 65536 * (mx - o) + 0x2000_0000);
    assert(mn - 8193 <= o + q && o + q <= mx + 8193) by (nonlinear_arith)
        requires
            d * tt == 65536 * q + rr,
            0 <= rr < 65536,
            65536 * (mn - o) - 0x2000_0000 <= d * tt,
            d * tt <= 65536 * (mx - o) + 0x2000_0000,
    ;
}

/// A determinant-scaled numerator between zero and the determinant gives a
/// fixed-point coordinate in the unit range.
proof fn lemma_bary_fp_unit(num: int, den: int)
    requires
        1 <= den,
        0 <= num <= den,
    ensures
        0 <= (num * 65536) / den <= 65536,
{
    assert(0 <= num * 65536 && num * 65536 <= 65536 * den) by (nonlinear_arith)
        requires 0 <= num <= den;
    lemma_div_bound(num * 65536, den, 65536);
    vstd::arithmetic::div_mod::lemma_fundamental_div_mod(num * 65536, den);
    assert((num * 65536) / den >= 0) by (nonlinear_arith)
        requires
            num * 65536 >= 0,
            den >= 1,
            den * ((num * 65536) / den) + (num * 65536) % den == num * 65536,
            0 <= (num * 65536) % den < den,
    ;
}

} // verus!
