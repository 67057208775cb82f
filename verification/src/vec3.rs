//! Three-component vectors and points over 16.16 fixed-point coordinates,
//! and the ray type built from them.
//!
//! `Point3` is an affine position, `Vec3` a direction or displacement; the
//! two are distinct types so that positions are never added to positions.
//! Products of two coordinates carry scale 2^32 and are divided back down by
//! `FP_ONE` where a fixed-point result is needed.

use vstd::prelude::*;
use crate::fixed::{floor_div_i128, isqrt_u128, lemma_mul_bound, lemma_square_nonneg_pub};
use crate::FP_ONE;

verus! {

/// Bound on the magnitude of any well-formed coordinate: 2^29 fixed-point
/// units, i.e. 8192 world units. Keeps every intermediate product of the
/// intersection arithmetic inside i64/i128 range.
pub const MAX_COORD: i64 = 0x2000_0000;

/// Bound on the magnitude of a ray time parameter.
pub const MAX_TIME: i64 = 0x100_0000_0000;

#[derive(Clone, Copy, Debug, PartialEq, Eq, Structural)]
pub struct Vec3 {
    pub x: i64,
    pub y: i64,
    pub z: i64,
}

#[derive(Clone, Copy, Debug, PartialEq, Eq, Structural)]
pub struct Point3 {
    pub x: i64,
    pub y: i64,
    pub z: i64,
}

/// All coordinates within the well-formed range.
pub open spec fn vec_in_range(v: Vec3) -> bool {
    -MAX_COORD <= v.x <= MAX_COORD && -MAX_COORD <= v.y <= MAX_COORD
        && -MAX_COORD <= v.z <= MAX_COORD
}

/// All coordinates within the well-formed range.
pub open spec fn point_in_range(p: Point3) -> bool {
    -MAX_COORD <= p.x <= MAX_COORD && -MAX_COORD <= p.y <= MAX_COORD
        && -MAX_COORD <= p.z <= MAX_COORD
}

/// The raw dot product of two vectors; carries scale 2^32.
pub open spec fn spec_dot(a: Vec3, b: Vec3) -> int {
    a.x * b.x + a.y * b.y + a.z * b.z
}

/// Mirror reflection about `n`, componentwise with floor division.
pub open spec fn spec_reflect(v: Vec3, n: Vec3) -> Vec3 {
    Vec3 {
        x: (v.x - (2 * spec_dot(v, n) * n.x) / 0x1_0000_0000) as i64,
        y: (v.y - (2 * spec_dot(v, n) * n.y) / 0x1_0000_0000) as i64,
        z: (v.z - (2 * spec_dot(v, n) * n.z) / 0x1_0000_0000) as i64,
    }
}

/// Normalisation to fixed-point unit length with a fallback for the
/// degenerate case.
pub open spec fn spec_unit_or(v: Vec3, fallback: Vec3) -> Vec3 {
    let len = crate::fixed::sqrt_floor(spec_dot(v, v));
    if len == 0 {
        fallback
    } else {
        Vec3 {
            x: ((v.x * 65536) / len) as i64,
            y: ((v.y * 65536) / len) as i64,
            z: ((v.z * 65536) / len) as i64,
        }
    }
}

/// Sources of random directions for sampling-based callers.
pub trait VecRand: Sized {
    fn rand_unit_vector() -> Self;

    fn random_on_unit_disk() -> Self;
}

impl Vec3 {
    pub fn new(x: i64, y: i64, z: i64) -> (r: Vec3)
        ensures
            r == (Vec3 { x, y, z }),
    {
        Vec3 { x, y, z }
    }

    pub open spec fn spec_add(self, o: Vec3) -> Vec3 {
        Vec3 { x: (self.x + o.x) as i64, y: (self.y + o.y) as i64, z: (self.z + o.z) as i64 }
    }

    pub fn add(self, o: Vec3) -> (r: Vec3)
        requires
            vec_in_range(self),
            vec_in_range(o),
        ensures
            r == self.spec_add(o),
            r.x == self.x + o.x && r.y == self.y + o.y && r.z == self.z + o.z,
    {
        Vec3 { x: self.x + o.x, y: self.y + o.y, z: self.z + o.z }
    }

    pub fn sub(self, o: Vec3) -> (r: Vec3)
        requires
            vec_in_range(self),
            vec_in_range(o),
        ensures
            r.x == self.x - o.x && r.y == self.y - o.y && r.z == self.z - o.z,
    {
        Vec3 { x: self.x - o.x, y: self.y - o.y, z: self.z - o.z }
    }

    pub fn neg(self) -> (r: Vec3)
        requires
            vec_in_range(self),
        ensures
            r.x == -self.x && r.y == -self.y && r.z == -self.z,
            vec_in_range(r),
    {
        Vec3 { x: -self.x, y: -self.y, z: -self.z }
    }

    /// Raw dot product (scale 2^32).
    pub fn dot(self, o: Vec3) -> (r: i64)
        requires
            vec_in_range(self),
            vec_in_range(o),
        ensures
            r == spec_dot(self, o),
    {
        proof {
            lemma_mul_bound(self.x as int, o.x as int, MAX_COORD as int, MAX_COORD as int);
            lemma_mul_bound(self.y as int, o.y as int, MAX_COORD as int, MAX_COORD as int);
            lemma_mul_bound(self.z as int, o.z as int, MAX_COORD as int, MAX_COORD as int);
        }
        let px: i128 = self.x as i128 * o.x as i128;
        let py: i128 = self.y as i128 * o.y as i128;
        let pz: i128 = self.z as i128 * o.z as i128;
        (px + py + pz) as i64
    }

    /// Raw squared length (scale 2^32); never negative.
    pub fn length_squared(self) -> (r: i64)
        requires
            vec_in_range(self),
        ensures
            r == spec_dot(self, self),
            r >= 0,
    {
        proof {
            lemma_square_nonneg_pub(self.x as int);
            lemma_square_nonneg_pub(self.y as int);
            lemma_square_nonneg_pub(self.z as int);
        }
        self.dot(self)
    }

    /// Fixed-point length: the integer square root of the raw squared
    /// length, which is exactly the fixed-point magnitude rounded down.
    pub fn length(self) -> (r: i64)
        requires
            vec_in_range(self),
        ensures
            r >= 0,
            r * r <= spec_dot(self, self),
            (r + 1) * (r + 1) > spec_dot(self, self),
    {
        proof {
            lemma_mul_bound(self.x as int, self.x as int, MAX_COORD as int, MAX_COORD as int);
            lemma_mul_bound(self.y as int, self.y as int, MAX_COORD as int, MAX_COORD as int);
            lemma_mul_bound(self.z as int, self.z as int, MAX_COORD as int, MAX_COORD as int);
        }
        let sq = self.length_squared();
        let root = isqrt_u128(sq as u128);
        proof {
            assert(root <= 0x8000_0000u128) by (nonlinear_arith)
                requires
                    root as int * root as int <= 0x3000_0000_0000_0000int,
            ;
        }
        root as i64
    }

    /// True when every component is zero: in the fixed-point model the
    /// degenerate threshold is the smallest representable magnitude.
    pub fn near_zero(self) -> (r: bool)
        ensures
            r == (self.x == 0 && self.y == 0 && self.z == 0),
    {
        self.x == 0 && self.y == 0 && self.z == 0
    }

    /// Componentwise fixed-point scaling: each component becomes
    /// `component * t / FP_ONE`, rounding down.
    pub fn scale(self, t: i64) -> (r: Vec3)
        requires
            vec_in_range(self),
            -MAX_TIME <= t <= MAX_TIME,
        ensures
            r.x == (self.x * t) / (FP_ONE as int),
            r.y == (self.y * t) / (FP_ONE as int),
            r.z == (self.z * t) / (FP_ONE as int),
    {
        proof {
            lemma_mul_bound(self.x as int, t as int, MAX_COORD as int, MAX_TIME as int);
            lemma_mul_bound(self.y as int, t as int, MAX_COORD as int, MAX_TIME as int);
            lemma_mul_bound(self.z as int, t as int, MAX_COORD as int, MAX_TIME as int);
            assert(MAX_COORD as int * MAX_TIME as int == 0x20_0000_0000_0000int * 65536);
            crate::fixed::lemma_div_fp_bound(self.x as int * t as int, 0x20_0000_0000_0000int);
            crate::fixed::lemma_div_fp_bound(self.y as int * t as int, 0x20_0000_0000_0000int);
            crate::fixed::lemma_div_fp_bound(self.z as int * t as int, 0x20_0000_0000_0000int);
        }
        let x = floor_div_i128(self.x as i128 * t as i128, FP_ONE as i128);
        let y = floor_div_i128(self.y as i128 * t as i128, FP_ONE as i128);
        let z = floor_div_i128(self.z as i128 * t as i128, FP_ONE as i128);
        Vec3 { x: x as i64, y: y as i64, z: z as i64 }
    }

    /// Mirror reflection about the surface normal `n`:
    /// `v - 2 * dot(v, n) * n / FP_ONE^2`, componentwise with floor
    /// division. For roughly unit-length inputs the result is the usual
    /// reflected direction.
    pub fn reflect(self, n: Vec3) -> (r: Vec3)
        requires
            vec_in_range(self),
            vec_in_range(n),
        ensures
            r.x == self.x - (2 * spec_dot(self, n) * n.x) / 0x1_0000_0000,
            r.y == self.y - (2 * spec_dot(self, n) * n.y) / 0x1_0000_0000,
            r.z == self.z - (2 * spec_dot(self, n) * n.z) / 0x1_0000_0000,
            r == spec_reflect(self, n),
            ({
                let small = -0x2_0000 <= self.x <= 0x2_0000 && -0x2_0000 <= self.y <= 0x2_0000
                    && -0x2_0000 <= self.z <= 0x2_0000 && -0x2_0000 <= n.x <= 0x2_0000
                    && -0x2_0000 <= n.y <= 0x2_0000 && -0x2_0000 <= n.z <= 0x2_0000;
                small ==> (-0x40_0000 <= r.x <= 0x40_0000 && -0x40_0000 <= r.y <= 0x40_0000
                    && -0x40_0000 <= r.z <= 0x40_0000)
            }),
    {
        let ghost small = -0x2_0000 <= self.x <= 0x2_0000 && -0x2_0000 <= self.y <= 0x2_0000
            && -0x2_0000 <= self.z <= 0x2_0000 && -0x2_0000 <= n.x <= 0x2_0000
            && -0x2_0000 <= n.y <= 0x2_0000 && -0x2_0000 <= n.z <= 0x2_0000;
        proof {
            if small {
                lemma_mul_bound(self.x as int, n.x as int, 0x2_0000, 0x2_0000);
                lemma_mul_bound(self.y as int, n.y as int, 0x2_0000, 0x2_0000);
                lemma_mul_bound(self.z as int, n.z as int, 0x2_0000, 0x2_0000);
                assert(0x2_0000int * 0x2_0000 == 0x4_0000_0000int);
            }
        }
        let d = self.dot(n);
        proof {
            lemma_mul_bound(self.x as int, n.x as int, MAX_COORD as int, MAX_COORD as int);
            lemma_mul_bound(self.y as int, n.y as int, MAX_COORD as int, MAX_COORD as int);
            lemma_mul_bound(self.z as int, n.z as int, MAX_COORD as int, MAX_COORD as int);
            assert(MAX_COORD as int * MAX_COORD as int == 0x400_0000_0000_0000int);
            lemma_mul_bound(2 * d as int, n.x as int, 0x1800_0000_0000_0000int, MAX_COORD as int);
            lemma_mul_bound(2 * d as int, n.y as int, 0x1800_0000_0000_0000int, MAX_COORD as int);
            lemma_mul_bound(2 * d as int, n.z as int, 0x1800_0000_0000_0000int, MAX_COORD as int);
            assert(0x1800_0000_0000_0000int * MAX_COORD as int
                == 0x300_0000_0000_0000int * 0x1_0000_0000int);
            crate::fixed::lemma_div_bound(
                2 * d as int * n.x as int, 0x1_0000_0000int, 0x300_0000_0000_0000int);
            crate::fixed::lemma_div_bound(
                2 * d as int * n.y as int, 0x1_0000_0000int, 0x300_0000_0000_0000int);
            crate::fixed::lemma_div_bound(
                2 * d as int * n.z as int, 0x1_0000_0000int, 0x300_0000_0000_0000int);
        }
        proof {
            if small {
                lemma_mul_bound(2 * d as int, n.x as int, 0x18_0000_0000, 0x2_0000);
                lemma_mul_bound(2 * d as int, n.y as int, 0x18_0000_0000, 0x2_0000);
                lemma_mul_bound(2 * d as int, n.z as int, 0x18_0000_0000, 0x2_0000);
                assert(0x18_0000_0000int * 0x2_0000 == 0x30_0000int * 0x1_0000_0000) by (nonlinear_arith);
                crate::fixed::lemma_div_bound(
                    2 * d as int * n.x as int, 0x1_0000_0000int, 0x30_0000int);
                crate::fixed::lemma_div_bound(
                    2 * d as int * n.y as int, 0x1_0000_0000int, 0x30_0000int);
                crate::fixed::lemma_div_bound(
                    2 * d as int * n.z as int, 0x1_0000_0000int, 0x30_0000int);
            }
        }
        let cx = floor_div_i128(2 * d as i128 * n.x as i128, 0x1_0000_0000);
        let cy = floor_div_i128(2 * d as i128 * n.y as i128, 0x1_0000_0000);
        let cz = floor_div_i128(2 * d as i128 * n.z as i128, 0x1_0000_0000);
        Vec3 {
            x: (self.x as i128 - cx) as i64,
            y: (self.y as i128 - cy) as i64,
            z: (self.z as i128 - cz) as i64,
        }
    }

    /// Normalize to fixed-point unit length, or return `fallback` when the
    /// vector is degenerate: each component becomes
    /// `component * FP_ONE / length`, rounding down.
    pub fn unit_or(self, fallback: Vec3) -> (r: Vec3)
        requires
            vec_in_range(self),
        ensures
            r == spec_unit_or(self, fallback),
            ({
                let len = crate::fixed::sqrt_floor(spec_dot(self, self));
                len != 0 ==> (-65537 <= r.x <= 65536 && -65537 <= r.y <= 65536
                    && -65537 <= r.z <= 65536)
            }),
            (-0x2_0000 <= fallback.x <= 0x2_0000 && -0x2_0000 <= fallback.y <= 0x2_0000
                && -0x2_0000 <= fallback.z <= 0x2_0000)
                ==> (-0x2_0000 <= r.x <= 0x2_0000 && -0x2_0000 <= r.y <= 0x2_0000
                    && -0x2_0000 <= r.z <= 0x2_0000),
    {
        let len = self.length();
        proof {
            crate::fixed::lemma_sqrt_floor_is(
                spec_dot(self, self), len as int);
        }
        if len == 0 {
            fallback
        } else {
            proof {
                // each component is no larger in magnitude than the length
                lemma_square_nonneg_pub(self.x as int);
                lemma_square_nonneg_pub(self.y as int);
                lemma_square_nonneg_pub(self.z as int);
                assert(self.x * self.x <= spec_dot(self, self));
                assert(self.y * self.y <= spec_dot(self, self));
                assert(self.z * self.z <= spec_dot(self, self));
                assert({
                    &&& -(len as int) <= self.x <= len as int
                    &&& -(len as int) <= self.y <= len as int
                    &&& -(len as int) <= self.z <= len as int
                }) by (nonlinear_arith)
                    requires
                        len as int >= 0,
                        self.x * self.x <= spec_dot(self, self),
                        self.y * self.y <= spec_dot(self, self),
                        self.z * self.z <= spec_dot(self, self),
                        (len as int + 1) * (len as int + 1) > spec_dot(self, self),
                ;
                assert(-(65536int * (len as int)) <= self.x * 65536
                    && self.x * 65536 <= 65536int * (len as int)
                    && -(65536int * (len as int)) <= self.y * 65536
                    && self.y * 65536 <= 65536int * (len as int)
                    && -(65536int * (len as int)) <= self.z * 65536
                    && self.z * 65536 <= 65536int * (len as int)) by (nonlinear_arith)
                    requires
                        -(len as int) <= self.x <= len as int,
                        -(len as int) <= self.y <= len as int,
                        -(len as int) <= self.z <= len as int,
                ;
                crate::fixed::lemma_div_bound(self.x as int * 65536, len as int, 65536);
                crate::fixed::lemma_div_bound(self.y as int * 65536, len as int, 65536);
                crate::fixed::lemma_div_bound(self.z as int * 65536, len as int, 65536);
            }
            let x = floor_div_i128(self.x as i128 * 65536, len as i128);
            let y = floor_div_i128(self.y as i128 * 65536, len as i128);
            let z = floor_div_i128(self.z as i128 * 65536, len as i128);
            Vec3 { x: x as i64, y: y as i64, z: z as i64 }
        }
    }
}

#[derive(Clone, Copy, Debug, PartialEq, Eq, Structural)]
pub struct Ray {
    pub origin: Point3,
    pub direction: Vec3,
    pub time: i64,
}

impl Point3 {
    pub fn new(x: i64, y: i64, z: i64) -> (r: Point3)
        ensures
            r == (Point3 { x, y, z }),
    {
        Point3 { x, y, z }
    }

    /// Reinterpret a displacement from the origin as a position.
    pub fn from_vector(v: Vec3) -> (r: Point3)
        ensures
            r.x == v.x && r.y == v.y && r.z == v.z,
    {
        Point3 { x: v.x, y: v.y, z: v.z }
    }

    /// Point minus point yields the displacement vector between them.
    pub fn sub(self, o: Point3) -> (r: Vec3)
        requires
            point_in_range(self),
            point_in_range(o),
        ensures
            r.x == self.x - o.x && r.y == self.y - o.y && r.z == self.z - o.z,
    {
        Vec3 { x: self.x - o.x, y: self.y - o.y, z: self.z - o.z }
    }

    /// Point plus displacement yields a translated point.
    pub fn add_vec(self, v: Vec3) -> (r: Point3)
        requires
            point_in_range(self),
            vec_in_range(v),
        ensures
            r.x == self.x + v.x && r.y == self.y + v.y && r.z == self.z + v.z,
    {
        Point3 { x: self.x + v.x, y: self.y + v.y, z: self.z + v.z }
    }
}

impl Ray {
    pub fn new(origin: Point3, direction: Vec3, time: i64) -> (r: Ray)
        ensures
            r == (Ray { origin, direction, time }),
    {
        Ray { origin, direction, time }
    }

    pub fn new_time_zero(origin: Point3, direction: Vec3) -> (r: Ray)
        ensures
            r == (Ray { origin, direction, time: 0i64 }),
    {
        Ray { origin, direction, time: 0 }
    }

    /// The point reached after parameter `t`: each coordinate is
    /// `origin + direction * t / FP_ONE`, rounding down.
    pub fn at(self, t: i64) -> (r: Point3)
        requires
            point_in_range(self.origin),
            vec_in_range(self.direction),
            -MAX_TIME <= t <= MAX_TIME,
        ensures
            r.x == self.origin.x + (self.direction.x * t) / (FP_ONE as int),
            r.y == self.origin.y + (self.direction.y * t) / (FP_ONE as int),
            r.z == self.origin.z + (self.direction.z * t) / (FP_ONE as int),
    {
        let d = self.direction.scale(t);
        proof {
            lemma_mul_bound(self.direction.x as int, t as int, MAX_COORD as int, MAX_TIME as int);
            lemma_mul_bound(self.direction.y as int, t as int, MAX_COORD as int, MAX_TIME as int);
            lemma_mul_bound(self.direction.z as int, t as int, MAX_COORD as int, MAX_TIME as int);
            assert(MAX_COORD as int * MAX_TIME as int == 0x20_0000_0000_0000int * 65536);
            crate::fixed::lemma_div_fp_bound(self.direction.x as int * t as int, 0x20_0000_0000_0000int);
            crate::fixed::lemma_div_fp_bound(self.direction.y as int * t as int, 0x20_0000_0000_0000int);
            crate::fixed::lemma_div_fp_bound(self.direction.z as int * t as int, 0x20_0000_0000_0000int);
        }
        Point3 { x: self.origin.x + d.x, y: self.origin.y + d.y, z: self.origin.z + d.z }
    }
}

} // verus!
