//! Surface materials and the per-bounce scattering rules. Every random
//! quantity a scattering decision needs (a unit vector for diffuse scatter,
//! a coin for the reflect-or-refract choice) is passed in as a plain value,
//! so each rule is an exact function of its inputs.

use vstd::prelude::*;
use crate::fixed::{floor_div_i128, mul_fp, sqrt_floor};
use crate::hittable::HitRecord;
use crate::texture::{Texture, texture_wf};
use crate::vec3::{Ray, Vec3, spec_dot, vec_in_range};

verus! {

/// Smallest well-formed refractive index: 1/16.
pub const MIN_REFRACTIVE: i64 = 0x1000;

/// Largest well-formed refractive index: 16.
pub const MAX_REFRACTIVE: i64 = 0x10_0000;

#[derive(Debug)]
pub struct Material {
    /// Interpolates between diffuse scatter (0) and mirror reflection
    /// (`FP_ONE`).
    pub smoothness: i64,
    pub texture: Texture,
    pub is_glass: bool,
    pub refractive_index: i64,
    pub is_light: bool,
}

/// Well-formed material: unit-range smoothness, well-formed texture, and a
/// refractive index within the supported band whenever it is used.
pub open spec fn material_wf(m: Material) -> bool {
    &&& 0 <= m.smoothness <= 65536
    &&& texture_wf(m.texture)
    &&& m.is_glass ==> MIN_REFRACTIVE <= m.refractive_index <= MAX_REFRACTIVE
}

impl Clone for Material {
    /// Structural deep copy: the clone is equal to the original.
    fn clone(&self) -> (res: Self)
        ensures
            res == *self,
    {
        Material {
            smoothness: self.smoothness,
            texture: self.texture.clone(),
            is_glass: self.is_glass,
            refractive_index: self.refractive_index,
            is_light: self.is_light,
        }
    }
}

/// The clamped cosine between the reversed incoming unit direction and the
/// surface normal, in fixed point: `min(FP_ONE, -dot(unit, n) / FP_ONE)`,
/// with degenerate negative values clamped to zero.
pub open spec fn spec_cosine(unit: Vec3, n: Vec3) -> int {
    let c = (-spec_dot(unit, n)) / 65536;
    if c < 0 {
        0int
    } else if c > 65536 {
        65536int
    } else {
        c
    }
}

/// Schlick reflectance: `r0 + (1 - r0) * (1 - cos)^5` with
/// `r0 = ((1 - n) / (1 + n))^2`, the degenerate indices 0 and 1 forced to
/// full reflectance and full transmittance.
pub open spec fn spec_reflectance(cosine: int, refractive_index: int) -> int {
    if refractive_index == 0 {
        65536int
    } else if refractive_index == 65536 {
        0int
    } else {
        let q0 = ((65536 - refractive_index) * 65536) / (65536 + refractive_index);
        let q = if q0 < -65536 { -65536int } else if q0 > 65536 { 65536int } else { q0 };
        let r0 = (q * q) / 65536;
        let x = 65536 - cosine;
        let x2 = (x * x) / 65536;
        let x4 = (x2 * x2) / 65536;
        let x5 = (x4 * x) / 65536;
        r0 + ((65536 - r0) * x5) / 65536
    }
}

/// Snell refraction of the unit direction about the normal with relative
/// index `eta`: the perpendicular part `eta * (unit + cos * n)` completed by
/// the parallel part `-sqrt(1 - |perp|^2) * n`.
pub open spec fn spec_refract_vec(unit: Vec3, n: Vec3, eta: int, cosine: int) -> Vec3 {
    let px = (eta * (unit.x + (cosine * n.x) / 65536)) / 65536;
    let py = (eta * (unit.y + (cosine * n.y) / 65536)) / 65536;
    let pz = (eta * (unit.z + (cosine * n.z) / 65536)) / 65536;
    let psq = px * px + py * py + pz * pz;
    let rem = if psq > 0x1_0000_0000 { 0int } else { 0x1_0000_0000 - psq };
    let par = sqrt_floor(rem);
    Vec3 {
        x: (px - (par * n.x) / 65536) as i64,
        y: (py - (par * n.y) / 65536) as i64,
        z: (pz - (par * n.z) / 65536) as i64,
    }
}

/// The fixed-point cosine between the reversed unit direction and the
/// normal, clamped into the unit range.
pub fn unit_cosine(unit: Vec3, n: Vec3) -> (c: i64)
    requires
        vec_in_range(unit),
        vec_in_range(n),
    ensures
        c == spec_cosine(unit, n),
        0 <= c <= 65536,
{
    let d = unit.dot(n);
    proof {
        crate::fixed::lemma_mul_bound(unit.x as int, n.x as int, 0x2000_0000, 0x2000_0000);
        crate::fixed::lemma_mul_bound(unit.y as int, n.y as int, 0x2000_0000, 0x2000_0000);
        crate::fixed::lemma_mul_bound(unit.z as int, n.z as int, 0x2000_0000, 0x2000_0000);
        vstd::arithmetic::div_mod::lemma_fundamental_div_mod(-(d as int), 65536);
    }
    let c = floor_div_i128(-(d as i128), 65536);
    if c < 0 {
        0
    } else if c > 65536 {
        65536
    } else {
        c as i64
    }
}

/// The fixed-point sine paired with a clamped cosine:
/// `sqrt(FP_ONE^2 - cos^2)`.
pub fn sine_of(cosine: i64) -> (s: i64)
    requires
        0 <= cosine <= 65536,
    ensures
        s == sqrt_floor(0x1_0000_0000 - cosine * cosine),
        0 <= s <= 65536,
{
    proof {
        assert(0 <= cosine * cosine <= 0x1_0000_0000) by (nonlinear_arith)
            requires 0 <= cosine as int <= 65536;
    }
    let sq: u128 = (0x1_0000_0000i128 - cosine as i128 * cosine as i128) as u128;
    let root = crate::fixed::isqrt_u128(sq);
    proof {
        crate::fixed::lemma_sqrt_floor_is(sq as int, root as int);
        assert(root <= 65536) by (nonlinear_arith)
            requires
                root as int * root as int <= 0x1_0000_0000,
        ;
    }
    root as i64
}

/// Schlick's reflectance approximation in fixed point, with the degenerate
/// indices special-cased.
pub fn reflectance(cosine: i64, refractive_index: i64) -> (r: i64)
    requires
        0 <= cosine <= 65536,
        0 <= refractive_index <= MAX_REFRACTIVE,
    ensures
        r == spec_reflectance(cosine as int, refractive_index as int),
        0 <= r <= 65536,
{
    if refractive_index == 0 {
        65536
    } else if refractive_index == 65536 {
        0
    } else {
        proof {
            assert(-(65536int * (65536 + refractive_index as int))
                <= (65536 - refractive_index as int) * 65536
                <= 65536 * (65536 + refractive_index as int)) by (nonlinear_arith)
                requires 0 <= refractive_index as int <= MAX_REFRACTIVE as int;
            crate::fixed::lemma_div_bound(
                (65536 - refractive_index as int) * 65536,
                65536 + refractive_index as int,
                65536,
            );
            vstd::arithmetic::div_mod::lemma_fundamental_div_mod(
                (65536 - refractive_index as int) * 65536,
                65536 + refractive_index as int,
            );
        }
        let q0 = floor_div_i128(
            (65536i128 - refractive_index as i128) * 65536,
            65536i128 + refractive_index as i128,
        ) as i64;
        let q: i64 = if q0 < -65536 { -65536 } else if q0 > 65536 { 65536 } else { q0 };
        let r0 = mul_fp(q, q);
        proof {
            assert(0 <= q as int * q as int <= 0x1_0000_0000) by (nonlinear_arith)
                requires -65536 <= q as int <= 65536;
        }
        let x = 65536 - cosine;
        let x2 = mul_fp(x, x);
        let x4 = mul_fp(x2, x2);
        let x5 = mul_fp(x4, x);
        proof {
            assert(0 <= (65536 - r0) * x5 && (65536 - r0) * x5 <= (65536 - r0) * 65536)
                by (nonlinear_arith)
                requires
                    0 <= x5 as int <= 65536,
                    0 <= r0 as int <= 65536,
            ;
            vstd::arithmetic::div_mod::lemma_fundamental_div_mod((65536 - r0) * x5, 65536);
        }
        mul_fp(65536 - r0, x5) + r0
    }
}

/// Snell refraction in fixed point; the remainder under the square root is
/// clamped at zero, so a perpendicular part that rounding pushed past unit
/// length degrades to a tangential direction rather than an error.
pub fn refract_vec(unit: Vec3, n: Vec3, eta: i64, cosine: i64) -> (r: Vec3)
    requires
        -0x2_0000 <= unit.x <= 0x2_0000,
        -0x2_0000 <= unit.y <= 0x2_0000,
        -0x2_0000 <= unit.z <= 0x2_0000,
        -0x2_0000 <= n.x <= 0x2_0000,
        -0x2_0000 <= n.y <= 0x2_0000,
        -0x2_0000 <= n.z <= 0x2_0000,
        0 <= eta <= MAX_REFRACTIVE,
        0 <= cosine <= 65536,
    ensures
        r == spec_refract_vec(unit, n, eta as int, cosine as int),
        vec_in_range(r),
{
    let px = perp_component(eta, cosine, unit.x, n.x);
    let py = perp_component(eta, cosine, unit.y, n.y);
    let pz = perp_component(eta, cosine, unit.z, n.z);
    proof {
        crate::fixed::lemma_mul_bound(px as int, px as int, 0x40_0011, 0x40_0011);
        crate::fixed::lemma_mul_bound(py as int, py as int, 0x40_0011, 0x40_0011);
        crate::fixed::lemma_mul_bound(pz as int, pz as int, 0x40_0011, 0x40_0011);
        crate::fixed::lemma_square_nonneg_pub(px as int);
        crate::fixed::lemma_square_nonneg_pub(py as int);
        crate::fixed::lemma_square_nonneg_pub(pz as int);
    }
    let psq: i128 = px as i128 * px as i128 + py as i128 * py as i128 + pz as i128 * pz as i128;
    let rem: i128 = if psq > 0x1_0000_0000 { 0 } else { 0x1_0000_0000 - psq };
    let par_root = crate::fixed::isqrt_u128(rem as u128);
    proof {
        crate::fixed::lemma_sqrt_floor_is(rem as int, par_root as int);
        assert(par_root <= 65536) by (nonlinear_arith)
            requires par_root as int * par_root as int <= 0x1_0000_0000;
    }
    let par = par_root as i64;
    proof {
        crate::fixed::lemma_mul_bound(par as int, n.x as int, 65536, 0x2_0000);
        crate::fixed::lemma_mul_bound(par as int, n.y as int, 65536, 0x2_0000);
        crate::fixed::lemma_mul_bound(par as int, n.z as int, 65536, 0x2_0000);
        assert(65536int * 0x2_0000 == 0x2_0000int * 65536);
        crate::fixed::lemma_div_fp_bound(par as int * n.x as int, 0x2_0000);
        crate::fixed::lemma_div_fp_bound(par as int * n.y as int, 0x2_0000);
        crate::fixed::lemma_div_fp_bound(par as int * n.z as int, 0x2_0000);
    }
    let qx = mul_fp(par, n.x);
    let qy = mul_fp(par, n.y);
    let qz = mul_fp(par, n.z);
    Vec3 { x: px - qx, y: py - qy, z: pz - qz }
}

/// One blended component `(s * a + (FP_ONE - s) * b) / FP_ONE`, bounded by
/// the larger operand magnitude.
fn blend_component(s: i64, a: i64, b: i64) -> (r: i64)
    requires
        0 <= s <= 65536,
        -0x40_0000 <= a <= 0x40_0000,
        -0x4_0000 <= b <= 0x4_0000,
    ensures
        r == (s * a + (65536 - s) * b) / 65536,
        -0x40_0001 <= r <= 0x40_0000,
{
    proof {
        assert(-(0x40_0000int * 65536) <= s * a + (65536 - s) * b
            && s * a + (65536 - s) * b <= 0x40_0000int * 65536) by (nonlinear_arith)
            requires
                0 <= s as int <= 65536,
                -0x40_0000 <= a as int <= 0x40_0000,
                -0x4_0000 <= b as int <= 0x4_0000,
        ;
        crate::fixed::lemma_mul_bound(s as int, a as int, 65536, 0x40_0000);
        crate::fixed::lemma_mul_bound(65536 - s as int, b as int, 65536, 0x4_0000);
        crate::fixed::lemma_div_fp_bound(s as int * a as int + (65536 - s as int) * b as int,
            0x40_0000int);
        vstd::arithmetic::div_mod::lemma_fundamental_div_mod(
            s as int * a as int + (65536 - s as int) * b as int, 65536);
    }
    let num: i128 = s as i128 * a as i128 + (65536 - s as i128) * b as i128;
    floor_div_i128(num, 65536) as i64
}

/// One component of the refracted perpendicular part:
/// `eta * (u + cos * n / FP_ONE) / FP_ONE`, with its magnitude bound.
fn perp_component(eta: i64, cosine: i64, u: i64, n: i64) -> (p: i64)
    requires
        0 <= eta <= MAX_REFRACTIVE,
        0 <= cosine <= 65536,
        -0x2_0000 <= u <= 0x2_0000,
        -0x2_0000 <= n <= 0x2_0000,
    ensures
        p == (eta * (u + (cosine * n) / 65536)) / 65536,
        -0x40_0011 <= p <= 0x40_0011,
{
    proof {
        crate::fixed::lemma_mul_bound(cosine as int, n as int, 65536, 0x2_0000);
        assert(65536int * 0x2_0000 == 0x2_0000int * 65536);
        crate::fixed::lemma_div_fp_bound(cosine as int * n as int, 0x2_0000);
    }
    let cn = mul_fp(cosine, n);
    proof {
        crate::fixed::lemma_mul_bound(eta as int, u as int + cn as int, 0x10_0000, 0x4_0001);
        assert(0x10_0000int * 0x4_0001 == 0x40_0010int * 65536);
        crate::fixed::lemma_div_fp_bound(eta as int * (u as int + cn as int), 0x40_0010);
    }
    mul_fp(eta, u + cn)
}

impl Material {
    pub fn new(
        smoothness: i64,
        texture: Texture,
        is_glass: bool,
        refractive_index: i64,
        is_light: bool,
    ) -> (r: Material)
        ensures
            r == (Material { smoothness, texture, is_glass, refractive_index, is_light }),
    {
        Material { smoothness, texture, is_glass, refractive_index, is_light }
    }

    /// A non-emissive, non-refractive surface blending diffuse and mirror
    /// scatter by `smoothness`.
    pub fn new_opaque(smoothness: i64, texture: Texture) -> (r: Material)
        ensures
            r == (Material {
                smoothness,
                texture,
                is_glass: false,
                refractive_index: 0i64,
                is_light: false,
            }),
    {
        Material::new(smoothness, texture, false, 0, false)
    }

    /// A dielectric. The refractive index is clamped into the supported
    /// band, standing in for the tiny positive floor the physical model
    /// needs to avoid division blow-ups.
    pub fn new_glass(refractive_index: i64, texture: Texture) -> (r: Material)
        ensures
            r.smoothness == 0 && r.is_glass && !r.is_light && r.texture == texture,
            r.refractive_index == if refractive_index < MIN_REFRACTIVE {
                MIN_REFRACTIVE
            } else if refractive_index > MAX_REFRACTIVE {
                MAX_REFRACTIVE
            } else {
                refractive_index
            },
    {
        let ri: i64 = if refractive_index < MIN_REFRACTIVE {
            MIN_REFRACTIVE
        } else if refractive_index > MAX_REFRACTIVE {
            MAX_REFRACTIVE
        } else {
            refractive_index
        };
        Material::new(0, texture, true, ri, false)
    }

    /// An emissive terminal material: its texture value is returned as
    /// radiance and the path ends.
    pub fn new_light(texture: Texture) -> (r: Material)
        ensures
            r == (Material {
                smoothness: 0i64,
                texture,
                is_glass: false,
                refractive_index: 0i64,
                is_light: true,
            }),
    {
        Material::new(0, texture, false, 0, true)
    }

    /// Diffuse scatter: the surface normal plus a sampled unit vector; a
    /// degenerate (zero) sum falls back to the normal itself.
    pub fn diffuse_reflection(record: &HitRecord, rand_unit: Vec3) -> (r: Vec3)
        requires
            vec_in_range(record.normal_vector),
            vec_in_range(rand_unit),
        ensures
            r == if record.normal_vector.spec_add(rand_unit)
                == (Vec3 { x: 0i64, y: 0i64, z: 0i64 }) {
                record.normal_vector
            } else {
                record.normal_vector.spec_add(rand_unit)
            },
    {
        let scatter_direction = record.normal_vector.add(rand_unit);
        if scatter_direction.near_zero() {
            record.normal_vector
        } else {
            scatter_direction
        }
    }

    /// The direction a lerp-scatter bounce produces: the diffuse and mirror
    /// directions blended by `smoothness`, then normalised (falling back to
    /// the surface normal when degenerate).
    pub open spec fn spec_lerp_reflect_dir(
        self,
        ray: Ray,
        record: HitRecord,
        rand_unit: Vec3,
    ) -> Vec3 {
        let n = record.normal_vector;
        let diffuse = if n.spec_add(rand_unit) == (Vec3 { x: 0i64, y: 0i64, z: 0i64 }) {
            n
        } else {
            n.spec_add(rand_unit)
        };
        let specular = crate::vec3::spec_reflect(ray.direction, n);
        let mixed = Vec3 {
            x: ((self.smoothness * specular.x + (65536 - self.smoothness) * diffuse.x)
                / 65536) as i64,
            y: ((self.smoothness * specular.y + (65536 - self.smoothness) * diffuse.y)
                / 65536) as i64,
            z: ((self.smoothness * specular.z + (65536 - self.smoothness) * diffuse.z)
                / 65536) as i64,
        };
        crate::vec3::spec_unit_or(mixed, n)
    }

    /// One non-dielectric bounce: restart the ray at the hit point, with
    /// the direction interpolated between diffuse scatter and mirror
    /// reflection by `smoothness` and then re-normalised.
    pub fn lerp_reflect(&self, ray: &mut Ray, record: &HitRecord, rand_unit: Vec3)
        requires
            material_wf(*self),
            -0x2_0000 <= old(ray).direction.x <= 0x2_0000,
            -0x2_0000 <= old(ray).direction.y <= 0x2_0000,
            -0x2_0000 <= old(ray).direction.z <= 0x2_0000,
            -0x2_0000 <= record.normal_vector.x <= 0x2_0000,
            -0x2_0000 <= record.normal_vector.y <= 0x2_0000,
            -0x2_0000 <= record.normal_vector.z <= 0x2_0000,
            -0x2_0000 <= rand_unit.x <= 0x2_0000,
            -0x2_0000 <= rand_unit.y <= 0x2_0000,
            -0x2_0000 <= rand_unit.z <= 0x2_0000,
        ensures
            final(ray).origin == record.collision_point,
            final(ray).time == old(ray).time,
            final(ray).direction == self.spec_lerp_reflect_dir(*old(ray), *record, rand_unit),
            -0x2_0000 <= final(ray).direction.x <= 0x2_0000,
            -0x2_0000 <= final(ray).direction.y <= 0x2_0000,
            -0x2_0000 <= final(ray).direction.z <= 0x2_0000,
    {
        let n = record.normal_vector;
        let diffuse = Material::diffuse_reflection(record, rand_unit);
        let specular = ray.direction.reflect(n);
        let mx = blend_component(self.smoothness, specular.x, diffuse.x);
        let my = blend_component(self.smoothness, specular.y, diffuse.y);
        let mz = blend_component(self.smoothness, specular.z, diffuse.z);
        let mixed = Vec3::new(mx, my, mz);
        let direction = mixed.unit_or(n);
        ray.origin = record.collision_point;
        ray.direction = direction;
    }

    /// The direction a dielectric bounce produces: refract by Snell's law,
    /// unless total internal reflection or a Schlick reflectance draw picks
    /// the mirror direction instead. `rand_fp` is the unit-range draw.
    pub open spec fn spec_refract_dir(self, ray: Ray, record: HitRecord, rand_fp: i64) -> Vec3 {
        let n = record.normal_vector;
        let unit = crate::vec3::spec_unit_or(ray.direction, n);
        let eta = if record.front_face {
            0x1_0000_0000int / (self.refractive_index as int)
        } else {
            self.refractive_index as int
        };
        let cosine = spec_cosine(unit, n);
        let sine = sqrt_floor(0x1_0000_0000 - cosine * cosine);
        if eta * sine > 0x1_0000_0000 || rand_fp < spec_reflectance(cosine, eta) {
            crate::vec3::spec_unit_or(crate::vec3::spec_reflect(unit, n), n)
        } else {
            let refracted = spec_refract_vec(unit, n, eta, cosine);
            crate::vec3::spec_unit_or(refracted, n)
        }
    }

    /// One dielectric bounce: restart the ray at the hit point with the
    /// refracted (or, on total internal reflection or a reflectance draw,
    /// reflected) direction, re-normalised with a reflection fallback.
    pub fn refract(&self, ray: &mut Ray, record: &HitRecord, rand_fp: i64)
        requires
            material_wf(*self),
            self.is_glass,
            -0x2_0000 <= old(ray).direction.x <= 0x2_0000,
            -0x2_0000 <= old(ray).direction.y <= 0x2_0000,
            -0x2_0000 <= old(ray).direction.z <= 0x2_0000,
            -0x2_0000 <= record.normal_vector.x <= 0x2_0000,
            -0x2_0000 <= record.normal_vector.y <= 0x2_0000,
            -0x2_0000 <= record.normal_vector.z <= 0x2_0000,
            0 <= rand_fp <= 65536,
        ensures
            final(ray).origin == record.collision_point,
            final(ray).time == old(ray).time,
            final(ray).direction == self.spec_refract_dir(*old(ray), *record, rand_fp),
            -0x2_0000 <= final(ray).direction.x <= 0x2_0000,
            -0x2_0000 <= final(ray).direction.y <= 0x2_0000,
            -0x2_0000 <= final(ray).direction.z <= 0x2_0000,
    {
        let n = record.normal_vector;
        let unit = ray.direction.unit_or(n);
        let eta: i64 = if record.front_face {
            proof {
                vstd::arithmetic::div_mod::lemma_fundamental_div_mod(
                    0x1_0000_0000, self.refractive_index as int);
                crate::fixed::lemma_div_bound(
                    0x1_0000_0000, self.refractive_index as int, 0x10_0000);
                assert(0x10_0000int * self.refractive_index as int >= 0x1_0000_0000)
                    by (nonlinear_arith)
                    requires self.refractive_index as int >= MIN_REFRACTIVE as int;
            }
            floor_div_i128(0x1_0000_0000, self.refractive_index as i128) as i64
        } else {
            self.refractive_index
        };
        let cosine = unit_cosine(unit, n);
        let sine = sine_of(cosine);
        proof {
            crate::fixed::lemma_mul_bound(eta as int, sine as int, 0x10_0000, 65536);
        }
        let tir = eta as i128 * sine as i128 > 0x1_0000_0000;
        let refl = reflectance(cosine, eta);
        let direction: Vec3 = if tir || rand_fp < refl {
            unit.reflect(n).unit_or(n)
        } else {
            let refracted = refract_vec(unit, n, eta, cosine);
            refracted.unit_or(n)
        };
        ray.origin = record.collision_point;
        ray.direction = direction;
    }

    /// Mirror scatter: the incoming direction reflected about the normal.
    pub fn specular_reflection(ray: &Ray, record: &HitRecord) -> (r: Vec3)
        requires
            vec_in_range(ray.direction),
            vec_in_range(record.normal_vector),
        ensures
            r.x == ray.direction.x
                - (2 * spec_dot(ray.direction, record.normal_vector) * record.normal_vector.x)
                    / 0x1_0000_0000,
            r.y == ray.direction.y
                - (2 * spec_dot(ray.direction, record.normal_vector) * record.normal_vector.y)
                    / 0x1_0000_0000,
            r.z == ray.direction.z
                - (2 * spec_dot(ray.direction, record.normal_vector) * record.normal_vector.z)
                    / 0x1_0000_0000,
    {
        ray.direction.reflect(record.normal_vector)
    }
}

} // verus!
