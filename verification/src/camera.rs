//! The camera and the path-tracing integrator: per-pixel jittered ray
//! generation (with an optional defocus disk), the bounce loop that walks a
//! ray through the scene accumulating attenuation until it hits a light,
//! escapes to the sky or exhausts its bounce budget, and the averaging of
//! the per-pixel samples into 8-bit channels.
//!
//! Randomness enters only through one trusted draw of a unit-range value;
//! everything computed from the draws is verified for every outcome.
//! Exhausting the bounce budget without reaching any light returns black.

use vstd::prelude::*;
use rand::Rng;
use crate::colour::{COLOUR_MAX, Colour, colour_in_range, colour_lerp, colour_unit, lemma_white_mul, map_colours};
use crate::hittable::{HitRecord, HittableList, lemma_list_record_props, list_cand, list_record_of, list_textures_unit, list_wf};
use crate::interval::Interval;
use crate::texture::spec_texture_colour;
use crate::vec3::{MAX_TIME, Point3, Ray, Vec3, VecRand, point_in_range, spec_unit_or, vec_in_range};

verus! {

/// Hits nearer than this (about a thousandth of a unit) are ignored, so a
/// scattered ray does not immediately re-hit its own surface.
pub const EPSILON_TIME: i64 = 66;

/// Relies on rand::Rng::random_range: a draw uniform in the half-open
/// range handed to it, here `[0, FP_ONE)`.
#[verifier::external_body]
fn random_fp() -> (r: i64)
    ensures
        0 <= r < 65536,
{
    rand::rng().random_range(0..65536)
}

/// A jitter offset uniform in half a pixel either way.
fn sample_offset() -> (r: i64)
    ensures
        -32768 <= r < 32768,
{
    random_fp() - 32768
}

/// A random near-unit direction: rejection-sample the cube until the length
/// is within the unit ball, then normalise; a run of bad luck falls back to
/// the vertical axis.
pub fn rand_unit_vector() -> (v: Vec3)
    ensures
        -0x2_0000 <= v.x <= 0x2_0000,
        -0x2_0000 <= v.y <= 0x2_0000,
        -0x2_0000 <= v.z <= 0x2_0000,
        v == (Vec3 { x: 0i64, y: 0i64, z: 65536i64 }) || exists|w: Vec3| {
            &&& crate::vec3::vec_in_range(w)
            &&& 0 < crate::vec3::spec_dot(w, w) <= 0x1_0000_0000
            &&& v == #[trigger] spec_unit_or(w, Vec3 { x: 0i64, y: 0i64, z: 65536i64 })
        },
{
    let mut k: usize = 0;
    while k < 16
        invariant
            k <= 16,
        decreases 16 - k,
    {
        let x = random_fp() * 2 - 65536;
        let y = random_fp() * 2 - 65536;
        let z = random_fp() * 2 - 65536;
        let v = Vec3::new(x, y, z);
        let lsq = v.length_squared();
        if 0 < lsq && lsq <= 0x1_0000_0000 {
            let u = v.unit_or(Vec3::new(0, 0, 65536));
            proof {
                assert(u == spec_unit_or(v, Vec3 { x: 0i64, y: 0i64, z: 65536i64 }));
            }
            return u;
        }
        k += 1;
    }
    Vec3::new(0, 0, 65536)
}

/// A random point on the aperture disk's bounding square, in the camera
/// plane.
pub fn random_on_unit_disk() -> (v: Vec3)
    ensures
        -65536 <= v.x <= 65536,
        -65536 <= v.y <= 65536,
        v.z == 0,
{
    let x = random_fp() * 2 - 65536;
    let y = random_fp() * 2 - 65536;
    Vec3::new(x, y, 0)
}

impl VecRand for Vec3 {
    fn rand_unit_vector() -> Vec3 {
        rand_unit_vector()
    }

    fn random_on_unit_disk() -> Vec3 {
        random_on_unit_disk()
    }
}

pub struct Camera {
    pub image_width: u32,
    pub image_height: u32,
    pub center: Point3,
    pub pixel_upper_left: Point3,
    pub horizontal_pixel_delta: Vec3,
    pub vertical_pixel_delta: Vec3,
    pub rays_per_pixel: u16,
    pub max_ray_bounces: u16,
    pub defocus_angle: i64,
    pub defocus_disk_horiz_radius: Vec3,
    pub defocus_disk_vert_radius: Vec3,
    pub sky_top_colour: Colour,
    pub sky_bottom_colour: Colour,
}

/// Well-formed camera: image dimensions and basis vectors small enough
/// that every generated ray stays within the coordinate model.
pub open spec fn camera_wf(c: Camera) -> bool {
    &&& 1 <= c.image_width <= 2048
    &&& 1 <= c.image_height <= 2048
    &&& 1 <= c.rays_per_pixel
    &&& -0x800_0000 <= c.center.x <= 0x800_0000
    &&& -0x800_0000 <= c.center.y <= 0x800_0000
    &&& -0x800_0000 <= c.center.z <= 0x800_0000
    &&& -0x800_0000 <= c.pixel_upper_left.x <= 0x800_0000
    &&& -0x800_0000 <= c.pixel_upper_left.y <= 0x800_0000
    &&& -0x800_0000 <= c.pixel_upper_left.z <= 0x800_0000
    &&& -0x2000 <= c.horizontal_pixel_delta.x <= 0x2000
    &&& -0x2000 <= c.horizontal_pixel_delta.y <= 0x2000
    &&& -0x2000 <= c.horizontal_pixel_delta.z <= 0x2000
    &&& -0x2000 <= c.vertical_pixel_delta.x <= 0x2000
    &&& -0x2000 <= c.vertical_pixel_delta.y <= 0x2000
    &&& -0x2000 <= c.vertical_pixel_delta.z <= 0x2000
    &&& -0x2000 <= c.defocus_disk_horiz_radius.x <= 0x2000
    &&& -0x2000 <= c.defocus_disk_horiz_radius.y <= 0x2000
    &&& -0x2000 <= c.defocus_disk_horiz_radius.z <= 0x2000
    &&& -0x2000 <= c.defocus_disk_vert_radius.x <= 0x2000
    &&& -0x2000 <= c.defocus_disk_vert_radius.y <= 0x2000
    &&& -0x2000 <= c.defocus_disk_vert_radius.z <= 0x2000
    &&& colour_in_range(c.sky_top_colour)
    &&& colour_in_range(c.sky_bottom_colour)
}

/// The colour an escaping ray contributes: the vertical sky gradient, a
/// blend from the bottom to the top sky colour by the normalised
/// direction's vertical component shifted into the unit range.
pub open spec fn spec_sky_colour(c: Camera, direction: Vec3) -> Colour {
    let unit = spec_unit_or(direction, Vec3 { x: 0i64, y: 0i64, z: 65536i64 });
    let vr0 = (unit.y + 65536) / 2;
    let vr = if vr0 < 0 { 0int } else if vr0 > 65536 { 65536int } else { vr0 };
    colour_lerp(c.sky_bottom_colour, c.sky_top_colour, vr)
}

impl Camera {
    /// Assemble a camera from an already-derived viewport basis. The
    /// trigonometric derivation of that basis from a field of view lives
    /// with the caller; the model takes the resulting fixed-point vectors.
    pub fn new(
        image_width: u32,
        image_height: u32,
        center: Point3,
        pixel_upper_left: Point3,
        horizontal_pixel_delta: Vec3,
        vertical_pixel_delta: Vec3,
        rays_per_pixel: u16,
        max_ray_bounces: u16,
        defocus_angle: i64,
        defocus_disk_horiz_radius: Vec3,
        defocus_disk_vert_radius: Vec3,
        sky_top_colour: Colour,
        sky_bottom_colour: Colour,
    ) -> (c: Camera)
        requires
            1 <= image_width <= 2048,
            1 <= image_height <= 2048,
            1 <= rays_per_pixel,
            -0x800_0000 <= center.x <= 0x800_0000,
            -0x800_0000 <= center.y <= 0x800_0000,
            -0x800_0000 <= center.z <= 0x800_0000,
            -0x800_0000 <= pixel_upper_left.x <= 0x800_0000,
            -0x800_0000 <= pixel_upper_left.y <= 0x800_0000,
            -0x800_0000 <= pixel_upper_left.z <= 0x800_0000,
            -0x2000 <= horizontal_pixel_delta.x <= 0x2000,
            -0x2000 <= horizontal_pixel_delta.y <= 0x2000,
            -0x2000 <= horizontal_pixel_delta.z <= 0x2000,
            -0x2000 <= vertical_pixel_delta.x <= 0x2000,
            -0x2000 <= vertical_pixel_delta.y <= 0x2000,
            -0x2000 <= vertical_pixel_delta.z <= 0x2000,
            -0x2000 <= defocus_disk_horiz_radius.x <= 0x2000,
            -0x2000 <= defocus_disk_horiz_radius.y <= 0x2000,
            -0x2000 <= defocus_disk_horiz_radius.z <= 0x2000,
            -0x2000 <= defocus_disk_vert_radius.x <= 0x2000,
            -0x2000 <= defocus_disk_vert_radius.y <= 0x2000,
            -0x2000 <= defocus_disk_vert_radius.z <= 0x2000,
            colour_in_range(sky_top_colour),
            colour_in_range(sky_bottom_colour),
        ensures
            camera_wf(c),
            c.image_width == image_width,
            c.image_height == image_height,
            c.rays_per_pixel == rays_per_pixel,
            c.max_ray_bounces == max_ray_bounces,
            c.sky_top_colour == sky_top_colour,
            c.sky_bottom_colour == sky_bottom_colour,
    {
        Camera {
            image_width,
            image_height,
            center,
            pixel_upper_left,
            horizontal_pixel_delta,
            vertical_pixel_delta,
            rays_per_pixel,
            max_ray_bounces,
            defocus_angle,
            defocus_disk_horiz_radius,
            defocus_disk_vert_radius,
            sky_top_colour,
            sky_bottom_colour,
        }
    }

    /// A jittered ray through pixel `(i, j)`: the sample point is offset
    /// uniformly within half a pixel of the pixel's centre (the upper-left
    /// basis point is the centre of the first pixel), the origin optionally
    /// perturbed on the defocus disk, and the direction normalised.
    fn get_ray(&self, i: u32, j: u32) -> (r: Ray)
        requires
            camera_wf(*self),
            i < self.image_width,
            j < self.image_height,
        ensures
            point_in_range(r.origin),
            -0x2_0000 <= r.direction.x <= 0x2_0000,
            -0x2_0000 <= r.direction.y <= 0x2_0000,
            -0x2_0000 <= r.direction.z <= 0x2_0000,
    {
        let ox = sample_offset();
        let oy = sample_offset();
        let tu: i64 = i as i64 * 65536 + ox;
        let tv: i64 = j as i64 * 65536 + oy;
        let du = scaled_delta(self.horizontal_pixel_delta, tu);
        let dv = scaled_delta(self.vertical_pixel_delta, tv);
        let pixel_sample = self.pixel_upper_left.add_vec(du).add_vec(dv);
        let ray_origin = if self.defocus_angle <= 0 {
            self.center
        } else {
            self.defocus_disk_sample()
        };
        let raw_direction = pixel_sample.sub(ray_origin);
        let direction = raw_direction.unit_or(Vec3::new(0, 0, 65536));
        Ray::new(ray_origin, direction, 0)
    }

    /// A point on the defocus disk around the camera centre.
    fn defocus_disk_sample(&self) -> (p: Point3)
        requires
            camera_wf(*self),
        ensures
            point_in_range(p),
            -0xC01_0000 <= p.x <= 0xC01_0000,
            -0xC01_0000 <= p.y <= 0xC01_0000,
            -0xC01_0000 <= p.z <= 0xC01_0000,
    {
        let disk = random_on_unit_disk();
        let h = scaled_delta(self.defocus_disk_horiz_radius, disk.x);
        let v = scaled_delta(self.defocus_disk_vert_radius, disk.y);
        self.center.add_vec(h).add_vec(v)
    }

    /// Walk one ray through the scene for up to `max_ray_bounces`
    /// scattering events, multiplying the collected attenuation at each
    /// bounce. Reaching an emissive material or escaping to the sky ends
    /// the path with the light collected so far; exhausting the bounce
    /// budget without reaching light yields black (stated below, not just
    /// documented). A ray whose scene has no candidate hit in the query
    /// window returns exactly the sky gradient; if the nearest first hit
    /// the scan settles on is emissive, the result is exactly that
    /// texture's colour at the hit's surface coordinates. In a scene whose
    /// textures never exceed full brightness, with a unit-range sky, the
    /// result can never exceed full brightness: bounces only lose energy.
    pub fn ray_colour(&self, ray: Ray, world: &HittableList) -> (c: Colour)
        requires
            camera_wf(*self),
            list_wf(*world),
            point_in_range(ray.origin),
            -0x2_0000 <= ray.direction.x <= 0x2_0000,
            -0x2_0000 <= ray.direction.y <= 0x2_0000,
            -0x2_0000 <= ray.direction.z <= 0x2_0000,
        ensures
            colour_in_range(c),
            list_textures_unit(*world) && colour_unit(self.sky_top_colour)
                && colour_unit(self.sky_bottom_colour) ==> colour_unit(c),
            self.max_ray_bounces == 0 ==> c == (Colour { r: 0i64, g: 0i64, b: 0i64 }),
            (self.max_ray_bounces >= 1 && (forall|t: int|
                !(#[trigger] list_cand(*world, ray, t) && EPSILON_TIME < t < MAX_TIME)))
                ==> c == spec_sky_colour(*self, ray.direction),
            (self.max_ray_bounces >= 1 && (exists|t: int|
                #[trigger] list_cand(*world, ray, t) && EPSILON_TIME < t < MAX_TIME))
                ==> exists|rec: HitRecord| {
                    &&& #[trigger] list_record_of(*world, ray, rec)
                    &&& list_cand(*world, ray, rec.collision_time as int)
                    &&& EPSILON_TIME < rec.collision_time < MAX_TIME
                    &&& forall|t: int|
                        #[trigger] list_cand(*world, ray, t) && EPSILON_TIME < t < MAX_TIME
                            ==> rec.collision_time <= t
                    &&& rec.material.is_light ==> c == spec_texture_colour(
                        rec.material.texture, rec.u, rec.v)
                },
    {
        let ghost unit_scene = list_textures_unit(*world) && colour_unit(self.sky_top_colour)
            && colour_unit(self.sky_bottom_colour);
        let ghost no_cand = forall|t: int|
            !(#[trigger] list_cand(*world, ray, t) && EPSILON_TIME < t < MAX_TIME);
        let ghost mut first_hit: Option<HitRecord> = None;
        let mut current = ray;
        let mut accumulated = Colour::white();
        let mut light_hit = false;
        let mut bounce: u16 = 0;
        while bounce < self.max_ray_bounces && !light_hit
            invariant
                camera_wf(*self),
                list_wf(*world),
                point_in_range(current.origin),
                -0x2_0000 <= current.direction.x <= 0x2_0000,
                -0x2_0000 <= current.direction.y <= 0x2_0000,
                -0x2_0000 <= current.direction.z <= 0x2_0000,
                colour_in_range(accumulated),
                unit_scene == (list_textures_unit(*world) && colour_unit(self.sky_top_colour)
                    && colour_unit(self.sky_bottom_colour)),
                unit_scene ==> colour_unit(accumulated),
                no_cand == forall|t: int|
                    !(#[trigger] list_cand(*world, ray, t) && EPSILON_TIME < t < MAX_TIME),
                bounce <= self.max_ray_bounces,
                light_hit ==> bounce >= 1,
                bounce == 0 ==> current == ray && !light_hit
                    && accumulated == (Colour { r: 65536i64, g: 65536i64, b: 65536i64 }),
                bounce >= 1 && no_cand ==> light_hit
                    && accumulated == spec_sky_colour(*self, ray.direction),
                bounce >= 1 && !no_cand ==> first_hit is Some && {
                    let rec = first_hit->0;
                    &&& list_record_of(*world, ray, rec)
                    &&& list_cand(*world, ray, rec.collision_time as int)
                    &&& EPSILON_TIME < rec.collision_time < MAX_TIME
                    &&& forall|t: int|
                        #[trigger] list_cand(*world, ray, t) && EPSILON_TIME < t < MAX_TIME
                            ==> rec.collision_time <= t
                    &&& rec.material.is_light ==> light_hit && accumulated == spec_texture_colour(
                        rec.material.texture, rec.u, rec.v)
                },
            decreases self.max_ray_bounces - bounce,
        {
            let window = Interval::new(EPSILON_TIME, MAX_TIME);
            match world.was_hit(current, window) {
                Some(rec) => {
                    proof {
                        lemma_list_record_props(*world, current, rec);
                        if bounce == 0 {
                            first_hit = Some(rec);
                            assert(!no_cand);
                        }
                    }
                    let tex_colour = rec.material.texture.get_colour(rec.u, rec.v);
                    if rec.material.is_light {
                        proof {
                            if bounce == 0 {
                                lemma_white_mul(tex_colour);
                            }
                        }
                        accumulated = accumulated.mul(tex_colour);
                        light_hit = true;
                    } else {
                        if rec.material.is_glass {
                            let draw = random_fp();
                            rec.material.refract(&mut current, &rec, draw);
                        } else {
                            let scatter = rand_unit_vector();
                            rec.material.lerp_reflect(&mut current, &rec, scatter);
                        }
                        accumulated = accumulated.mul(tex_colour);
                    }
                },
                None => {
                    let unit = current.direction.unit_or(Vec3::new(0, 0, 65536));
                    let vr0: i64 = (unit.y + 65536) / 2;
                    let vr: i64 = if vr0 < 0 { 0 } else if vr0 > 65536 { 65536 } else { vr0 };
                    let sky = self.sky_bottom_colour.lerp(self.sky_top_colour, vr);
                    proof {
                        if bounce == 0 {
                            lemma_white_mul(sky);
                            assert(sky == colour_lerp(
                                self.sky_bottom_colour, self.sky_top_colour, vr as int));
                        }
                    }
                    accumulated = accumulated.mul(sky);
                    light_hit = true;
                },
            }
            bounce += 1;
        }
        if light_hit {
            accumulated
        } else {
            Colour::black()
        }
    }

    /// Average `rays_per_pixel` traced samples for one pixel and map the
    /// result to 8-bit channels.
    pub fn get_pixel_colour(&self, i: u32, j: u32, world: &HittableList) -> (rgb: (u8, u8, u8))
        requires
            camera_wf(*self),
            list_wf(*world),
            i < self.image_width,
            j < self.image_height,
        ensures
            self.max_ray_bounces == 0 ==> rgb == (0u8, 0u8, 0u8),
    {
        let mut sum_r: i64 = 0;
        let mut sum_g: i64 = 0;
        let mut sum_b: i64 = 0;
        let mut s: u16 = 0;
        while s < self.rays_per_pixel
            invariant
                camera_wf(*self),
                list_wf(*world),
                i < self.image_width,
                j < self.image_height,
                s <= self.rays_per_pixel,
                0 <= sum_r <= s * COLOUR_MAX,
                0 <= sum_g <= s * COLOUR_MAX,
                0 <= sum_b <= s * COLOUR_MAX,
                self.max_ray_bounces == 0 ==> sum_r == 0 && sum_g == 0 && sum_b == 0,
            decreases self.rays_per_pixel - s,
        {
            let ray = self.get_ray(i, j);
            let c = self.ray_colour(ray, world);
            proof {
                assert((s + 1) * COLOUR_MAX == s * COLOUR_MAX + COLOUR_MAX) by (nonlinear_arith);
                assert(s * COLOUR_MAX <= 65536 * COLOUR_MAX) by (nonlinear_arith)
                    requires 0 <= s as int <= 65536;
            }
            sum_r = sum_r + c.r;
            sum_g = sum_g + c.g;
            sum_b = sum_b + c.b;
            s += 1;
        }
        let n = self.rays_per_pixel as i64;
        proof {
            assert(s * COLOUR_MAX <= 65536 * COLOUR_MAX) by (nonlinear_arith)
                requires 0 <= s as int <= 65536;
            vstd::arithmetic::div_mod::lemma_fundamental_div_mod(sum_r as int, n as int);
            vstd::arithmetic::div_mod::lemma_fundamental_div_mod(sum_g as int, n as int);
            vstd::arithmetic::div_mod::lemma_fundamental_div_mod(sum_b as int, n as int);
        }
        let avg = Colour::new(sum_r / n, sum_g / n, sum_b / n);
        map_colours(&avg)
    }


    /// Render the whole image sequentially: a row-major grid of 8-bit RGB
    /// triples, origin top-left. Pixels are independent: each entry is one
    /// `get_pixel_colour` evaluation.
    pub fn render(&self, world: &HittableList) -> (img: Vec<(u8, u8, u8)>)
        requires
            camera_wf(*self),
            list_wf(*world),
        ensures
            img@.len() == self.image_height * self.image_width,
            self.max_ray_bounces == 0 ==> forall|k: int|
                0 <= k < img@.len() ==> img@[k] == (0u8, 0u8, 0u8),
    {
        let mut img: Vec<(u8, u8, u8)> = Vec::new();
        let mut j: u32 = 0;
        proof {
            assert(self.image_height * self.image_width <= 2048 * 2048) by (nonlinear_arith)
                requires
                    1 <= self.image_width <= 2048,
                    1 <= self.image_height <= 2048,
        ;
        }
        while j < self.image_height
            invariant
                camera_wf(*self),
                list_wf(*world),
                j <= self.image_height,
                img@.len() == j * self.image_width,
                self.image_height * self.image_width <= 2048 * 2048,
                self.max_ray_bounces == 0 ==> forall|k: int|
                    0 <= k < img@.len() ==> img@[k] == (0u8, 0u8, 0u8),
            decreases self.image_height - j,
        {
            let mut i: u32 = 0;
            while i < self.image_width
                invariant
                    camera_wf(*self),
                    list_wf(*world),
                    j < self.image_height,
                    i <= self.image_width,
                    img@.len() == j * self.image_width + i,
                    self.image_height * self.image_width <= 2048 * 2048,
                    self.max_ray_bounces == 0 ==> forall|k: int|
                        0 <= k < img@.len() ==> img@[k] == (0u8, 0u8, 0u8),
                decreases self.image_width - i,
            {
                let p = self.get_pixel_colour(i, j, world);
                proof {
                    assert(j * self.image_width + self.image_width
                        <= self.image_height * self.image_width) by (nonlinear_arith)
                        requires
                            j < self.image_height,
                            1 <= self.image_width,
                    ;
                }
                img.push(p);
                i += 1;
            }
            proof {
                assert((j + 1) * self.image_width == j * self.image_width + self.image_width)
                    by (nonlinear_arith);
            }
            j += 1;
        }
        img
    }
}

/// One basis vector scaled by a fixed-point parameter, with the small
/// bounds a well-formed camera provides.
fn scaled_delta(delta: Vec3, t: i64) -> (r: Vec3)
    requires
        -0x2000 <= delta.x <= 0x2000,
        -0x2000 <= delta.y <= 0x2000,
        -0x2000 <= delta.z <= 0x2000,
        -0x1000_0000 <= t <= 0x1000_0000,
    ensures
        r.x == (delta.x * t) / 65536,
        r.y == (delta.y * t) / 65536,
        r.z == (delta.z * t) / 65536,
        -0x200_0001 <= r.x <= 0x200_0000,
        -0x200_0001 <= r.y <= 0x200_0000,
        -0x200_0001 <= r.z <= 0x200_0000,
{
    proof {
        crate::fixed::lemma_mul_bound(delta.x as int, t as int, 0x2000, 0x1000_0000);
        crate::fixed::lemma_mul_bound(delta.y as int, t as int, 0x2000, 0x1000_0000);
        crate::fixed::lemma_mul_bound(delta.z as int, t as int, 0x2000, 0x1000_0000);
        assert(0x2000int * 0x1000_0000 == 0x200_0000int * 65536) by (nonlinear_arith);
        crate::fixed::lemma_div_fp_bound(delta.x as int * t as int, 0x200_0000int);
        crate::fixed::lemma_div_fp_bound(delta.y as int * t as int, 0x200_0000int);
        crate::fixed::lemma_div_fp_bound(delta.z as int * t as int, 0x200_0000int);
    }
    let x = crate::fixed::floor_div_i128(delta.x as i128 * t as i128, 65536) as i64;
    let y = crate::fixed::floor_div_i128(delta.y as i128 * t as i128, 65536) as i64;
    let z = crate::fixed::floor_div_i128(delta.z as i128 * t as i128, 65536) as i64;
    Vec3::new(x, y, z)
}

} // verus!
