//! Rendering scenarios, texture behaviour and scene-text cleanup on
//! concrete values. One fixed-point unit is 65536.

use ray_tracer::camera::Camera;
use ray_tracer::clean_scenes::{
    clean_scene, clean_whitespace, lowercase, order_lines, sort_if_comment, split_punctuation,
};
use ray_tracer::colour::{Colour, map_colours};
use ray_tracer::hittable::{HittableList, HittableObject};
use ray_tracer::material::Material;
use ray_tracer::scene_reader::{MaterialError, ObjectError, TextureError, parse_bool};
use ray_tracer::sphere::Sphere;
use ray_tracer::texture::{CheckerTexture, GradientTexture, SolidTexture, StripeTexture, Texture};
use ray_tracer::perlin_texture::PerlinTexture;
use ray_tracer::vec3::{Point3, Ray, Vec3};

const ONE: i64 = 65536;

fn grey() -> Colour {
    Colour::new(ONE / 2, ONE / 2, ONE / 2)
}

fn solid(c: Colour) -> Texture {
    SolidTexture::new(c).wrap()
}

#[test]
fn colour_mul_is_exact_on_unit_range() {
    let a = Colour::new(ONE, ONE / 2, 0);
    let b = Colour::new(ONE / 2, ONE / 2, ONE);
    let c = a.mul(b);
    assert_eq!(c, Colour::new(ONE / 2, ONE / 4, 0));
}

#[test]
fn colour_lerp_endpoints() {
    let a = Colour::new(0, 0, 0);
    let b = Colour::new(ONE, ONE, ONE);
    assert_eq!(a.lerp(b, 0), a);
    assert_eq!(a.lerp(b, ONE), b);
    assert_eq!(a.lerp(b, ONE / 2), Colour::new(ONE / 2, ONE / 2, ONE / 2));
}

#[test]
fn map_colours_clamps_and_scales() {
    assert_eq!(map_colours(&Colour::new(ONE, 0, -55)), (255, 0, 0));
    assert_eq!(map_colours(&Colour::new(2 * ONE, ONE / 2, ONE / 4)), (255, 127, 63));
}

// The checkerboard alternates purely on the parity of the cell indices of
// (u, v): same parity, same sub-texture, on any call in any order.
#[test]
fn checker_texture_parity() {
    let red = Colour::new(ONE, 0, 0);
    let blue = Colour::new(0, 0, ONE);
    let checker = CheckerTexture::new(solid(red), solid(blue), ONE / 4).wrap();
    // cell (0, 0): even
    assert_eq!(checker.get_colour(0, 0), red);
    // cell (1, 0): odd
    assert_eq!(checker.get_colour(ONE / 4, 0), blue);
    // cell (1, 1): even again
    assert_eq!(checker.get_colour(ONE / 4, ONE / 4), red);
    // cell (2, 1): odd; and repeated evaluation is identical
    assert_eq!(checker.get_colour(ONE / 2, ONE / 4), blue);
    assert_eq!(checker.get_colour(ONE / 2, ONE / 4), blue);
}

#[test]
fn stripe_texture_alternates_along_one_axis() {
    let red = Colour::new(ONE, 0, 0);
    let blue = Colour::new(0, 0, ONE);
    let stripe = StripeTexture::new_u(solid(red), solid(blue), ONE / 4).wrap();
    assert_eq!(stripe.get_colour(0, ONE / 2), red);
    assert_eq!(stripe.get_colour(ONE / 4, 0), blue);
    assert_eq!(stripe.get_colour(ONE / 2, ONE / 4), red);
}

#[test]
fn gradient_texture_blends() {
    let black = Colour::new(0, 0, 0);
    let white = Colour::new(ONE, ONE, ONE);
    let grad = GradientTexture::new_u(solid(black), solid(white)).wrap();
    // ratio 0 gives the top texture, ratio one the bottom texture
    assert_eq!(grad.get_colour(0, 0), white);
    assert_eq!(grad.get_colour(ONE, 0), black);
    assert_eq!(grad.get_colour(ONE / 2, 0), Colour::new(ONE / 2, ONE / 2, ONE / 2));
}

#[test]
fn perlin_texture_is_deterministic_and_bounded() {
    let p = PerlinTexture::new(ONE / 8, Colour::new(ONE, ONE, ONE));
    let t = Texture::Perlin(p);
    let a = t.get_colour(ONE / 3, ONE / 5);
    let b = t.get_colour(ONE / 3, ONE / 5);
    assert_eq!(a, b);
    assert!(0 <= a.r && a.r <= ONE);
    assert!(0 <= a.g && a.g <= ONE);
    assert!(0 <= a.b && a.b <= ONE);
    let c = t.get_colour(ONE / 7, ONE / 2);
    assert!(0 <= c.r && c.r <= ONE);
}

#[test]
fn uv_texture_returns_coordinates() {
    let t = Texture::UV;
    assert_eq!(t.get_colour(ONE / 4, ONE / 2), Colour::new(ONE / 4, ONE / 2, 0));
}

#[test]
fn glass_constructor_clamps_index() {
    let m = Material::new_glass(1, solid(grey()));
    assert_eq!(m.refractive_index, 0x1000);
    let m2 = Material::new_glass(3 * ONE / 2, solid(grey()));
    assert_eq!(m2.refractive_index, 3 * ONE / 2);
    assert!(m2.is_glass);
    assert!(!m2.is_light);
}

#[test]
fn light_constructor_marks_emissive() {
    let m = Material::new_light(solid(grey()));
    assert!(m.is_light);
    assert!(!m.is_glass);
}

fn test_camera(rays: u16, bounces: u16) -> Camera {
    // camera at (0, 0, 5) looking at the origin, vertical fov 40 degrees,
    // square image: basis derived with floating point here, handed to the
    // model as fixed-point values
    let width: u32 = 9;
    let height: u32 = 9;
    let fov_deg = 40.0f64;
    let h = (fov_deg.to_radians() / 2.0).tan();
    let viewport_height = 2.0 * h;
    let viewport_width = viewport_height;
    // w = +z, u = +x, v = +y for this placement
    let du = viewport_width / width as f64;
    let dv = -viewport_height / height as f64;
    let fp = |x: f64| (x * 65536.0).round() as i64;
    let horizontal_pixel_delta = Vec3::new(fp(du), 0, 0);
    let vertical_pixel_delta = Vec3::new(0, fp(dv), 0);
    let upper_left_x = -viewport_width / 2.0 + du / 2.0;
    let upper_left_y = viewport_height / 2.0 + dv / 2.0;
    let pixel_upper_left = Point3::new(fp(upper_left_x), fp(upper_left_y), fp(5.0 - 1.0));
    Camera::new(
        width,
        height,
        Point3::new(0, 0, 5 * ONE),
        pixel_upper_left,
        horizontal_pixel_delta,
        vertical_pixel_delta,
        rays,
        bounces,
        0,
        Vec3::new(0, 0, 0),
        Vec3::new(0, 0, 0),
        Colour::new(ONE / 2, ONE * 7 / 10, ONE),
        Colour::new(ONE, ONE, ONE),
    )
}

fn single_sphere_scene() -> HittableList {
    let mut list = HittableList::new();
    list.push(HittableObject::Sphere(Sphere::new_still(
        Point3::new(0, 0, 0),
        ONE,
        Material::new_opaque(0, solid(grey())),
    )));
    list
}

// Single grey diffuse sphere, camera on the z axis: a ray through the
// image centre hits the sphere and, with a one-bounce budget and no light
// to reach, ends black; a ray that misses ends exactly at the sky gradient
// for its vertical angle.
#[test]
fn centre_ray_hits_corner_ray_is_sky() {
    let camera = test_camera(1, 1);
    let world = single_sphere_scene();
    let centre_ray = Ray::new(Point3::new(0, 0, 5 * ONE), Vec3::new(0, 0, -ONE), 0);
    let centre = camera.ray_colour(centre_ray, &world);
    // depth exhausted without light: black, clearly not the sky gradient
    assert_eq!(centre, Colour::new(0, 0, 0));

    let corner_dir = Vec3::new(3 * ONE / 4, 3 * ONE / 4, -ONE);
    let corner_ray = Ray::new(Point3::new(0, 0, 5 * ONE), corner_dir, 0);
    let corner = camera.ray_colour(corner_ray, &world);
    // expected sky value: lerp of bottom to top by the unit direction's
    // shifted vertical component, all in exact integer arithmetic
    let unit = corner_dir.unit_or(Vec3::new(0, 0, ONE));
    let vr = (unit.y + ONE) / 2;
    let expected = camera.sky_bottom_colour.lerp(camera.sky_top_colour, vr);
    assert_eq!(corner, expected);
    assert_ne!(corner, centre);
}

// An all-diffuse, non-emissive closed path can only lose energy: with a
// unit-range sky every resulting component stays within the unit range.
#[test]
fn diffuse_scene_never_gains_energy() {
    let camera = test_camera(1, 8);
    let world = single_sphere_scene();
    for k in 0..20i64 {
        let dir = Vec3::new((k - 10) * ONE / 10, ONE / 3, -ONE);
        let ray = Ray::new(Point3::new(0, 0, 5 * ONE), dir, 0);
        let c = camera.ray_colour(ray, &world);
        assert!(0 <= c.r && c.r <= ONE);
        assert!(0 <= c.g && c.g <= ONE);
        assert!(0 <= c.b && c.b <= ONE);
    }
}

// With a zero bounce budget no path can reach light: every ray, every
// pixel and the whole image are black, as the contracts state.
#[test]
fn zero_bounce_budget_renders_black() {
    let camera = test_camera(2, 0);
    let world = single_sphere_scene();
    let ray = Ray::new(Point3::new(0, 0, 5 * ONE), Vec3::new(0, 0, -ONE), 0);
    assert_eq!(camera.ray_colour(ray, &world), Colour::new(0, 0, 0));
    assert_eq!(camera.get_pixel_colour(4, 4, &world), (0, 0, 0));
    let img = camera.render(&world);
    assert!(img.iter().all(|p| *p == (0, 0, 0)));
}

// A scene with no objects at all: every ray escapes, and the result is
// exactly the sky gradient of its own direction.
#[test]
fn empty_scene_returns_exact_sky() {
    let camera = test_camera(1, 4);
    let world = HittableList::new();
    for k in 0..8i64 {
        let dir = Vec3::new(k * ONE / 8, (4 - k) * ONE / 8, -ONE);
        let ray = Ray::new(Point3::new(0, 0, 5 * ONE), dir, 0);
        let c = camera.ray_colour(ray, &world);
        let unit = dir.unit_or(Vec3::new(0, 0, ONE));
        let vr = (unit.y + ONE) / 2;
        let expected = camera.sky_bottom_colour.lerp(camera.sky_top_colour, vr);
        assert_eq!(c, expected);
    }
}

// A first hit on an emissive material ends the path with exactly that
// texture's colour.
#[test]
fn light_hit_is_terminal() {
    let camera = test_camera(1, 4);
    let glow = Colour::new(ONE / 2, ONE / 4, ONE / 8);
    let mut world = HittableList::new();
    world.push(HittableObject::Sphere(Sphere::new_still(
        Point3::new(0, 0, 0),
        ONE,
        Material::new_light(solid(glow)),
    )));
    let ray = Ray::new(Point3::new(0, 0, 5 * ONE), Vec3::new(0, 0, -ONE), 0);
    assert_eq!(camera.ray_colour(ray, &world), glow);
}

#[test]
fn render_produces_full_grid() {
    let camera = test_camera(2, 3);
    let world = single_sphere_scene().optimise();
    let img = camera.render(&world);
    assert_eq!(img.len(), 81);
}

#[test]
fn lowercase_maps_ascii_letters() {
    let r = lowercase(String::from("AbC; xY_9"));
    assert_eq!(r, String::from("abc; xy_9"));
}

#[test]
fn split_punctuation_spaces_marks() {
    assert_eq!(split_punctuation(String::from("a;b,c")), String::from("a; b, c"));
    assert_eq!(split_punctuation(String::from("x//note")), String::from("x// note"));
}

#[test]
fn clean_whitespace_collapses_blanks() {
    let r = clean_whitespace(String::from("a \t b\n\n\n\nc  d \n"));
    assert_eq!(r, String::from("a b\n\nc d\n"));
}

#[test]
fn order_lines_keeps_header_and_sorts_kinds() {
    let scene = String::from(
        "camera_line\nsky_line\nobject; o1\npoint; p1\nmaterial; m1\ncolour; c1\n",
    );
    let r = order_lines(scene);
    let expected = "camera_line\nsky_line\n\npoint; p1\ncolour; c1\nmaterial; m1\nobject; o1\n";
    assert_eq!(r, String::from(expected));
}

#[test]
fn sort_if_comment_keeps_untyped_positions() {
    let lines: Vec<Vec<u8>> = vec![
        b"object; o".to_vec(),
        b"// a comment".to_vec(),
        b"point; p".to_vec(),
    ];
    let sorted = sort_if_comment(lines);
    assert_eq!(sorted.len(), 3);
    assert_eq!(sorted[0], b"point; p".to_vec());
    assert_eq!(sorted[1], b"// a comment".to_vec());
    assert_eq!(sorted[2], b"object; o".to_vec());
}

#[test]
fn clean_scene_pipeline() {
    let scene = String::from("CAM\nSKY\nobject;o\npoint;p\n");
    let r = clean_scene(scene);
    assert_eq!(r, String::from("cam\nsky\n\npoint; p\nobject; o\n"));
}

#[test]
fn parse_bool_accepts_the_two_words() {
    assert!(parse_bool(&String::from("true")));
    assert!(!parse_bool(&String::from("false")));
}

#[test]
fn error_enums_carry_descriptions() {
    let m = MaterialError::Opaque(String::from("bad"));
    assert_eq!(m.description().as_str(), "bad");
    let o = ObjectError::Sphere(String::from("oops"));
    assert_eq!(o.description().as_str(), "oops");
    let t = TextureError::Checker(String::from("nope"));
    assert_eq!(t.description().as_str(), "nope");
}

#[test]
fn direction_word_constructors() {
    let red = Colour::new(ONE, 0, 0);
    let blue = Colour::new(0, 0, ONE);
    let g = GradientTexture::new_with_dir_name(solid(red), solid(blue), "uv");
    assert!(g.is_some());
    assert!(GradientTexture::new_with_dir_name(solid(red), solid(blue), "w").is_none());
    let s = StripeTexture::new_with_dir_name(solid(red), solid(blue), ONE / 4, "v");
    assert!(s.is_some());
    assert!(StripeTexture::new_with_dir_name(solid(red), solid(blue), ONE / 4, "uv").is_none());
}

#[test]
fn default_texture_is_black_solid() {
    let t = Texture::default();
    assert_eq!(t.get_colour(ONE / 3, ONE / 7), Colour::new(0, 0, 0));
}
