//! Surface textures: a closed variant type evaluated purely as a function
//! of the `(u, v)` surface coordinates. No texture holds mutable state, so
//! every evaluation of the same texture at the same coordinates gives the
//! same colour.

use vstd::prelude::*;
use vstd::string::{StringSliceAdditionalSpecFns, StrSliceExecFns};
use crate::colour::{Colour, colour_in_range, colour_lerp, colour_unit, spec_mul_sat};
use crate::perlin_texture::{PerlinTexture, spec_perlin_value};

verus! {

#[derive(Debug)]
pub enum Texture {
    Solid(SolidTexture),
    Checker(CheckerTexture),
    Perlin(PerlinTexture),
    Stripe(StripeTexture),
    Gradient(GradientTexture),
    UV,
}

#[derive(Clone, Copy, Debug)]
pub struct SolidTexture {
    pub colour: Colour,
}

#[derive(Debug)]
pub struct CheckerTexture {
    pub even_texture: Box<Texture>,
    pub odd_texture: Box<Texture>,
    pub scale: i64,
}

#[derive(Clone, Copy, Debug)]
pub enum StripeDirection {
    U,
    V,
}

#[derive(Debug)]
pub struct StripeTexture {
    pub even_texture: Box<Texture>,
    pub odd_texture: Box<Texture>,
    pub scale: i64,
    pub direction: StripeDirection,
}

#[derive(Clone, Copy, Debug)]
pub enum GradientDirection {
    U,
    V,
    UV,
}

#[derive(Debug)]
pub struct GradientTexture {
    pub bottom_texture: Box<Texture>,
    pub top_texture: Box<Texture>,
    pub direction: GradientDirection,
}

/// Well-formed texture: all colours in range and all cell scales positive
/// and bounded.
pub open spec fn texture_wf(t: Texture) -> bool
    decreases t,
{
    match t {
        Texture::Solid(s) => colour_in_range(s.colour),
        Texture::Checker(c) => 0 < c.scale <= 0x100_0000
            && texture_wf(*c.even_texture) && texture_wf(*c.odd_texture),
        Texture::Perlin(p) => 0 < p.scale <= 0x100_0000 && colour_in_range(p.colour),
        Texture::Stripe(s) => 0 < s.scale <= 0x100_0000
            && texture_wf(*s.even_texture) && texture_wf(*s.odd_texture),
        Texture::Gradient(g) => texture_wf(*g.bottom_texture) && texture_wf(*g.top_texture),
        Texture::UV => true,
    }
}

/// Every colour held anywhere in the texture stays within the unit range:
/// such a texture can only attenuate light, never amplify it.
pub open spec fn texture_unit(t: Texture) -> bool
    decreases t,
{
    match t {
        Texture::Solid(s) => colour_unit(s.colour),
        Texture::Checker(c) => texture_unit(*c.even_texture) && texture_unit(*c.odd_texture),
        Texture::Perlin(p) => colour_unit(p.colour),
        Texture::Stripe(s) => texture_unit(*s.even_texture) && texture_unit(*s.odd_texture),
        Texture::Gradient(g) => texture_unit(*g.bottom_texture) && texture_unit(*g.top_texture),
        Texture::UV => true,
    }
}

/// The colour of a texture at surface coordinates `(u, v)`.
pub open spec fn spec_texture_colour(t: Texture, u: i64, v: i64) -> Colour
    decreases t,
{
    match t {
        Texture::Solid(s) => s.colour,
        Texture::Checker(c) => {
            if (u / c.scale + v / c.scale) % 2 == 0 {
                spec_texture_colour(*c.even_texture, u, v)
            } else {
                spec_texture_colour(*c.odd_texture, u, v)
            }
        },
        Texture::Perlin(p) => {
            let value = spec_perlin_value(p.scale as int, u as int, v as int);
            Colour {
                r: spec_mul_sat(p.colour.r, value as i64),
                g: spec_mul_sat(p.colour.g, value as i64),
                b: spec_mul_sat(p.colour.b, value as i64),
            }
        },
        Texture::Stripe(s) => {
            let pos = match s.direction {
                StripeDirection::U => u / s.scale,
                StripeDirection::V => v / s.scale,
            };
            if pos % 2 == 0 {
                spec_texture_colour(*s.even_texture, u, v)
            } else {
                spec_texture_colour(*s.odd_texture, u, v)
            }
        },
        Texture::Gradient(g) => {
            let ratio = match g.direction {
                GradientDirection::U => u as int,
                GradientDirection::V => v as int,
                GradientDirection::UV => (u + v) / 2,
            };
            colour_lerp(
                spec_texture_colour(*g.top_texture, u, v),
                spec_texture_colour(*g.bottom_texture, u, v),
                ratio,
            )
        },
        Texture::UV => Colour { r: u, g: v, b: 0 },
    }
}

impl Texture {
    /// Evaluate the texture at `(u, v)`: a pure function of the texture
    /// value and the coordinates. A texture whose colours all stay within
    /// the unit range yields a unit-range colour.
    #[verifier::rlimit(100)]
    pub fn get_colour(&self, u: i64, v: i64) -> (r: Colour)
        requires
            texture_wf(*self),
            0 <= u <= 65536,
            0 <= v <= 65536,
        ensures
            r == spec_texture_colour(*self, u, v),
            colour_in_range(r),
            texture_unit(*self) ==> colour_unit(r),
        decreases *self,
    {
        match self {
            Texture::Solid(s) => s.colour,
            Texture::Checker(c) => {
                let pu = u / c.scale;
                let pv = v / c.scale;
                if (pu + pv) % 2 == 0 {
                    c.even_texture.get_colour(u, v)
                } else {
                    c.odd_texture.get_colour(u, v)
                }
            },
            Texture::Perlin(p) => {
                let value = p.get_value(u, v);
                let scaled = p.colour.mul(Colour::new(value, value, value));
                scaled
            },
            Texture::Stripe(s) => {
                let pos = match s.direction {
                    StripeDirection::U => u / s.scale,
                    StripeDirection::V => v / s.scale,
                };
                if pos % 2 == 0 {
                    s.even_texture.get_colour(u, v)
                } else {
                    s.odd_texture.get_colour(u, v)
                }
            },
            Texture::Gradient(g) => {
                let ratio: i64 = match g.direction {
                    GradientDirection::U => u,
                    GradientDirection::V => v,
                    GradientDirection::UV => (u + v) / 2,
                };
                let top = g.top_texture.get_colour(u, v);
                let bottom = g.bottom_texture.get_colour(u, v);
                top.lerp(bottom, ratio)
            },
            Texture::UV => Colour::new(u, v, 0),
        }
    }
}

impl SolidTexture {
    pub fn new(colour: Colour) -> (r: SolidTexture)
        ensures
            r == (SolidTexture { colour }),
    {
        SolidTexture { colour }
    }

    pub fn wrap(self) -> (r: Texture)
        ensures
            r == Texture::Solid(self),
    {
        Texture::Solid(self)
    }
}

impl CheckerTexture {
    /// A checkerboard alternating between two textures in cells of side
    /// `size` in surface coordinates.
    pub fn new(even_texture: Texture, odd_texture: Texture, size: i64) -> (r: CheckerTexture)
        requires
            0 < size <= 0x100_0000,
        ensures
            r.even_texture == even_texture,
            r.odd_texture == odd_texture,
            r.scale == size,
    {
        CheckerTexture {
            even_texture: Box::new(even_texture),
            odd_texture: Box::new(odd_texture),
            scale: size,
        }
    }

    pub fn wrap(self) -> (r: Texture)
        ensures
            r == Texture::Checker(self),
    {
        Texture::Checker(self)
    }
}

impl StripeTexture {
    pub fn new_u(even_texture: Texture, odd_texture: Texture, size: i64) -> (r: StripeTexture)
        requires
            0 < size <= 0x100_0000,
        ensures
            r.even_texture == even_texture,
            r.odd_texture == odd_texture,
            r.scale == size,
            r.direction == StripeDirection::U,
    {
        StripeTexture {
            even_texture: Box::new(even_texture),
            odd_texture: Box::new(odd_texture),
            scale: size,
            direction: StripeDirection::U,
        }
    }

    pub fn new_v(even_texture: Texture, odd_texture: Texture, size: i64) -> (r: StripeTexture)
        requires
            0 < size <= 0x100_0000,
        ensures
            r.even_texture == even_texture,
            r.odd_texture == odd_texture,
            r.scale == size,
            r.direction == StripeDirection::V,
    {
        StripeTexture {
            even_texture: Box::new(even_texture),
            odd_texture: Box::new(odd_texture),
            scale: size,
            direction: StripeDirection::V,
        }
    }

    pub fn wrap(self) -> (r: Texture)
        ensures
            r == Texture::Stripe(self),
    {
        Texture::Stripe(self)
    }
}

impl GradientTexture {
    pub fn new_u(bottom_texture: Texture, top_texture: Texture) -> (r: GradientTexture)
        ensures
            r.bottom_texture == bottom_texture,
            r.top_texture == top_texture,
            r.direction == GradientDirection::U,
    {
        GradientTexture {
            bottom_texture: Box::new(bottom_texture),
            top_texture: Box::new(top_texture),
            direction: GradientDirection::U,
        }
    }

    pub fn new_v(bottom_texture: Texture, top_texture: Texture) -> (r: GradientTexture)
        ensures
            r.bottom_texture == bottom_texture,
            r.top_texture == top_texture,
            r.direction == GradientDirection::V,
    {
        GradientTexture {
            bottom_texture: Box::new(bottom_texture),
            top_texture: Box::new(top_texture),
            direction: GradientDirection::V,
        }
    }

    pub fn new_uv(bottom_texture: Texture, top_texture: Texture) -> (r: GradientTexture)
        ensures
            r.bottom_texture == bottom_texture,
            r.top_texture == top_texture,
            r.direction == GradientDirection::UV,
    {
        GradientTexture {
            bottom_texture: Box::new(bottom_texture),
            top_texture: Box::new(top_texture),
            direction: GradientDirection::UV,
        }
    }

    pub fn wrap(self) -> (r: Texture)
        ensures
            r == Texture::Gradient(self),
    {
        Texture::Gradient(self)
    }
}

impl Clone for Texture {
    /// Structural deep copy: the clone is equal to the original.
    fn clone(&self) -> (res: Self)
        ensures
            res == *self,
        decreases *self,
    {
        match self {
            Texture::Solid(s) => Texture::Solid(*s),
            Texture::Checker(c) => Texture::Checker(CheckerTexture {
                even_texture: Box::new((&*c.even_texture).clone()),
                odd_texture: Box::new((&*c.odd_texture).clone()),
                scale: c.scale,
            }),
            Texture::Perlin(p) => Texture::Perlin(*p),
            Texture::Stripe(s) => Texture::Stripe(StripeTexture {
                even_texture: Box::new((&*s.even_texture).clone()),
                odd_texture: Box::new((&*s.odd_texture).clone()),
                scale: s.scale,
                direction: s.direction,
            }),
            Texture::Gradient(g) => Texture::Gradient(GradientTexture {
                bottom_texture: Box::new((&*g.bottom_texture).clone()),
                top_texture: Box::new((&*g.top_texture).clone()),
                direction: g.direction,
            }),
            Texture::UV => Texture::UV,
        }
    }
}

/// Whether a direction word (one or two bytes) spells the given ASCII
/// letters; 0 stands for "no second letter".
fn word_is(s: &str, a: u8, b: u8) -> (r: bool)
    requires
        0 < a < 128,
        b < 128,
    ensures
        r == if b == 0 {
            s@ == seq![a as char]
        } else {
            s@ == seq![a as char, b as char]
        },
{
    proof {
        broadcast use vstd::string::is_ascii_spec_bytes;
    }
    if !s.is_ascii() {
        proof {
            lemma_non_ascii_word(s@, a, b);
        }
        return false;
    }
    let bytes = s.as_bytes();
    proof {
        assert(s.spec_bytes() =~= Seq::new(s@.len(), |i: int| s@[i] as u8));
    }
    let r = if b == 0 {
        bytes.len() == 1 && bytes[0] == a
    } else {
        bytes.len() == 2 && bytes[0] == a && bytes[1] == b
    };
    proof {
        let expected = if b == 0 { seq![a as char] } else { seq![a as char, b as char] };
        if r {
            assert forall|i: int| 0 <= i < s@.len() implies s@[i] == expected[i] by {
                assert(s@[i] as u8 == s.spec_bytes()[i]);
                assert('\u{0}' <= s@[i] <= '\u{7f}');
            }
            assert(s@ =~= expected);
        } else {
            if s@ == expected {
                assert(s.spec_bytes()[0] == s@[0] as u8);
                if b != 0 {
                    assert(s.spec_bytes()[1] == s@[1] as u8);
                }
                assert(false);
            }
        }
    }
    r
}

proof fn lemma_non_ascii_word(s: Seq<char>, a: u8, b: u8)
    requires
        !vstd::utf8::is_ascii_chars(s),
        a < 128,
        b < 128,
    ensures
        s != seq![a as char],
        s != seq![a as char, b as char],
{
    if s == seq![a as char] || s == seq![a as char, b as char] {
        assert forall|i: int| 0 <= i < s.len() implies '\u{0}' <= #[trigger] s[i] <= '\u{7f}' by {
        }
        assert(vstd::utf8::is_ascii_chars(s));
    }
}

/// The words `u` and `v` differ, and neither is the word `uv`.
proof fn lemma_direction_words_distinct()
    ensures
        seq!['u'] != seq!['v'],
        seq!['u'] != seq!['u', 'v'],
        seq!['v'] != seq!['u', 'v'],
{
    assert(('u' as u8) == 117 && ('v' as u8) == 118);
    if seq!['u'] == seq!['v'] {
        assert(seq!['u'][0] == seq!['v'][0]);
        assert(false);
    }
    if seq!['u'] == seq!['u', 'v'] {
        assert(seq!['u'].len() == seq!['u', 'v'].len());
        assert(false);
    }
    if seq!['v'] == seq!['u', 'v'] {
        assert(seq!['v'].len() == seq!['u', 'v'].len());
        assert(false);
    }
}

impl GradientTexture {
    /// Build a gradient from a direction word: `u`, `v` or `uv`; any other
    /// word is rejected.
    pub fn new_with_dir_name(bottom_texture: Texture, top_texture: Texture, direction: &str)
        -> (r: Option<GradientTexture>)
        ensures
            match r {
                Some(g) => {
                    &&& g.bottom_texture == bottom_texture
                    &&& g.top_texture == top_texture
                    &&& (g.direction == GradientDirection::U <==> direction@ == seq!['u'])
                    &&& (g.direction == GradientDirection::V <==> direction@ == seq!['v'])
                    &&& (g.direction == GradientDirection::UV <==> direction@ == seq!['u', 'v'])
                },
                None => direction@ != seq!['u'] && direction@ != seq!['v']
                    && direction@ != seq!['u', 'v'],
            },
    {
        proof {
            lemma_direction_words_distinct();
        }
        if word_is(direction, 117, 0) {
            Some(GradientTexture::new_u(bottom_texture, top_texture))
        } else if word_is(direction, 118, 0) {
            Some(GradientTexture::new_v(bottom_texture, top_texture))
        } else if word_is(direction, 117, 118) {
            Some(GradientTexture::new_uv(bottom_texture, top_texture))
        } else {
            None
        }
    }
}

impl StripeTexture {
    /// Build a stripe texture from a direction word: `u` or `v`; any other
    /// word is rejected.
    pub fn new_with_dir_name(
        even_texture: Texture,
        odd_texture: Texture,
        size: i64,
        direction: &str,
    ) -> (r: Option<StripeTexture>)
        requires
            0 < size <= 0x100_0000,
        ensures
            match r {
                Some(s) => {
                    &&& s.even_texture == even_texture
                    &&& s.odd_texture == odd_texture
                    &&& s.scale == size
                    &&& (s.direction == StripeDirection::U <==> direction@ == seq!['u'])
                    &&& (s.direction == StripeDirection::V <==> direction@ == seq!['v'])
                },
                None => direction@ != seq!['u'] && direction@ != seq!['v'],
            },
    {
        proof {
            lemma_direction_words_distinct();
        }
        if word_is(direction, 117, 0) {
            Some(StripeTexture::new_u(even_texture, odd_texture, size))
        } else if word_is(direction, 118, 0) {
            Some(StripeTexture::new_v(even_texture, odd_texture, size))
        } else {
            None
        }
    }
}

impl Default for Texture {
    /// The default texture is solid black.
    fn default() -> (r: Texture)
        ensures
            r == Texture::Solid(SolidTexture { colour: Colour { r: 0i64, g: 0i64, b: 0i64 } }),
    {
        Texture::Solid(SolidTexture::new(Colour::black()))
    }
}

impl Colour {
    /// Wrap a plain colour as a solid texture.
    pub fn to_texture(self) -> (r: Texture)
        ensures
            r == Texture::Solid(SolidTexture { colour: self }),
    {
        SolidTexture::new(self).wrap()
    }
}

/// Which sub-texture a checkerboard samples depends only on the parity of
/// `floor(u / scale) + floor(v / scale)`: coordinates in cells of equal
/// parity sample the same sub-texture at their own coordinates.
pub proof fn lemma_checker_parity(c: CheckerTexture, u1: i64, v1: i64, u2: i64, v2: i64)
    requires
        (u1 / c.scale + v1 / c.scale) % 2 == (u2 / c.scale + v2 / c.scale) % 2,
    ensures
        (u1 / c.scale + v1 / c.scale) % 2 == 0 ==> {
            &&& spec_texture_colour(Texture::Checker(c), u1, v1)
                == spec_texture_colour(*c.even_texture, u1, v1)
            &&& spec_texture_colour(Texture::Checker(c), u2, v2)
                == spec_texture_colour(*c.even_texture, u2, v2)
        },
        (u1 / c.scale + v1 / c.scale) % 2 != 0 ==> {
            &&& spec_texture_colour(Texture::Checker(c), u1, v1)
                == spec_texture_colour(*c.odd_texture, u1, v1)
            &&& spec_texture_colour(Texture::Checker(c), u2, v2)
                == spec_texture_colour(*c.odd_texture, u2, v2)
        },
{
}

} // verus!
