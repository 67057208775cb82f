//! Colours as fixed-point RGB triples. Components are linear light with
//! `FP_ONE` as full brightness; multiplication saturates at `COLOUR_MAX` so
//! that repeated accumulation stays well formed, and is exact on the unit
//! range. Output mapping to 8-bit channels clamps to the unit range and
//! scales linearly (no gamma step: textures are treated as already
//! perceptual, matching the renderer this feeds).

use vstd::prelude::*;
use crate::fixed::mul_fp;

verus! {

/// Upper bound on any colour component: 256 times full brightness.
pub const COLOUR_MAX: i64 = 0x100_0000;

#[derive(Clone, Copy, Debug, PartialEq, Eq, Structural)]
pub struct Colour {
    pub r: i64,
    pub g: i64,
    pub b: i64,
}

/// All components within `[0, COLOUR_MAX]`.
pub open spec fn colour_in_range(c: Colour) -> bool {
    0 <= c.r <= COLOUR_MAX && 0 <= c.g <= COLOUR_MAX && 0 <= c.b <= COLOUR_MAX
}

/// All components within the unit range `[0, FP_ONE]`.
pub open spec fn colour_unit(c: Colour) -> bool {
    0 <= c.r <= 65536 && 0 <= c.g <= 65536 && 0 <= c.b <= 65536
}

/// Componentwise fixed-point interpolation from `a` (ratio 0) to `b`
/// (ratio `FP_ONE`), rounding down.
pub open spec fn colour_lerp(a: Colour, b: Colour, ratio: int) -> Colour {
    Colour {
        r: (((65536 - ratio) * a.r + ratio * b.r) / 65536) as i64,
        g: (((65536 - ratio) * a.g + ratio * b.g) / 65536) as i64,
        b: (((65536 - ratio) * a.b + ratio * b.b) / 65536) as i64,
    }
}

/// One fixed-point product, saturated at `COLOUR_MAX`.
pub open spec fn spec_mul_sat(a: i64, b: i64) -> i64 {
    if (a * b) / 65536 > COLOUR_MAX {
        COLOUR_MAX
    } else {
        ((a * b) / 65536) as i64
    }
}

impl Colour {
    pub fn new(r: i64, g: i64, b: i64) -> (c: Colour)
        ensures
            c == (Colour { r, g, b }),
    {
        Colour { r, g, b }
    }

    /// Full brightness in every channel.
    pub fn white() -> (c: Colour)
        ensures
            c == (Colour { r: 65536i64, g: 65536i64, b: 65536i64 }),
    {
        Colour { r: 65536, g: 65536, b: 65536 }
    }

    /// No light in any channel.
    pub fn black() -> (c: Colour)
        ensures
            c == (Colour { r: 0i64, g: 0i64, b: 0i64 }),
    {
        Colour { r: 0, g: 0, b: 0 }
    }

    pub fn add(self, o: Colour) -> (c: Colour)
        requires
            colour_in_range(self),
            colour_in_range(o),
        ensures
            c.r == self.r + o.r && c.g == self.g + o.g && c.b == self.b + o.b,
    {
        Colour { r: self.r + o.r, g: self.g + o.g, b: self.b + o.b }
    }

    /// Componentwise fixed-point product, saturated at `COLOUR_MAX`. On
    /// unit-range operands the result is exact and stays in the unit range,
    /// so a path that only ever attenuates cannot gain energy.
    pub fn mul(self, o: Colour) -> (c: Colour)
        requires
            colour_in_range(self),
            colour_in_range(o),
        ensures
            c.r == spec_mul_sat(self.r, o.r),
            c.g == spec_mul_sat(self.g, o.g),
            c.b == spec_mul_sat(self.b, o.b),
            colour_in_range(c),
            colour_unit(self) && colour_unit(o) ==> colour_unit(c),
    {
        let r = mul_fp(self.r, o.r);
        let g = mul_fp(self.g, o.g);
        let b = mul_fp(self.b, o.b);
        Colour {
            r: if r > COLOUR_MAX { COLOUR_MAX } else { r },
            g: if g > COLOUR_MAX { COLOUR_MAX } else { g },
            b: if b > COLOUR_MAX { COLOUR_MAX } else { b },
        }
    }

    /// Linear interpolation: `(1 - ratio) * self + ratio * rhs` in fixed
    /// point, componentwise, rounding down. The result never leaves the
    /// range spanned by the operands.
    pub fn lerp(self, rhs: Colour, ratio: i64) -> (c: Colour)
        requires
            colour_in_range(self),
            colour_in_range(rhs),
            0 <= ratio <= 65536,
        ensures
            c.r == ((65536 - ratio) * self.r + ratio * rhs.r) / 65536,
            c.g == ((65536 - ratio) * self.g + ratio * rhs.g) / 65536,
            c.b == ((65536 - ratio) * self.b + ratio * rhs.b) / 65536,
            c == colour_lerp(self, rhs, ratio as int),
            colour_in_range(c),
            colour_unit(self) && colour_unit(rhs) ==> colour_unit(c),
    {
        let r = lerp_component(self.r, rhs.r, ratio);
        let g = lerp_component(self.g, rhs.g, ratio);
        let b = lerp_component(self.b, rhs.b, ratio);
        Colour { r, g, b }
    }
}

/// Scalar fixed-point interpolation on the unit range:
/// `((FP_ONE - ratio) * a + ratio * b) / FP_ONE`, staying within `[0, FP_ONE]`.
pub fn lerp_unit(a: i64, b: i64, ratio: i64) -> (r: i64)
    requires
        0 <= a <= 65536,
        0 <= b <= 65536,
        0 <= ratio <= 65536,
    ensures
        r == ((65536 - ratio) * a + ratio * b) / 65536,
        0 <= r <= 65536,
{
    proof {
        assert(0 <= (65536 - ratio) * a + ratio * b <= 65536 * 65536) by (nonlinear_arith)
            requires
                0 <= a <= 65536,
                0 <= b <= 65536,
                0 <= ratio <= 65536,
        ;
        crate::fixed::lemma_div_bound((65536 - ratio) * a + ratio * b, 65536, 65536);
        vstd::arithmetic::div_mod::lemma_fundamental_div_mod(
            (65536 - ratio) * a + ratio * b, 65536);
    }
    let num: i128 = (65536 - ratio) as i128 * a as i128 + ratio as i128 * b as i128;
    let q = crate::fixed::floor_div_i128(num, 65536);
    q as i64
}

/// One channel of the linear interpolation, with its range-closure proof.
fn lerp_component(a: i64, b: i64, ratio: i64) -> (r: i64)
    requires
        0 <= a <= COLOUR_MAX,
        0 <= b <= COLOUR_MAX,
        0 <= ratio <= 65536,
    ensures
        r == ((65536 - ratio) * a + ratio * b) / 65536,
        0 <= r <= COLOUR_MAX,
        a <= 65536 && b <= 65536 ==> r <= 65536,
{
    proof {
        assert(0 <= (65536 - ratio) * a + ratio * b <= 65536 * COLOUR_MAX) by (nonlinear_arith)
            requires
                0 <= a <= COLOUR_MAX,
                0 <= b <= COLOUR_MAX,
                0 <= ratio <= 65536,
        ;
        assert(a <= 65536 && b <= 65536 ==> (65536 - ratio) * a + ratio * b <= 65536 * 65536)
            by (nonlinear_arith)
            requires
                0 <= a,
                0 <= b,
                0 <= ratio <= 65536,
        ;
        crate::fixed::lemma_div_bound(
            (65536 - ratio) * a + ratio * b, 65536, COLOUR_MAX as int);
        vstd::arithmetic::div_mod::lemma_fundamental_div_mod(
            (65536 - ratio) * a + ratio * b, 65536);
    }
    let num: i128 = (65536 - ratio) as i128 * a as i128 + ratio as i128 * b as i128;
    let q = crate::fixed::floor_div_i128(num, 65536);
    q as i64
}

/// Multiplying by full white changes nothing: the unit factor is exact and
/// cannot saturate.
pub proof fn lemma_white_mul(c: Colour)
    requires
        colour_in_range(c),
    ensures
        spec_mul_sat(65536, c.r) == c.r,
        spec_mul_sat(65536, c.g) == c.g,
        spec_mul_sat(65536, c.b) == c.b,
{
    vstd::arithmetic::div_mod::lemma_div_multiples_vanish(c.r as int, 65536);
    vstd::arithmetic::div_mod::lemma_div_multiples_vanish(c.g as int, 65536);
    vstd::arithmetic::div_mod::lemma_div_multiples_vanish(c.b as int, 65536);
}

/// Map a linear colour to 8-bit channels: clamp each component to the unit
/// range, then scale so that full brightness becomes 255.
pub fn map_colours(colour: &Colour) -> (rgb: (u8, u8, u8))
    ensures
        rgb.0 == map_component(colour.r),
        rgb.1 == map_component(colour.g),
        rgb.2 == map_component(colour.b),
{
    (map_component_exec(colour.r), map_component_exec(colour.g), map_component_exec(colour.b))
}

/// The 8-bit value of one clamped linear channel.
pub open spec fn map_component(c: i64) -> int {
    let clamped = if c < 0 { 0 } else if c > 65536 { 65536 } else { c as int };
    (clamped * 255) / 65536
}

fn map_component_exec(c: i64) -> (r: u8)
    ensures
        r == map_component(c),
{
    let clamped: i64 = if c < 0 { 0 } else if c > 65536 { 65536 } else { c };
    proof {
        vstd::arithmetic::div_mod::lemma_fundamental_div_mod(clamped as int * 255, 65536);
    }
    ((clamped * 255) / 65536) as u8
}

} // verus!
