//! Gradient-noise texture over the unit square, evaluated purely as a
//! function of the surface coordinates: each lattice corner gets a gradient
//! from a deterministic integer hash of its position, the corner
//! contributions are taken against the offset from the corner, and the four
//! values are blended with a quintic fade. No state and no generator: the
//! same `(u, v)` always gives the same value.

use vstd::prelude::*;
use crate::colour::{Colour, colour_in_range, spec_mul_sat};
use crate::fixed::{floor_div_i128, mul_fp};

verus! {

#[derive(Clone, Copy, Debug)]
pub struct PerlinTexture {
    pub scale: i64,
    pub colour: Colour,
}

/// Fractional part of a fixed-point value: the Euclidean remainder by
/// `FP_ONE`, always in `[0, FP_ONE)`.
pub open spec fn spec_fract(x: int) -> int {
    x % 65536
}

/// The deterministic integer hash mapping a lattice corner to a gradient;
/// fixed-point mirror of a common shader hash, with its magic constants
/// scaled to 16.16.
pub open spec fn spec_hash2(px: int, py: int) -> (int, int) {
    let (hx, hy) = if px == 0 && py == 0 {
        (47int * 65536, 103int * 65536)
    } else {
        (px, py)
    };
    let ax = spec_fract((hx * 6755) / 65536);
    let ay = spec_fract((hy * 6750) / 65536);
    let az = spec_fract((hx * 6377) / 65536);
    let d = (ax * (ay + 2184315) + ay * (az + 2184315) + az * (ax + 2184315)) / 65536;
    let bx = ax + d;
    let by = ay + d;
    let bz = az + d;
    (spec_fract(((bx + by) * bz) / 65536), spec_fract(((bx + bz) * by) / 65536))
}

/// The corner contribution: the gradient dotted with the offset from the
/// corner, clamped to the unit interval and shifted into `[0, FP_ONE]`.
pub open spec fn spec_corner_value(cx: int, cy: int, px: int, py: int) -> int {
    let (gx, gy) = spec_hash2(cx, cy);
    let noise = (gx * (px - cx) + gy * (py - cy)) / 65536;
    let clamped = if noise < -65536 { -65536int } else if noise > 65536 { 65536int } else { noise };
    clamped / 2 + 32768
}

/// Quintic-fade blend between `a` and `b` at parameter `t`, the fade factor
/// saturated to the unit range.
pub open spec fn spec_smoothstep(a: int, b: int, t: int) -> int {
    let q1 = (t * (6 * t - 15 * 65536)) / 65536;
    let t2 = (t * t) / 65536;
    let t3 = (t2 * t) / 65536;
    let q3 = (t3 * (q1 + 10 * 65536)) / 65536;
    let faded = if q3 < 0 { 0int } else if q3 > 65536 { 65536int } else { q3 };
    ((65536 - faded) * a + faded * b) / 65536
}

/// The noise value at `(u, v)` for lattice spacing `scale`: corner values
/// blended along v then along u. Kept opaque: callers relate to it through
/// `PerlinTexture::get_value`.
#[verifier::opaque]
pub open spec fn spec_perlin_value(scale: int, u: int, v: int) -> int {
    let ox = (u / scale) * scale;
    let oy = (v / scale) * scale;
    let c00 = spec_corner_value(ox, oy, u, v);
    let c01 = spec_corner_value(ox, oy + scale, u, v);
    let c10 = spec_corner_value(ox + scale, oy, u, v);
    let c11 = spec_corner_value(ox + scale, oy + scale, u, v);
    let xpos = ((u - ox) * 65536) / scale;
    let ypos = ((v - oy) * 65536) / scale;
    let i0 = spec_smoothstep(c00, c01, ypos);
    let i1 = spec_smoothstep(c10, c11, ypos);
    spec_smoothstep(i0, i1, xpos)
}

/// Euclidean remainder by `FP_ONE`.
fn fract_fp(x: i64) -> (r: i64)
    requires
        -0x8000_0000_0000 <= x <= 0x8000_0000_0000,
    ensures
        r == spec_fract(x as int),
        0 <= r < 65536,
{
    proof {
        vstd::arithmetic::div_mod::lemma_fundamental_div_mod(x as int, 65536);
    }
    let q = floor_div_i128(x as i128, 65536);
    (x as i128 - q * 65536) as i64
}

fn hash2(px: i64, py: i64) -> (r: (i64, i64))
    requires
        -0x2000_0000 <= px <= 0x2000_0000,
        -0x2000_0000 <= py <= 0x2000_0000,
    ensures
        (r.0 as int, r.1 as int) == spec_hash2(px as int, py as int),
        0 <= r.0 < 65536,
        0 <= r.1 < 65536,
{
    let (hx, hy): (i64, i64) = if px == 0 && py == 0 {
        (47 * 65536, 103 * 65536)
    } else {
        (px, py)
    };
    let ax = fract_fp(mul_fp(hx, 6755));
    let ay = fract_fp(mul_fp(hy, 6750));
    let az = fract_fp(mul_fp(hx, 6377));
    proof {
        vstd::arithmetic::div_mod::lemma_fundamental_div_mod(
            ax as int * (ay + 2184315) + ay as int * (az + 2184315) + az as int * (ax + 2184315),
            65536);
        assert(0 <= ax as int * (ay + 2184315) + ay as int * (az + 2184315)
            + az as int * (ax + 2184315) < 0x80_0000_0000) by (nonlinear_arith)
            requires
                0 <= ax < 65536,
                0 <= ay < 65536,
                0 <= az < 65536,
        ;
    }
    let dnum: i128 = ax as i128 * (ay as i128 + 2184315) + ay as i128 * (az as i128 + 2184315)
        + az as i128 * (ax as i128 + 2184315);
    let d = floor_div_i128(dnum, 65536) as i64;
    let bx = ax + d;
    let by = ay + d;
    let bz = az + d;
    proof {
        assert({
            &&& 0 <= (bx as int + by as int) * (bz as int)
            &&& ((bx as int + by as int) * (bz as int)) < 0x4000_0000_0000_0000
            &&& 0 <= (bx as int + bz as int) * (by as int)
            &&& ((bx as int + bz as int) * (by as int)) < 0x4000_0000_0000_0000
        }) by (nonlinear_arith)
            requires
                0 <= bx as int && (bx as int) < 0x100_0000,
                0 <= by as int && (by as int) < 0x100_0000,
                0 <= bz as int && (bz as int) < 0x100_0000,
        ;
        vstd::arithmetic::div_mod::lemma_fundamental_div_mod(
            (bx as int + by as int) * bz as int, 65536);
        vstd::arithmetic::div_mod::lemma_fundamental_div_mod(
            (bx as int + bz as int) * by as int, 65536);
    }
    let p1 = floor_div_i128((bx as i128 + by as i128) * bz as i128, 65536) as i64;
    let p2 = floor_div_i128((bx as i128 + bz as i128) * by as i128, 65536) as i64;
    (fract_fp(p1), fract_fp(p2))
}

fn corner_value(cx: i64, cy: i64, px: i64, py: i64) -> (r: i64)
    requires
        -0x2000_0000 <= cx <= 0x2000_0000,
        -0x2000_0000 <= cy <= 0x2000_0000,
        -0x1000_0000 <= px <= 0x1000_0000,
        -0x1000_0000 <= py <= 0x1000_0000,
    ensures
        r == spec_corner_value(cx as int, cy as int, px as int, py as int),
        0 <= r <= 65536,
{
    let (gx, gy) = hash2(cx, cy);
    proof {
        crate::fixed::lemma_mul_bound(gx as int, px as int - cx as int, 65536, 0x3000_0000);
        crate::fixed::lemma_mul_bound(gy as int, py as int - cy as int, 65536, 0x3000_0000);
        assert(-0x8000_0000_0000_0000 <= gx as int * (px - cx) + gy as int * (py - cy)
            <= 0x8000_0000_0000_0000) by (nonlinear_arith)
            requires
                0 <= gx < 65536,
                0 <= gy < 65536,
                -0x3000_0000 <= px - cx <= 0x3000_0000,
                -0x3000_0000 <= py - cy <= 0x3000_0000,
        ;
        vstd::arithmetic::div_mod::lemma_fundamental_div_mod(
            gx as int * (px - cx) + gy as int * (py - cy), 65536);
        crate::fixed::lemma_div_bound(
            gx as int * (px - cx) + gy as int * (py - cy), 65536, 0x8000_0000_0000int);
    }
    let noise = floor_div_i128(
        gx as i128 * (px as i128 - cx as i128) + gy as i128 * (py as i128 - cy as i128),
        65536) as i64;
    let clamped: i64 = if noise < -65536 { -65536 } else if noise > 65536 { 65536 } else { noise };
    proof {
        vstd::arithmetic::div_mod::lemma_fundamental_div_mod(clamped as int, 2);
    }
    floor_div_i128(clamped as i128, 2) as i64 + 32768
}

fn smoothstep(a: i64, b: i64, t: i64) -> (r: i64)
    requires
        0 <= a <= 65536,
        0 <= b <= 65536,
        0 <= t <= 65536,
    ensures
        r == spec_smoothstep(a as int, b as int, t as int),
        0 <= r <= 65536,
{
    let q1 = mul_fp(t, 6 * t - 15 * 65536);
    proof {
        assert(-(983041 * 65536) <= t as int * (6 * t - 15 * 65536) <= 983041 * 65536)
            by (nonlinear_arith)
            requires 0 <= t as int <= 65536;
        crate::fixed::lemma_div_fp_bound(t as int * (6 * t - 15 * 65536), 983041);
    }
    let t2 = mul_fp(t, t);
    let t3 = mul_fp(t2, t);
    let q3 = mul_fp(t3, q1 + 10 * 65536);
    let faded: i64 = if q3 < 0 { 0 } else if q3 > 65536 { 65536 } else { q3 };
    crate::colour::lerp_unit(a, b, faded)
}

impl PerlinTexture {
    pub fn new(scale: i64, colour: Colour) -> (r: PerlinTexture)
        ensures
            r == (PerlinTexture { scale, colour }),
    {
        PerlinTexture { scale, colour }
    }

    /// The noise value at `(u, v)`, always in the unit range.
    pub fn get_value(&self, u: i64, v: i64) -> (r: i64)
        requires
            0 < self.scale <= 0x100_0000,
            0 <= u <= 0x1000_0000,
            0 <= v <= 0x1000_0000,
        ensures
            r == spec_perlin_value(self.scale as int, u as int, v as int),
            0 <= r <= 65536,
    {
        proof {
            reveal(spec_perlin_value);
            vstd::arithmetic::div_mod::lemma_fundamental_div_mod(u as int, self.scale as int);
            vstd::arithmetic::div_mod::lemma_fundamental_div_mod(v as int, self.scale as int);
            assert((u as int / self.scale as int) * self.scale as int == u - u as int % self.scale as int
                && 0 <= u as int % (self.scale as int) && u as int % (self.scale as int) < self.scale) by (nonlinear_arith)
                requires
                    u as int == self.scale as int * (u as int / self.scale as int) + u as int % self.scale as int,
                    0 <= u as int % (self.scale as int) && u as int % (self.scale as int) < self.scale,
            ;
            assert((v as int / self.scale as int) * self.scale as int == v - v as int % self.scale as int
                && 0 <= v as int % (self.scale as int) && v as int % (self.scale as int) < self.scale) by (nonlinear_arith)
                requires
                    v as int == self.scale as int * (v as int / self.scale as int) + v as int % self.scale as int,
                    0 <= v as int % (self.scale as int) && v as int % (self.scale as int) < self.scale,
            ;
        }
        let nx = floor_div_i128(u as i128, self.scale as i128);
        let ny = floor_div_i128(v as i128, self.scale as i128);
        proof {
            assert(nx * self.scale as int == (u as int / self.scale as int) * self.scale as int)
                by (nonlinear_arith)
                requires nx == u as int / self.scale as int;
            assert(ny * self.scale as int == (v as int / self.scale as int) * self.scale as int)
                by (nonlinear_arith)
                requires ny == v as int / self.scale as int;
        }
        let ox = (nx * self.scale as i128) as i64;
        let oy = (ny * self.scale as i128) as i64;
        let c00 = corner_value(ox, oy, u, v);
        let c01 = corner_value(ox, oy + self.scale, u, v);
        let c10 = corner_value(ox + self.scale, oy, u, v);
        let c11 = corner_value(ox + self.scale, oy + self.scale, u, v);
        proof {
            assert(0 <= (u - ox) * 65536 <= 65536 * self.scale as int
                && 0 <= (v - oy) * 65536 <= 65536 * self.scale as int) by (nonlinear_arith)
                requires
                    0 <= u - ox < self.scale,
                    0 <= v - oy < self.scale,
                    0 < self.scale,
            ;
            crate::fixed::lemma_div_bound((u - ox) * 65536, self.scale as int, 65536);
            crate::fixed::lemma_div_bound((v - oy) * 65536, self.scale as int, 65536);
            vstd::arithmetic::div_mod::lemma_fundamental_div_mod(
                (u - ox) * 65536, self.scale as int);
            vstd::arithmetic::div_mod::lemma_fundamental_div_mod(
                (v - oy) * 65536, self.scale as int);
        }
        let xpos = floor_div_i128((u as i128 - ox as i128) * 65536, self.scale as i128) as i64;
        let ypos = floor_div_i128((v as i128 - oy as i128) * 65536, self.scale as i128) as i64;
        let i0 = smoothstep(c00, c01, ypos);
        let i1 = smoothstep(c10, c11, ypos);
        smoothstep(i0, i1, xpos)
    }
}

} // verus!
