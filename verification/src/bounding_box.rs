//! Axis-aligned bounding boxes: a per-axis interval triple with union,
//! longest-axis query and a ray-slab intersection test.
//!
//! The slab test is exact: the per-axis entry and exit times are kept as
//! rational numbers (numerator over positive denominator) and compared by
//! cross-multiplication, so the test returns true precisely when some
//! rational time in the query window places the ray inside every slab.

use vstd::prelude::*;
use crate::interval::Interval;
use crate::vec3::{Point3, Ray, Vec3, point_in_range, vec_in_range};

verus! {

#[derive(Clone, Copy, Debug, PartialEq, Eq, Structural)]
pub struct AxisAlignedBoundingBox {
    pub x: Interval,
    pub y: Interval,
    pub z: Interval,
}

pub type BoundingBox = AxisAlignedBoundingBox;

/// The ray position along one axis at rational time `tn / td` lies within
/// `[mn, mx]`: stated multiplicatively, with `td > 0` understood.
pub open spec fn rat_axis_member(mn: int, mx: int, o: int, d: int, tn: int, td: int) -> bool {
    65536 * mn * td <= 65536 * o * td + tn * d && 65536 * o * td + tn * d <= 65536 * mx * td
}

/// The ray position at rational time `tn / td` lies inside the box on all
/// three axes.
pub open spec fn rat_time_in_box(b: AxisAlignedBoundingBox, ray: Ray, tn: int, td: int) -> bool {
    rat_axis_member(b.x.min as int, b.x.max as int, ray.origin.x as int, ray.direction.x as int, tn, td)
        && rat_axis_member(b.y.min as int, b.y.max as int, ray.origin.y as int, ray.direction.y as int, tn, td)
        && rat_axis_member(b.z.min as int, b.z.max as int, ray.origin.z as int, ray.direction.z as int, tn, td)
}

/// The ray position at the fixed-point time `t` lies inside the box.
pub open spec fn time_in_box(b: AxisAlignedBoundingBox, ray: Ray, t: i64) -> bool {
    rat_time_in_box(b, ray, t as int, 1)
}

/// `a / b <= c / d` for positive denominators, by cross-multiplication.
pub open spec fn rle(an: int, ad: int, bn: int, bd: int) -> bool {
    an * bd <= bn * ad
}

proof fn lemma_rle_trans(an: int, ad: int, bn: int, bd: int, cn: int, cd: int)
    requires
        ad > 0, bd > 0, cd > 0,
        rle(an, ad, bn, bd),
        rle(bn, bd, cn, cd),
    ensures
        rle(an, ad, cn, cd),
{
    assert(an * cd <= cn * ad) by (nonlinear_arith)
        requires
            ad > 0, bd > 0, cd > 0,
            an * bd <= bn * ad,
            bn * cd <= cn * bd,
    ;
}

/// Magnitude bounds under which the running rational window stays inside
/// i128 cross-multiplication range.
spec fn wf_window(ln: i128, ld: i128, hn: i128, hd: i128) -> bool {
    0 < ld <= 0x8000_0000
        && 0 < hd <= 0x8000_0000
        && -0x2_0000_0000_0000_0000_0000 <= ln <= 0x2_0000_0000_0000_0000_0000
        && -0x2_0000_0000_0000_0000_0000 <= hn <= 0x2_0000_0000_0000_0000_0000
}

/// Exact comparison `a / b <= c / d` for positive denominators.
fn rat_le_exec(an: i128, ad: i128, bn: i128, bd: i128) -> (r: bool)
    requires
        0 < ad <= 0x8000_0000,
        0 < bd <= 0x8000_0000,
        -0x2_0000_0000_0000_0000_0000 <= an <= 0x2_0000_0000_0000_0000_0000,
        -0x2_0000_0000_0000_0000_0000 <= bn <= 0x2_0000_0000_0000_0000_0000,
    ensures
        r == rle(an as int, ad as int, bn as int, bd as int),
{
    proof {
        assert(an * bd <= 0x1_0000_0000_0000_0000_0000_0000_0000 && an * bd >= -0x1_0000_0000_0000_0000_0000_0000_0000) by (nonlinear_arith)
            requires
                -0x2_0000_0000_0000_0000_0000 <= an <= 0x2_0000_0000_0000_0000_0000,
                0 < bd <= 0x8000_0000,
        ;
        assert(bn * ad <= 0x1_0000_0000_0000_0000_0000_0000_0000 && bn * ad >= -0x1_0000_0000_0000_0000_0000_0000_0000) by (nonlinear_arith)
            requires
                -0x2_0000_0000_0000_0000_0000 <= bn <= 0x2_0000_0000_0000_0000_0000,
                0 < ad <= 0x8000_0000,
        ;
    }
    an * bd <= bn * ad
}

/// One slab step: clip the rational window `[ln/ld, hn/hd]` against the
/// axis with extent `[mn, mx]`, ray origin `o` and direction `d`. Returns
/// the clipped window, or `None` when the axis rules out every time.
#[verifier::rlimit(30)]
fn axis_clip(ln: i128, ld: i128, hn: i128, hd: i128, mn: i64, mx: i64, o: i64, d: i64)
    -> (r: Option<(i128, i128, i128, i128)>)
    requires
        wf_window(ln, ld, hn, hd),
        -0x4000_0000 <= o <= 0x4000_0000,
        -0x4000_0000 <= d <= 0x4000_0000,
    ensures
        match r {
            Some((ln2, ld2, hn2, hd2)) => {
                wf_window(ln2, ld2, hn2, hd2)
                    && forall|tn: int, td: int|
                        #![trigger rat_axis_member(mn as int, mx as int, o as int, d as int, tn, td)]
                        #![trigger rle(ln2 as int, ld2 as int, tn, td)]
                        #![trigger rle(ln as int, ld as int, tn, td)]
                        td > 0 ==> (
                            (rle(ln2 as int, ld2 as int, tn, td) && rle(tn, td, hn2 as int, hd2 as int))
                            <==> (rle(ln as int, ld as int, tn, td) && rle(tn, td, hn as int, hd as int)
                                && rat_axis_member(mn as int, mx as int, o as int, d as int, tn, td))
                        )
            },
            None => forall|tn: int, td: int|
                td > 0 ==> !#[trigger] rat_axis_member(mn as int, mx as int, o as int, d as int, tn, td),
        },
{
    if d == 0 {
        if mn <= o && o <= mx {
            proof {
                assert forall|tn: int, td: int| td > 0 implies
                    rat_axis_member(mn as int, mx as int, o as int, d as int, tn, td) by {
                    assert(65536 * (mn as int) * td <= 65536 * (o as int) * td
                        && 65536 * (o as int) * td <= 65536 * (mx as int) * td) by (nonlinear_arith)
                        requires td > 0, mn <= o <= mx;
                }
            }
            Some((ln, ld, hn, hd))
        } else {
            proof {
                assert forall|tn: int, td: int| td > 0 implies
                    !rat_axis_member(mn as int, mx as int, o as int, d as int, tn, td) by {
                    assert(!(65536 * (mn as int) * td <= 65536 * (o as int) * td
                        && 65536 * (o as int) * td <= 65536 * (mx as int) * td)) by (nonlinear_arith)
                        requires td > 0, !(mn <= o && o <= mx);
                }
            }
            None
        }
    } else {
        // sign-normalize so the window denominator is positive
        let (alo, ahi, den): (i128, i128, i128) = if d > 0 {
            ((mn as i128 - o as i128) * 65536, (mx as i128 - o as i128) * 65536, d as i128)
        } else {
            ((o as i128 - mx as i128) * 65536, (o as i128 - mn as i128) * 65536, -(d as i128))
        };
        proof {
            assert forall|tn: int, td: int| td > 0 implies
                ((rle(alo as int, den as int, tn, td) && rle(tn, td, ahi as int, den as int))
                    <==> rat_axis_member(mn as int, mx as int, o as int, d as int, tn, td)) by {
                if d > 0 {
                    assert((alo * td <= tn * den <==> 65536 * (mn as int) * td <= 65536 * (o as int) * td + tn * d)
                        && (tn * den <= ahi * td <==> 65536 * (o as int) * td + tn * d <= 65536 * (mx as int) * td)) by (nonlinear_arith)
                        requires
                            td > 0,
                            d > 0,
                            alo == (mn as int - o as int) * 65536,
                            ahi == (mx as int - o as int) * 65536,
                            den == d as int,
                    ;
                } else {
                    assert((alo * td <= tn * den <==> 65536 * (o as int) * td + tn * d <= 65536 * (mx as int) * td)
                        && (tn * den <= ahi * td <==> 65536 * (mn as int) * td <= 65536 * (o as int) * td + tn * d)) by (nonlinear_arith)
                        requires
                            td > 0,
                            d < 0,
                            alo == (o as int - mx as int) * 65536,
                            ahi == (o as int - mn as int) * 65536,
                            den == -(d as int),
                    ;
                }
            }
        }
        let new_lo_is_axis = rat_le_exec(ln, ld, alo, den);
        let (ln2, ld2): (i128, i128) = if new_lo_is_axis { (alo, den) } else { (ln, ld) };
        let new_hi_is_axis = rat_le_exec(ahi, den, hn, hd);
        let (hn2, hd2): (i128, i128) = if new_hi_is_axis { (ahi, den) } else { (hn, hd) };
        proof {
            assert forall|tn: int, td: int| td > 0 implies
                (rle(ln2 as int, ld2 as int, tn, td)
                    <==> (rle(ln as int, ld as int, tn, td) && rle(alo as int, den as int, tn, td))) by {
                if new_lo_is_axis {
                    if rle(ln2 as int, ld2 as int, tn, td) {
                        lemma_rle_trans(ln as int, ld as int, alo as int, den as int, tn, td);
                    }
                } else {
                    if rle(ln2 as int, ld2 as int, tn, td) {
                        assert(rle(alo as int, den as int, ln as int, ld as int)) by (nonlinear_arith)
                            requires
                                !(ln * den <= alo * ld),
                        ;
                        lemma_rle_trans(alo as int, den as int, ln as int, ld as int, tn, td);
                    }
                }
            }
            assert forall|tn: int, td: int| td > 0 implies
                (rle(tn, td, hn2 as int, hd2 as int)
                    <==> (rle(tn, td, hn as int, hd as int) && rle(tn, td, ahi as int, den as int))) by {
                if new_hi_is_axis {
                    if rle(tn, td, hn2 as int, hd2 as int) {
                        lemma_rle_trans(tn, td, ahi as int, den as int, hn as int, hd as int);
                    }
                } else {
                    if rle(tn, td, hn2 as int, hd2 as int) {
                        assert(rle(hn as int, hd as int, ahi as int, den as int)) by (nonlinear_arith)
                            requires
                                !(ahi * hd <= hn * den),
                        ;
                        lemma_rle_trans(tn, td, hn as int, hd as int, ahi as int, den as int);
                    }
                }
            }
        }
        Some((ln2, ld2, hn2, hd2))
    }
}

impl AxisAlignedBoundingBox {
    /// The box containing nothing: per-axis empty intervals, the identity
    /// of `enclose`.
    pub open spec fn spec_empty() -> AxisAlignedBoundingBox {
        AxisAlignedBoundingBox {
            x: Interval::spec_empty(),
            y: Interval::spec_empty(),
            z: Interval::spec_empty(),
        }
    }

    /// Per-axis union of two boxes.
    pub open spec fn spec_enclose(self, o: AxisAlignedBoundingBox) -> AxisAlignedBoundingBox {
        AxisAlignedBoundingBox {
            x: self.x.spec_enclose(o.x),
            y: self.y.spec_enclose(o.y),
            z: self.z.spec_enclose(o.z),
        }
    }

    /// `self` contains `o` on every axis.
    pub open spec fn spec_contains_box(self, o: AxisAlignedBoundingBox) -> bool {
        self.x.min <= o.x.min && o.x.max <= self.x.max
            && self.y.min <= o.y.min && o.y.max <= self.y.max
            && self.z.min <= o.z.min && o.z.max <= self.z.max
    }

    pub fn new(x: Interval, y: Interval, z: Interval) -> (r: AxisAlignedBoundingBox)
        ensures
            r == (AxisAlignedBoundingBox { x, y, z }),
    {
        AxisAlignedBoundingBox { x, y, z }
    }

    pub fn empty() -> (r: AxisAlignedBoundingBox)
        ensures
            r == AxisAlignedBoundingBox::spec_empty(),
    {
        AxisAlignedBoundingBox {
            x: Interval::empty(),
            y: Interval::empty(),
            z: Interval::empty(),
        }
    }

    /// Build the box spanned by two opposite corners, whatever their
    /// ordering: each axis interval runs from the smaller to the larger
    /// coordinate.
    pub fn new_from_corners(corner_one: Point3, corner_two: Point3) -> (r: AxisAlignedBoundingBox)
        ensures
            r.x.min == if corner_one.x < corner_two.x { corner_one.x } else { corner_two.x },
            r.x.max == if corner_one.x < corner_two.x { corner_two.x } else { corner_one.x },
            r.y.min == if corner_one.y < corner_two.y { corner_one.y } else { corner_two.y },
            r.y.max == if corner_one.y < corner_two.y { corner_two.y } else { corner_one.y },
            r.z.min == if corner_one.z < corner_two.z { corner_one.z } else { corner_two.z },
            r.z.max == if corner_one.z < corner_two.z { corner_two.z } else { corner_one.z },
            r.x.min <= r.x.max && r.y.min <= r.y.max && r.z.min <= r.z.max,
    {
        let x = if corner_one.x < corner_two.x {
            Interval::new(corner_one.x, corner_two.x)
        } else {
            Interval::new(corner_two.x, corner_one.x)
        };
        let y = if corner_one.y < corner_two.y {
            Interval::new(corner_one.y, corner_two.y)
        } else {
            Interval::new(corner_two.y, corner_one.y)
        };
        let z = if corner_one.z < corner_two.z {
            Interval::new(corner_one.z, corner_two.z)
        } else {
            Interval::new(corner_two.z, corner_one.z)
        };
        AxisAlignedBoundingBox { x, y, z }
    }

    /// Union of two boxes: per-axis `enclose`.
    pub fn new_from_boxes(box_one: &AxisAlignedBoundingBox, box_two: &AxisAlignedBoundingBox)
        -> (r: AxisAlignedBoundingBox)
        ensures
            r == box_one.spec_enclose(*box_two),
    {
        AxisAlignedBoundingBox {
            x: box_one.x.enclose(box_two.x),
            y: box_one.y.enclose(box_two.y),
            z: box_one.z.enclose(box_two.z),
        }
    }

    /// Grow this box in place so that it also contains `other`.
    pub fn grow_to_box(&mut self, other: &AxisAlignedBoundingBox)
        ensures
            *final(self) == old(self).spec_enclose(*other),
    {
        *self = AxisAlignedBoundingBox::new_from_boxes(self, other);
    }

    /// The axis of greatest span, for choosing a partition plane: 0 for x,
    /// 1 for y, 2 for z. Ties go to x first, then z, then y, so the choice
    /// is deterministic.
    pub fn longest_axis(&self) -> (r: usize)
        ensures
            r == {
                let sx = self.x.max - self.x.min;
                let sy = self.y.max - self.y.min;
                let sz = self.z.max - self.z.min;
                if sx >= sz && sx >= sy { 0int } else if sz >= sy { 2int } else { 1int }
            },
    {
        let sx = self.x.size();
        let sy = self.y.size();
        let sz = self.z.size();
        if sx >= sz && sx >= sy {
            0
        } else if sz >= sy {
            2
        } else {
            1
        }
    }

    /// Slab intersection test: true precisely when some rational time in
    /// `[interval.min, interval.max]` places the ray inside the box on all
    /// three axes.
    pub fn was_hit(&self, ray: Ray, interval: Interval) -> (r: bool)
        requires
            point_in_range(ray.origin),
            vec_in_range(ray.direction),
        ensures
            r ==> exists|tn: int, td: int|
                td > 0 && interval.min * td <= tn <= interval.max * td
                    && #[trigger] rat_time_in_box(*self, ray, tn, td),
            forall|tn: int, td: int|
                td > 0 && interval.min * td <= tn <= interval.max * td
                    && #[trigger] rat_time_in_box(*self, ray, tn, td) ==> r,
    {
        let ln0: i128 = interval.min as i128;
        let hn0: i128 = interval.max as i128;
        let r1 = axis_clip(ln0, 1, hn0, 1, self.x.min, self.x.max, ray.origin.x, ray.direction.x);
        let (ln1, ld1, hn1, hd1) = match r1 {
            Some(w) => w,
            None => { return false; },
        };
        let r2 = axis_clip(ln1, ld1, hn1, hd1, self.y.min, self.y.max, ray.origin.y, ray.direction.y);
        let (ln2, ld2, hn2, hd2) = match r2 {
            Some(w) => w,
            None => { return false; },
        };
        let r3 = axis_clip(ln2, ld2, hn2, hd2, self.z.min, self.z.max, ray.origin.z, ray.direction.z);
        let (ln3, ld3, hn3, hd3) = match r3 {
            Some(w) => w,
            None => { return false; },
        };
        let nonempty = rat_le_exec(ln3, ld3, hn3, hd3);
        proof {
            if nonempty {
                assert(rle(ln3 as int, ld3 as int, ln3 as int, ld3 as int));
                assert(rle(ln2 as int, ld2 as int, ln3 as int, ld3 as int)
                    && rle(ln3 as int, ld3 as int, hn2 as int, hd2 as int)
                    && rat_axis_member(self.z.min as int, self.z.max as int,
                        ray.origin.z as int, ray.direction.z as int, ln3 as int, ld3 as int));
                assert(rle(ln1 as int, ld1 as int, ln3 as int, ld3 as int)
                    && rle(ln3 as int, ld3 as int, hn1 as int, hd1 as int)
                    && rat_axis_member(self.y.min as int, self.y.max as int,
                        ray.origin.y as int, ray.direction.y as int, ln3 as int, ld3 as int));
                assert(rle(ln0 as int, 1, ln3 as int, ld3 as int)
                    && rle(ln3 as int, ld3 as int, hn0 as int, 1)
                    && rat_axis_member(self.x.min as int, self.x.max as int,
                        ray.origin.x as int, ray.direction.x as int, ln3 as int, ld3 as int));
                assert(rat_time_in_box(*self, ray, ln3 as int, ld3 as int));
                // rle against denominator 1 is exactly the interval bound
                assert(interval.min * (ld3 as int) <= ln3 * 1 && ln3 * 1 <= interval.max * (ld3 as int));
                assert(ln3 * 1 == ln3 as int) by (nonlinear_arith);
            }
            assert forall|tn: int, td: int|
                td > 0 && interval.min * td <= tn <= interval.max * td
                    && #[trigger] rat_time_in_box(*self, ray, tn, td) implies nonempty by {
                assert(tn * 1 == tn) by (nonlinear_arith);
                assert(rle(ln0 as int, 1, tn, td) && rle(tn, td, hn0 as int, 1));
                assert(rle(ln1 as int, ld1 as int, tn, td) && rle(tn, td, hn1 as int, hd1 as int));
                assert(rle(ln2 as int, ld2 as int, tn, td) && rle(tn, td, hn2 as int, hd2 as int));
                assert(rle(ln3 as int, ld3 as int, tn, td) && rle(tn, td, hn3 as int, hd3 as int));
                lemma_rle_trans(ln3 as int, ld3 as int, tn, td, hn3 as int, hd3 as int);
            }
        }
        nonempty
    }
}

/// Exact membership test: whether the ray position at the fixed-point time
/// `t` lies inside the box on all three axes.
pub fn time_hits_box(b: &AxisAlignedBoundingBox, ray: Ray, t: i64) -> (r: bool)
    requires
        point_in_range(ray.origin),
        vec_in_range(ray.direction),
    ensures
        r == time_in_box(*b, ray, t),
{
    proof {
        crate::fixed::lemma_mul_bound(
            t as int, ray.direction.x as int, 0x8000_0000_0000_0000, 0x2000_0000);
        crate::fixed::lemma_mul_bound(
            t as int, ray.direction.y as int, 0x8000_0000_0000_0000, 0x2000_0000);
        crate::fixed::lemma_mul_bound(
            t as int, ray.direction.z as int, 0x8000_0000_0000_0000, 0x2000_0000);
    }
    let ox: i128 = 65536 * ray.origin.x as i128;
    let oy: i128 = 65536 * ray.origin.y as i128;
    let oz: i128 = 65536 * ray.origin.z as i128;
    let px: i128 = ox + t as i128 * ray.direction.x as i128;
    let py: i128 = oy + t as i128 * ray.direction.y as i128;
    let pz: i128 = oz + t as i128 * ray.direction.z as i128;
    65536 * b.x.min as i128 <= px && px <= 65536 * b.x.max as i128
        && 65536 * b.y.min as i128 <= py && py <= 65536 * b.y.max as i128
        && 65536 * b.z.min as i128 <= pz && pz <= 65536 * b.z.max as i128
}

/// Union with the empty box changes nothing.
pub proof fn lemma_box_enclose_empty_identity(a: AxisAlignedBoundingBox)
    ensures
        a.spec_enclose(AxisAlignedBoundingBox::spec_empty()) == a,
        AxisAlignedBoundingBox::spec_empty().spec_enclose(a) == a,
{
}

/// Box union is commutative.
pub proof fn lemma_box_enclose_commutative(a: AxisAlignedBoundingBox, b: AxisAlignedBoundingBox)
    ensures
        a.spec_enclose(b) == b.spec_enclose(a),
{
}

/// Box union is associative, so folding a collection of boxes into one
/// union gives the same box in any fold order.
pub proof fn lemma_box_enclose_associative(
    a: AxisAlignedBoundingBox,
    b: AxisAlignedBoundingBox,
    c: AxisAlignedBoundingBox,
)
    ensures
        a.spec_enclose(b).spec_enclose(c) == a.spec_enclose(b.spec_enclose(c)),
{
}

/// The union contains both operands.
pub proof fn lemma_box_enclose_contains(a: AxisAlignedBoundingBox, b: AxisAlignedBoundingBox)
    ensures
        a.spec_enclose(b).spec_contains_box(a),
        a.spec_enclose(b).spec_contains_box(b),
{
}

/// Containment is transitive across box nesting, and a time inside an inner
/// box is inside every enclosing box: the fact that lets a bounding
/// hierarchy prune soundly.
pub proof fn lemma_contained_time_in_box(
    outer: AxisAlignedBoundingBox,
    inner: AxisAlignedBoundingBox,
    ray: Ray,
    tn: int,
    td: int,
)
    requires
        outer.spec_contains_box(inner),
        td > 0,
        rat_time_in_box(inner, ray, tn, td),
    ensures
        rat_time_in_box(outer, ray, tn, td),
{
    assert(65536 * (outer.x.min as int) * td <= 65536 * (inner.x.min as int) * td
        && 65536 * (inner.x.max as int) * td <= 65536 * (outer.x.max as int) * td
        && 65536 * (outer.y.min as int) * td <= 65536 * (inner.y.min as int) * td
        && 65536 * (inner.y.max as int) * td <= 65536 * (outer.y.max as int) * td
        && 65536 * (outer.z.min as int) * td <= 65536 * (inner.z.min as int) * td
        && 65536 * (inner.z.max as int) * td <= 65536 * (outer.z.max as int) * td) by (nonlinear_arith)
        requires
            td > 0,
            outer.x.min <= inner.x.min && inner.x.max <= outer.x.max,
            outer.y.min <= inner.y.min && inner.y.max <= outer.y.max,
            outer.z.min <= inner.z.min && inner.z.max <= outer.z.max,
    ;
}

} // verus!
