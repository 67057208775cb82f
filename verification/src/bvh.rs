//! The bounding-volume hierarchy: a binary tree over the scene's objects.
//! Construction folds the aggregate box, picks the longest axis, sorts the
//! objects by their box minimum on that axis and splits at the midpoint.
//! Construction preserves the candidate set exactly, and traversal meets
//! the same nearest-hit contract as the linear scan: pruning by a node's
//! box and narrowing the window to the nearest confirmed hit lose nothing.

use vstd::prelude::*;
use crate::bounding_box::AxisAlignedBoundingBox;
use crate::hittable::{HitRecord, HittableList, HittableObject, lemma_cand_in_bounds, list_cand,
    list_record_of, list_wf, obj_bounds, obj_cand, obj_hit_ok, obj_record_of, obj_wf};
use crate::interval::Interval;
use crate::vec3::{MAX_TIME, Ray, point_in_range, vec_in_range};

verus! {

#[derive(Debug)]
pub struct BVHNode {
    pub left: Box<HittableObject>,
    pub right: Box<HittableObject>,
    pub bounds: AxisAlignedBoundingBox,
}

/// The box minimum coordinate on the given axis, the sort key for
/// partitioning.
pub open spec fn spec_axis_min(b: AxisAlignedBoundingBox, axis: int) -> i64 {
    if axis == 0 {
        b.x.min
    } else if axis == 1 {
        b.y.min
    } else {
        b.z.min
    }
}

fn axis_min(o: &HittableObject, axis: usize) -> (r: i64)
    requires
        axis < 3,
    ensures
        r == spec_axis_min(obj_bounds(*o), axis as int),
{
    let b = o.get_bounding_box();
    if axis == 0 {
        b.x.min
    } else if axis == 1 {
        b.y.min
    } else {
        b.z.min
    }
}

/// Removing index `j` keeps exactly the other occurrences: membership in
/// the original is membership in the remainder or equality with the
/// removed element.
proof fn lemma_remove_contains(s: Seq<HittableObject>, j: int)
    requires
        0 <= j < s.len(),
    ensures
        forall|o: HittableObject| #[trigger] s.contains(o)
            <==> (s.remove(j).contains(o) || o == s[j]),
{
    s.remove_ensures(j);
    assert forall|o: HittableObject| #[trigger] s.contains(o)
        implies (s.remove(j).contains(o) || o == s[j]) by {
        let k = choose|k: int| 0 <= k < s.len() && s[k] == o;
        if k < j {
            assert(s.remove(j)[k] == o);
        } else if k > j {
            assert(s.remove(j)[k - 1] == o);
        }
    }
    assert forall|o: HittableObject| s.remove(j).contains(o) || o == s[j]
        implies #[trigger] s.contains(o) by {
        if s.remove(j).contains(o) {
            let k = choose|k: int| 0 <= k < s.remove(j).len() && s.remove(j)[k] == o;
            if k < j {
                assert(s[k] == o);
            } else {
                assert(s[k + 1] == o);
            }
        } else {
            assert(s[j] == o);
        }
    }
}

/// Sort the objects ascending by their box minimum on `axis`, by selection:
/// the result holds exactly the same objects, in nondecreasing key order,
/// so splitting at the middle index is a median split.
fn sort_by_axis(v: Vec<HittableObject>, axis: usize) -> (r: Vec<HittableObject>)
    requires
        axis < 3,
    ensures
        r@.len() == v@.len(),
        forall|o: HittableObject| #[trigger] r@.contains(o) <==> v@.contains(o),
        forall|a: int, b: int| 0 <= a <= b < r@.len()
            ==> spec_axis_min(obj_bounds(#[trigger] r@[a]), axis as int)
                <= spec_axis_min(obj_bounds(#[trigger] r@[b]), axis as int),
{
    let ghost orig = v@;
    let mut rest = v;
    let mut out: Vec<HittableObject> = Vec::new();
    while rest.len() > 0
        invariant
            axis < 3,
            out@.len() + rest@.len() == orig.len(),
            forall|o: HittableObject| #[trigger] orig.contains(o)
                <==> (out@.contains(o) || rest@.contains(o)),
            forall|a: int, b: int| 0 <= a <= b < out@.len()
                ==> spec_axis_min(obj_bounds(#[trigger] out@[a]), axis as int)
                    <= spec_axis_min(obj_bounds(#[trigger] out@[b]), axis as int),
            forall|a: int, m: int| 0 <= a < out@.len() && 0 <= m < rest@.len()
                ==> spec_axis_min(obj_bounds(#[trigger] out@[a]), axis as int)
                    <= spec_axis_min(obj_bounds(#[trigger] rest@[m]), axis as int),
        decreases rest@.len(),
    {
        let mut best: usize = 0;
        let mut k: usize = 1;
        while k < rest.len()
            invariant
                rest@.len() > 0,
                best < k <= rest@.len(),
                axis < 3,
                forall|m: int| 0 <= m < k
                    ==> spec_axis_min(obj_bounds(rest@[best as int]), axis as int)
                        <= spec_axis_min(obj_bounds(#[trigger] rest@[m]), axis as int),
            decreases rest@.len() - k,
        {
            if axis_min(&rest[k], axis) < axis_min(&rest[best], axis) {
                best = k;
            }
            k += 1;
        }
        let ghost rest_pre = rest@;
        let ghost out_pre = out@;
        proof {
            lemma_remove_contains(rest_pre, best as int);
        }
        let x = rest.remove(best);
        out.push(x);
        proof {
            assert(out@ == out_pre.push(x));
            assert(rest@ == rest_pre.remove(best as int));
            rest_pre.remove_ensures(best as int);
            assert forall|a: int, m: int| 0 <= a < out@.len() && 0 <= m < rest@.len()
                implies spec_axis_min(obj_bounds(#[trigger] out@[a]), axis as int)
                    <= spec_axis_min(obj_bounds(#[trigger] rest@[m]), axis as int) by {
                if m < best {
                    assert(rest@[m] == rest_pre[m]);
                } else {
                    assert(rest@[m] == rest_pre[m + 1]);
                }
                if a < out@.len() - 1 {
                    assert(out@[a] == out_pre[a]);
                } else {
                    assert(out@[a] == x && x == rest_pre[best as int]);
                }
            }
            assert forall|a: int, b: int| 0 <= a <= b < out@.len()
                implies spec_axis_min(obj_bounds(#[trigger] out@[a]), axis as int)
                    <= spec_axis_min(obj_bounds(#[trigger] out@[b]), axis as int) by {
                if b < out@.len() - 1 {
                    assert(out@[a] == out_pre[a] && out@[b] == out_pre[b]);
                } else {
                    assert(out@[b] == x && x == rest_pre[best as int]);
                    if a < out@.len() - 1 {
                        assert(out@[a] == out_pre[a]);
                        assert(spec_axis_min(obj_bounds(out_pre[a]), axis as int)
                            <= spec_axis_min(obj_bounds(rest_pre[best as int]), axis as int));
                    }
                }
            }
            assert forall|o: HittableObject| #[trigger] orig.contains(o)
                implies (out@.contains(o) || rest@.contains(o)) by {
                if out_pre.contains(o) {
                    let k2 = choose|k2: int| 0 <= k2 < out_pre.len() && out_pre[k2] == o;
                    assert(out@[k2] == o);
                } else {
                    assert(rest_pre.contains(o));
                    if o == rest_pre[best as int] {
                        assert(out@[out@.len() - 1] == o);
                    }
                }
            }
            assert forall|o: HittableObject| (out@.contains(o) || rest@.contains(o))
                implies #[trigger] orig.contains(o) by {
                if out@.contains(o) {
                    let k2 = choose|k2: int| 0 <= k2 < out@.len() && out@[k2] == o;
                    if k2 == out@.len() - 1 {
                        assert(o == x);
                        assert(rest_pre.contains(o));
                    } else {
                        assert(out_pre[k2] == o);
                        assert(out_pre.contains(o));
                    }
                } else {
                    assert(rest_pre.contains(o));
                }
            }
        }
    }
    out
}

/// Fold the aggregate bounding box of a vector of objects.
fn fold_bounds(v: &Vec<HittableObject>) -> (b: AxisAlignedBoundingBox)
    ensures
        forall|i: int| 0 <= i < v@.len() ==> b.spec_contains_box(obj_bounds(#[trigger] v@[i])),
{
    let mut bounds = AxisAlignedBoundingBox::empty();
    let mut k: usize = 0;
    while k < v.len()
        invariant
            k <= v@.len(),
            forall|i: int| 0 <= i < k ==> bounds.spec_contains_box(obj_bounds(#[trigger] v@[i])),
        decreases v@.len() - k,
    {
        let ob = v[k].get_bounding_box();
        proof {
            crate::bounding_box::lemma_box_enclose_contains(bounds, obj_bounds(v@[k as int]));
        }
        bounds.grow_to_box(&ob);
        k += 1;
    }
    bounds
}

/// Wrap a vector of well-formed objects as a list with its aggregate box.
fn list_from_vec(v: Vec<HittableObject>) -> (l: HittableList)
    requires
        forall|i: int| 0 <= i < v@.len() ==> obj_wf(#[trigger] v@[i]),
    ensures
        l.data@ == v@,
        list_wf(l),
{
    let bounds = fold_bounds(&v);
    HittableList { data: v, bounds }
}

impl BVHNode {
    /// Build a hierarchy over the list: the candidate set and the set of
    /// producible hit records are exactly those of the flat list.
    pub fn new(objects: HittableList) -> (n: BVHNode)
        requires
            list_wf(objects),
            objects.data@.len() >= 1,
        ensures
            obj_wf(HittableObject::BVHNode(n)),
            forall|i: int| 0 <= i < objects.data@.len()
                ==> n.bounds.spec_contains_box(obj_bounds(#[trigger] objects.data@[i])),
            forall|ray: Ray, t: int|
                #[trigger] obj_cand(HittableObject::BVHNode(n), ray, t)
                    <==> list_cand(objects, ray, t),
            forall|ray: Ray, rec: HitRecord|
                #[trigger] obj_record_of(HittableObject::BVHNode(n), ray, rec)
                    <==> list_record_of(objects, ray, rec),
        decreases objects.data@.len(),
    {
        let ghost orig = objects;
        let mut data = objects.data;
        let bounds = fold_bounds(&data);
        let axis = bounds.longest_axis();
        if data.len() == 1 {
            let first = match data.pop() {
                Some(o) => o,
                None => { proof { assert(false); } unreached() },
            };
            let twin = first.clone();
            let b = first.get_bounding_box();
            let node = BVHNode {
                left: Box::new(twin),
                right: Box::new(first),
                bounds: AxisAlignedBoundingBox::new_from_boxes(&b, &b),
            };
            proof {
                assert(orig.data@[0] == *node.left);
                crate::bounding_box::lemma_box_enclose_contains(b, b);
                lemma_singleton_equiv(node, orig);
            }
            node
        } else if data.len() == 2 {
            let second = match data.pop() {
                Some(o) => o,
                None => { proof { assert(false); } unreached() },
            };
            let first = match data.pop() {
                Some(o) => o,
                None => { proof { assert(false); } unreached() },
            };
            let bl = first.get_bounding_box();
            let br = second.get_bounding_box();
            let node = BVHNode {
                left: Box::new(first),
                right: Box::new(second),
                bounds: AxisAlignedBoundingBox::new_from_boxes(&bl, &br),
            };
            proof {
                assert(orig.data@[0] == *node.left);
                assert(orig.data@[1] == *node.right);
                crate::bounding_box::lemma_box_enclose_contains(bl, br);
                lemma_pair_equiv(node, orig);
            }
            node
        } else {
            let sorted = sort_by_axis(data, axis);
            let ghost sorted_seq = sorted@;
            proof {
                assert forall|i: int| 0 <= i < sorted@.len()
                    implies obj_wf(#[trigger] sorted@[i]) by {
                    assert(sorted@.contains(sorted@[i]));
                    let j = choose|j: int| 0 <= j < orig.data@.len() && orig.data@[j] == sorted@[i];
                }
            }
            let mid = sorted.len() / 2;
            let mut left_vec = sorted;
            let mut right_vec: Vec<HittableObject> = Vec::new();
            let mut k: usize = mid;
            while k < left_vec.len()
                invariant
                    mid <= k <= left_vec@.len(),
                    left_vec@ == sorted_seq,
                    right_vec@ == sorted_seq.subrange(mid as int, k as int),
                decreases left_vec@.len() - k,
            {
                let item = left_vec[k].clone();
                right_vec.push(item);
                proof {
                    assert(right_vec@ =~= sorted_seq.subrange(mid as int, k + 1));
                }
                k += 1;
            }
            left_vec.truncate(mid);
            proof {
                assert(left_vec@ =~= sorted_seq.subrange(0, mid as int));
            }
            let ghost left_seq = left_vec@;
            let ghost right_seq = right_vec@;
            let left_list = list_from_vec(left_vec);
            let right_list = list_from_vec(right_vec);
            let ghost gleft = left_list;
            let ghost gright = right_list;
            let left_node = BVHNode::new(left_list);
            let right_node = BVHNode::new(right_list);
            let left_obj = HittableObject::BVHNode(left_node);
            let right_obj = HittableObject::BVHNode(right_node);
            let bl = left_obj.get_bounding_box();
            let br = right_obj.get_bounding_box();
            let node = BVHNode {
                left: Box::new(left_obj),
                right: Box::new(right_obj),
                bounds: AxisAlignedBoundingBox::new_from_boxes(&bl, &br),
            };
            proof {
                lemma_split_equiv(node, orig, sorted_seq, gleft, gright, mid as int);
                crate::bounding_box::lemma_box_enclose_contains(bl, br);
                assert forall|i: int| 0 <= i < orig.data@.len()
                    implies node.bounds.spec_contains_box(
                        obj_bounds(#[trigger] orig.data@[i])) by {
                    let ob = orig.data@[i];
                    assert(orig.data@.contains(ob));
                    assert(sorted_seq.contains(ob));
                    let j = choose|j: int| 0 <= j < sorted_seq.len() && sorted_seq[j] == ob;
                    if j < mid {
                        assert(gleft.data@[j] == sorted_seq.subrange(0, mid as int)[j]);
                        assert(gleft.data@[j] == ob);
                        assert(left_node.bounds.spec_contains_box(obj_bounds(gleft.data@[j])));
                    } else {
                        assert(gright.data@[j - mid]
                            == sorted_seq.subrange(mid as int, sorted_seq.len() as int)[j - mid]);
                        assert(gright.data@[j - mid] == ob);
                        assert(right_node.bounds.spec_contains_box(
                            obj_bounds(gright.data@[j - mid])));
                    }
                }
            }
            node
        }
    }

    /// Traverse for the nearest hit: prune when the node's box misses the
    /// window, otherwise query the left child and then the right child with
    /// the window narrowed to the left hit, keeping the nearer record.
    pub fn was_hit(&self, ray: Ray, interval: Interval) -> (r: Option<HitRecord>)
        requires
            obj_wf(HittableObject::BVHNode(*self)),
            point_in_range(ray.origin),
            vec_in_range(ray.direction),
            -MAX_TIME <= interval.min <= MAX_TIME,
            -MAX_TIME <= interval.max <= MAX_TIME,
        ensures
            obj_hit_ok(HittableObject::BVHNode(*self), ray, interval, r),
        decreases *self,
    {
        let ghost me = HittableObject::BVHNode(*self);
        if !self.bounds.was_hit(ray, interval) {
            proof {
                assert forall|t: int|
                    !(#[trigger] obj_cand(me, ray, t) && interval.min < t < interval.max) by {
                    if obj_cand(me, ray, t) && interval.min < t < interval.max {
                        lemma_cand_in_bounds(me, ray, t);
                        let (tn, td) = choose|tn: int, td: int| {
                            &&& td > 0
                            &&& t * td <= tn <= (t + 1) * td
                            &&& #[trigger] crate::bounding_box::rat_time_in_box(
                                obj_bounds(me), ray, tn, td)
                        };
                        assert(interval.min * td <= tn && tn <= interval.max * td)
                            by (nonlinear_arith)
                            requires
                                td > 0,
                                interval.min < t,
                                t + 1 <= interval.max,
                                t * td <= tn <= (t + 1) * td,
                        ;
                        assert(crate::bounding_box::rat_time_in_box(self.bounds, ray, tn, td));
                    }
                }
            }
            return None;
        }
        let hit_left = (&*self.left).was_hit(ray, interval);
        let right_max: i64 = match &hit_left {
            Some(d) => d.collision_time,
            None => interval.max,
        };
        let right_window = Interval::new(interval.min, right_max);
        let hit_right = (&*self.right).was_hit(ray, right_window);
        let ghost gl = hit_left;
        let ghost gr = hit_right;
        let result = if hit_right.is_some() {
            hit_right
        } else {
            hit_left
        };
        proof {
            if gr is Some {
                let rr = gr->0;
                assert(obj_cand(me, ray, rr.collision_time as int));
                assert(rr.collision_time < right_window.max);
                assert(right_window.max <= interval.max);
                assert forall|t: int|
                    #[trigger] obj_cand(me, ray, t) && interval.min < t < interval.max
                        implies rr.collision_time <= t by {
                    if obj_cand(*self.left, ray, t) {
                        if gl is Some {
                            assert(gl->0.collision_time <= t);
                            assert(rr.collision_time < right_window.max);
                            assert(right_window.max == gl->0.collision_time);
                        } else {
                            assert(!(obj_cand(*self.left, ray, t)
                                && interval.min < t < interval.max));
                            assert(false);
                        }
                    } else {
                        assert(obj_cand(*self.right, ray, t));
                        if t < right_max {
                            assert(right_window.min < t < right_window.max);
                            assert(rr.collision_time <= t);
                        } else {
                            assert(rr.collision_time < right_window.max);
                        }
                    }
                }
            } else if gl is Some {
                let lr = gl->0;
                assert(obj_cand(me, ray, lr.collision_time as int));
                assert forall|t: int|
                    #[trigger] obj_cand(me, ray, t) && interval.min < t < interval.max
                        implies lr.collision_time <= t by {
                    if obj_cand(*self.left, ray, t) {
                        assert(lr.collision_time <= t);
                    } else {
                        assert(!(obj_cand(*self.right, ray, t)
                            && right_window.min < t < right_window.max));
                    }
                }
            } else {
                assert(right_window.max == interval.max);
                assert forall|t: int|
                    !(#[trigger] obj_cand(me, ray, t) && interval.min < t < interval.max) by {
                    if obj_cand(me, ray, t) && interval.min < t < interval.max {
                        assert(!(obj_cand(*self.left, ray, t)
                            && interval.min < t < interval.max));
                        assert(!(obj_cand(*self.right, ray, t)
                            && right_window.min < t < right_window.max));
                        assert(false);
                    }
                }
            }
        }
        result
    }

    pub fn get_bounding_box(&self) -> (b: AxisAlignedBoundingBox)
        ensures
            b == self.bounds,
    {
        self.bounds
    }
}

/// Candidate and record equivalence for a degenerate single-object node
/// whose children both alias that object.
proof fn lemma_singleton_equiv(node: BVHNode, orig: HittableList)
    requires
        orig.data@.len() == 1,
        *node.left == orig.data@[0],
        *node.right == orig.data@[0],
    ensures
        forall|ray: Ray, t: int|
            #[trigger] obj_cand(HittableObject::BVHNode(node), ray, t)
                <==> list_cand(orig, ray, t),
        forall|ray: Ray, rec: HitRecord|
            #[trigger] obj_record_of(HittableObject::BVHNode(node), ray, rec)
                <==> list_record_of(orig, ray, rec),
{
    assert forall|ray: Ray, t: int|
        #[trigger] obj_cand(HittableObject::BVHNode(node), ray, t)
            <==> list_cand(orig, ray, t) by {
        if obj_cand(HittableObject::BVHNode(node), ray, t) {
            assert(obj_cand(orig.data@[0], ray, t));
        }
        if list_cand(orig, ray, t) {
            assert(obj_cand(orig.data@[0], ray, t));
        }
    }
    assert forall|ray: Ray, rec: HitRecord|
        #[trigger] obj_record_of(HittableObject::BVHNode(node), ray, rec)
            <==> list_record_of(orig, ray, rec) by {
        if obj_record_of(HittableObject::BVHNode(node), ray, rec) {
            assert(obj_record_of(orig.data@[0], ray, rec));
        }
        if list_record_of(orig, ray, rec) {
            assert(obj_record_of(orig.data@[0], ray, rec));
        }
    }
}

/// Candidate and record equivalence for a two-object node.
proof fn lemma_pair_equiv(node: BVHNode, orig: HittableList)
    requires
        orig.data@.len() == 2,
        *node.left == orig.data@[0],
        *node.right == orig.data@[1],
    ensures
        forall|ray: Ray, t: int|
            #[trigger] obj_cand(HittableObject::BVHNode(node), ray, t)
                <==> list_cand(orig, ray, t),
        forall|ray: Ray, rec: HitRecord|
            #[trigger] obj_record_of(HittableObject::BVHNode(node), ray, rec)
                <==> list_record_of(orig, ray, rec),
{
    assert forall|ray: Ray, t: int|
        #[trigger] obj_cand(HittableObject::BVHNode(node), ray, t)
            <==> list_cand(orig, ray, t) by {
        if obj_cand(HittableObject::BVHNode(node), ray, t) {
            if obj_cand(orig.data@[0], ray, t) {
            } else {
                assert(obj_cand(orig.data@[1], ray, t));
            }
        }
        if list_cand(orig, ray, t) {
            let j = choose|j: int| 0 <= j < 2 && obj_cand(#[trigger] orig.data@[j], ray, t);
        }
    }
    assert forall|ray: Ray, rec: HitRecord|
        #[trigger] obj_record_of(HittableObject::BVHNode(node), ray, rec)
            <==> list_record_of(orig, ray, rec) by {
        if obj_record_of(HittableObject::BVHNode(node), ray, rec) {
            if obj_record_of(orig.data@[0], ray, rec) {
            } else {
                assert(obj_record_of(orig.data@[1], ray, rec));
            }
        }
        if list_record_of(orig, ray, rec) {
            let j = choose|j: int| 0 <= j < 2 && obj_record_of(#[trigger] orig.data@[j], ray, rec);
        }
    }
}

/// Candidate and record equivalence for the recursive split: the sorted
/// sequence holds the same objects as the original list, and its two halves
/// are the children's lists.
proof fn lemma_split_equiv(
    node: BVHNode,
    orig: HittableList,
    sorted: Seq<HittableObject>,
    left_list: HittableList,
    right_list: HittableList,
    mid: int,
)
    requires
        0 < mid < sorted.len(),
        forall|o: HittableObject| #[trigger] sorted.contains(o) <==> orig.data@.contains(o),
        left_list.data@ == sorted.subrange(0, mid),
        right_list.data@ == sorted.subrange(mid, sorted.len() as int),
        forall|ray: Ray, t: int|
            #[trigger] obj_cand(*node.left, ray, t) <==> list_cand(left_list, ray, t),
        forall|ray: Ray, t: int|
            #[trigger] obj_cand(*node.right, ray, t) <==> list_cand(right_list, ray, t),
        forall|ray: Ray, rec: HitRecord|
            #[trigger] obj_record_of(*node.left, ray, rec) <==> list_record_of(left_list, ray, rec),
        forall|ray: Ray, rec: HitRecord|
            #[trigger] obj_record_of(*node.right, ray, rec) <==> list_record_of(
                right_list, ray, rec),
    ensures
        forall|ray: Ray, t: int|
            #[trigger] obj_cand(HittableObject::BVHNode(node), ray, t)
                <==> list_cand(orig, ray, t),
        forall|ray: Ray, rec: HitRecord|
            #[trigger] obj_record_of(HittableObject::BVHNode(node), ray, rec)
                <==> list_record_of(orig, ray, rec),
{
    assert forall|ray: Ray, t: int|
        #[trigger] obj_cand(HittableObject::BVHNode(node), ray, t)
            <==> list_cand(orig, ray, t) by {
        if obj_cand(HittableObject::BVHNode(node), ray, t) {
            if obj_cand(*node.left, ray, t) {
                assert(list_cand(left_list, ray, t));
                let j = choose|j: int|
                    0 <= j < left_list.data@.len()
                        && obj_cand(#[trigger] left_list.data@[j], ray, t);
                assert(left_list.data@[j] == sorted.subrange(0, mid)[j]);
                assert(sorted[j] == left_list.data@[j]);
                assert(sorted.contains(sorted[j]));
                let k = choose|k: int| 0 <= k < orig.data@.len() && orig.data@[k] == sorted[j];
                assert(obj_cand(orig.data@[k], ray, t));
                assert(list_cand(orig, ray, t));
            } else {
                assert(obj_cand(*node.right, ray, t));
                assert(list_cand(right_list, ray, t));
                let j = choose|j: int|
                    0 <= j < right_list.data@.len()
                        && obj_cand(#[trigger] right_list.data@[j], ray, t);
                assert(right_list.data@[j]
                    == sorted.subrange(mid, sorted.len() as int)[j]);
                assert(sorted[mid + j] == right_list.data@[j]);
                assert(sorted.contains(sorted[mid + j]));
                let k = choose|k: int|
                    0 <= k < orig.data@.len() && orig.data@[k] == sorted[mid + j];
                assert(obj_cand(orig.data@[k], ray, t));
                assert(list_cand(orig, ray, t));
            }
        }
        if list_cand(orig, ray, t) {
            let k = choose|k: int|
                0 <= k < orig.data@.len() && obj_cand(#[trigger] orig.data@[k], ray, t);
            assert(orig.data@.contains(orig.data@[k]));
            assert(sorted.contains(orig.data@[k]));
            let j = choose|j: int| 0 <= j < sorted.len() && sorted[j] == orig.data@[k];
            if j < mid {
                assert(left_list.data@[j] == sorted.subrange(0, mid)[j]);
                assert(left_list.data@[j] == sorted[j]);
                assert(obj_cand(left_list.data@[j], ray, t));
                assert(list_cand(left_list, ray, t));
                assert(obj_cand(*node.left, ray, t));
            } else {
                assert(right_list.data@[j - mid]
                    == sorted.subrange(mid, sorted.len() as int)[j - mid]);
                assert(right_list.data@[j - mid] == sorted[j]);
                assert(obj_cand(right_list.data@[j - mid], ray, t));
                assert(list_cand(right_list, ray, t));
                assert(obj_cand(*node.right, ray, t));
            }
        }
    }
    assert forall|ray: Ray, rec: HitRecord|
        #[trigger] obj_record_of(HittableObject::BVHNode(node), ray, rec)
            <==> list_record_of(orig, ray, rec) by {
        if obj_record_of(HittableObject::BVHNode(node), ray, rec) {
            if obj_record_of(*node.left, ray, rec) {
                assert(list_record_of(left_list, ray, rec));
                let j = choose|j: int|
                    0 <= j < left_list.data@.len()
                        && obj_record_of(#[trigger] left_list.data@[j], ray, rec);
                assert(left_list.data@[j] == sorted.subrange(0, mid)[j]);
                assert(sorted[j] == left_list.data@[j]);
                assert(sorted.contains(sorted[j]));
                let k = choose|k: int| 0 <= k < orig.data@.len() && orig.data@[k] == sorted[j];
                assert(obj_record_of(orig.data@[k], ray, rec));
                assert(list_record_of(orig, ray, rec));
            } else {
                assert(obj_record_of(*node.right, ray, rec));
                assert(list_record_of(right_list, ray, rec));
                let j = choose|j: int|
                    0 <= j < right_list.data@.len()
                        && obj_record_of(#[trigger] right_list.data@[j], ray, rec);
                assert(right_list.data@[j]
                    == sorted.subrange(mid, sorted.len() as int)[j]);
                assert(sorted[mid + j] == right_list.data@[j]);
                assert(sorted.contains(sorted[mid + j]));
                let k = choose|k: int|
                    0 <= k < orig.data@.len() && orig.data@[k] == sorted[mid + j];
                assert(obj_record_of(orig.data@[k], ray, rec));
                assert(list_record_of(orig, ray, rec));
            }
        }
        if list_record_of(orig, ray, rec) {
            let k = choose|k: int|
                0 <= k < orig.data@.len() && obj_record_of(#[trigger] orig.data@[k], ray, rec);
            assert(orig.data@.contains(orig.data@[k]));
            assert(sorted.contains(orig.data@[k]));
            let j = choose|j: int| 0 <= j < sorted.len() && sorted[j] == orig.data@[k];
            if j < mid {
                assert(left_list.data@[j] == sorted.subrange(0, mid)[j]);
                assert(left_list.data@[j] == sorted[j]);
                assert(obj_record_of(left_list.data@[j], ray, rec));
                assert(list_record_of(left_list, ray, rec));
                assert(obj_record_of(*node.left, ray, rec));
            } else {
                assert(right_list.data@[j - mid]
                    == sorted.subrange(mid, sorted.len() as int)[j - mid]);
                assert(right_list.data@[j - mid] == sorted[j]);
                assert(obj_record_of(right_list.data@[j - mid], ray, rec));
                assert(list_record_of(right_list, ray, rec));
                assert(obj_record_of(*node.right, ray, rec));
            }
        }
    }
}

} // verus!
