//! Hit records, the closed variant type over every object a ray can strike,
//! and the flat scene list. Each hittable's intersection contract has one
//! shape: the returned record belongs to a candidate hit time, lies
//! strictly inside the query window, and no candidate in the window is
//! nearer. The linear list scan and the bounding-volume hierarchy both meet
//! this contract over the same candidate set, which is what makes the
//! hierarchy a pure acceleration.

use vstd::prelude::*;
use crate::bounding_box::{AxisAlignedBoundingBox, lemma_contained_time_in_box, rat_time_in_box};
use crate::bvh::BVHNode;
use crate::interval::Interval;
use crate::material::Material;
use crate::sphere::{Sphere, sphere_cand, sphere_record, sphere_wf};
use crate::triangle::{Triangle, triangle_cand, triangle_record, triangle_wf};
use crate::vec3::{MAX_TIME, Point3, Ray, Vec3, point_in_range, spec_dot, vec_in_range};

verus! {

#[derive(Debug)]
pub struct HitRecord {
    pub collision_point: Point3,
    /// Oriented against the incoming ray.
    pub normal_vector: Vec3,
    pub collision_time: i64,
    /// Whether the geometric (outward) normal already faced the ray.
    pub front_face: bool,
    pub material: Material,
    pub u: i64,
    pub v: i64,
}

impl HitRecord {
    /// Orient an outward normal against the incoming ray: the boolean
    /// records whether the ray met the front face.
    pub fn calc_front_face(ray: Ray, outward_normal: Vec3) -> (r: (bool, Vec3))
        requires
            vec_in_range(ray.direction),
            vec_in_range(outward_normal),
        ensures
            r.0 == (spec_dot(ray.direction, outward_normal) < 0),
            r.0 ==> r.1 == outward_normal,
            !r.0 ==> r.1 == (Vec3 {
                x: -outward_normal.x as i64,
                y: -outward_normal.y as i64,
                z: -outward_normal.z as i64,
            }),
    {
        let front_face = ray.direction.dot(outward_normal) < 0;
        (
            front_face,
            if front_face {
                outward_normal
            } else {
                outward_normal.neg()
            },
        )
    }
}

/// Everything a ray can strike: the two leaf primitives and an inner node
/// of the bounding-volume hierarchy.
#[derive(Debug)]
pub enum HittableObject {
    Sphere(Sphere),
    Triangle(Triangle),
    BVHNode(BVHNode),
}

/// Well-formed object: leaves are well-formed primitives; a node has
/// well-formed children and a box containing both children's boxes.
pub open spec fn obj_wf(o: HittableObject) -> bool
    decreases o,
{
    match o {
        HittableObject::Sphere(s) => sphere_wf(s),
        HittableObject::Triangle(t) => triangle_wf(t),
        HittableObject::BVHNode(n) => {
            &&& obj_wf(*n.left)
            &&& obj_wf(*n.right)
            &&& n.bounds.spec_contains_box(obj_bounds(*n.left))
            &&& n.bounds.spec_contains_box(obj_bounds(*n.right))
        },
    }
}

/// The cached bounding box of an object.
pub open spec fn obj_bounds(o: HittableObject) -> AxisAlignedBoundingBox {
    match o {
        HittableObject::Sphere(s) => s.bounds,
        HittableObject::Triangle(t) => t.bounds,
        HittableObject::BVHNode(n) => n.bounds,
    }
}

/// A candidate hit time of the object for this ray: a primitive hit time
/// for a leaf, or a candidate of either child for a node.
pub open spec fn obj_cand(o: HittableObject, ray: Ray, t: int) -> bool
    decreases o,
{
    match o {
        HittableObject::Sphere(s) => sphere_cand(s, ray, t),
        HittableObject::Triangle(tr) => triangle_cand(tr, ray, t),
        HittableObject::BVHNode(n) => obj_cand(*n.left, ray, t) || obj_cand(*n.right, ray, t),
    }
}

/// Whether `rec` is the record some primitive within the object produces
/// for its hit time.
pub open spec fn obj_record_of(o: HittableObject, ray: Ray, rec: HitRecord) -> bool
    decreases o,
{
    match o {
        HittableObject::Sphere(s) => sphere_cand(s, ray, rec.collision_time as int)
            && rec == sphere_record(s, ray, rec.collision_time),
        HittableObject::Triangle(tr) => triangle_cand(tr, ray, rec.collision_time as int)
            && rec == triangle_record(tr, ray, rec.collision_time),
        HittableObject::BVHNode(n) => obj_record_of(*n.left, ray, rec)
            || obj_record_of(*n.right, ray, rec),
    }
}

/// Every texture held anywhere in the object stays within the unit range.
pub open spec fn obj_textures_unit(o: HittableObject) -> bool
    decreases o,
{
    match o {
        HittableObject::Sphere(s) => crate::texture::texture_unit(s.material.texture),
        HittableObject::Triangle(t) => crate::texture::texture_unit(t.material.texture),
        HittableObject::BVHNode(n) => obj_textures_unit(*n.left) && obj_textures_unit(*n.right),
    }
}

/// Every texture held anywhere in the list stays within the unit range.
pub open spec fn list_textures_unit(l: HittableList) -> bool {
    forall|i: int| 0 <= i < l.data.len() ==> obj_textures_unit(#[trigger] l.data[i])
}

/// The fields of any record a well-formed object can produce are well
/// behaved: point in range, near-unit normal, unit-range surface
/// coordinates, and a well-formed material belonging to some primitive.
pub proof fn lemma_record_props(o: HittableObject, ray: Ray, rec: HitRecord)
    requires
        obj_wf(o),
        point_in_range(ray.origin),
        vec_in_range(ray.direction),
        obj_record_of(o, ray, rec),
    ensures
        point_in_range(rec.collision_point),
        -0x2_0000 <= rec.normal_vector.x <= 0x2_0000,
        -0x2_0000 <= rec.normal_vector.y <= 0x2_0000,
        -0x2_0000 <= rec.normal_vector.z <= 0x2_0000,
        0 <= rec.u <= 65536,
        0 <= rec.v <= 65536,
        crate::material::material_wf(rec.material),
        obj_textures_unit(o) ==> crate::texture::texture_unit(rec.material.texture),
    decreases o,
{
    match o {
        HittableObject::Sphere(s) => {
            crate::sphere::lemma_sphere_record_props(s, ray, rec.collision_time);
        },
        HittableObject::Triangle(t) => {
            crate::triangle::lemma_triangle_record_props(t, ray, rec.collision_time);
        },
        HittableObject::BVHNode(n) => {
            if obj_record_of(*n.left, ray, rec) {
                lemma_record_props(*n.left, ray, rec);
            } else {
                lemma_record_props(*n.right, ray, rec);
            }
        },
    }
}

/// The record props, lifted to a list.
pub proof fn lemma_list_record_props(l: HittableList, ray: Ray, rec: HitRecord)
    requires
        list_wf(l),
        point_in_range(ray.origin),
        vec_in_range(ray.direction),
        list_record_of(l, ray, rec),
    ensures
        point_in_range(rec.collision_point),
        -0x2_0000 <= rec.normal_vector.x <= 0x2_0000,
        -0x2_0000 <= rec.normal_vector.y <= 0x2_0000,
        -0x2_0000 <= rec.normal_vector.z <= 0x2_0000,
        0 <= rec.u <= 65536,
        0 <= rec.v <= 65536,
        crate::material::material_wf(rec.material),
        list_textures_unit(l) ==> crate::texture::texture_unit(rec.material.texture),
{
    let j = choose|j: int| 0 <= j < l.data.len() && obj_record_of(#[trigger] l.data[j], ray, rec);
    lemma_record_props(l.data[j], ray, rec);
}

/// Two scans over candidate-equivalent scenes agree: querying one scene
/// and the other over the same window either both miss, or both hit at
/// exactly the same nearest time. In particular the hierarchy built by
/// `optimise` returns the same nearest hit time as the flat linear scan.
pub proof fn lemma_nearest_hit_agrees(
    l1: HittableList,
    l2: HittableList,
    ray: Ray,
    interval: Interval,
    r1: Option<HitRecord>,
    r2: Option<HitRecord>,
)
    requires
        forall|t: int| #[trigger] list_cand(l1, ray, t) <==> list_cand(l2, ray, t),
        list_hit_ok(l1, ray, interval, r1),
        list_hit_ok(l2, ray, interval, r2),
    ensures
        r1 is Some <==> r2 is Some,
        r1 is Some ==> r1->0.collision_time == r2->0.collision_time,
{
    if r1 is Some && r2 is Some {
        assert(list_cand(l2, ray, r1->0.collision_time as int));
        assert(list_cand(l1, ray, r2->0.collision_time as int));
    } else if r1 is Some {
        assert(list_cand(l2, ray, r1->0.collision_time as int));
        assert(false);
    } else if r2 is Some {
        assert(list_cand(l1, ray, r2->0.collision_time as int));
        assert(false);
    }
}

/// The one intersection contract every hittable meets: a returned record is
/// a candidate's record, lies strictly inside the window, and is nearest
/// among the candidates there; no record means no candidate in the window.
pub open spec fn obj_hit_ok(
    o: HittableObject,
    ray: Ray,
    interval: Interval,
    r: Option<HitRecord>,
) -> bool {
    match r {
        Some(rec) => {
            &&& obj_cand(o, ray, rec.collision_time as int)
            &&& obj_record_of(o, ray, rec)
            &&& interval.min < rec.collision_time < interval.max
            &&& forall|t: int|
                #[trigger] obj_cand(o, ray, t) && interval.min < t < interval.max
                    ==> rec.collision_time <= t
        },
        None => forall|t: int|
            !(#[trigger] obj_cand(o, ray, t) && interval.min < t < interval.max),
    }
}

/// Every candidate time of a well-formed object places the ray inside the
/// object's own bounding box: pruning by the box cannot lose a hit.
pub proof fn lemma_cand_in_bounds(o: HittableObject, ray: Ray, t: int)
    requires
        obj_wf(o),
        obj_cand(o, ray, t),
    ensures
        exists|tn: int, td: int| {
            &&& td > 0
            &&& t * td <= tn <= (t + 1) * td
            &&& #[trigger] rat_time_in_box(obj_bounds(o), ray, tn, td)
        },
    decreases o,
{
    match o {
        HittableObject::Sphere(_) => {
            assert(t * 1 == t && (t + 1) * 1 == t + 1) by (nonlinear_arith);
            assert(t * 1 <= t <= (t + 1) * 1 && rat_time_in_box(obj_bounds(o), ray, t, 1));
        },
        HittableObject::Triangle(tr) => {
            crate::triangle::lemma_triangle_time_brackets(tr, ray);
            let td = crate::triangle::mt_sdet(tr, ray);
            let tn = 65536 * crate::triangle::mt_tnum_norm(tr, ray);
            assert(td > 0 && t * td <= tn <= (t + 1) * td
                && rat_time_in_box(obj_bounds(o), ray, tn, td));
        },
        HittableObject::BVHNode(n) => {
            if obj_cand(*n.left, ray, t) {
                lemma_cand_in_bounds(*n.left, ray, t);
                let (tn, td) = choose|tn: int, td: int| {
                    &&& td > 0
                    &&& t * td <= tn <= (t + 1) * td
                    &&& #[trigger] rat_time_in_box(obj_bounds(*n.left), ray, tn, td)
                };
                lemma_contained_time_in_box(n.bounds, obj_bounds(*n.left), ray, tn, td);
                assert(rat_time_in_box(obj_bounds(o), ray, tn, td));
            } else {
                lemma_cand_in_bounds(*n.right, ray, t);
                let (tn, td) = choose|tn: int, td: int| {
                    &&& td > 0
                    &&& t * td <= tn <= (t + 1) * td
                    &&& #[trigger] rat_time_in_box(obj_bounds(*n.right), ray, tn, td)
                };
                lemma_contained_time_in_box(n.bounds, obj_bounds(*n.right), ray, tn, td);
                assert(rat_time_in_box(obj_bounds(o), ray, tn, td));
            }
        },
    }
}

impl Clone for HittableObject {
    /// Structural deep copy: the clone is equal to the original.
    fn clone(&self) -> (res: Self)
        ensures
            res == *self,
        decreases *self,
    {
        match self {
            HittableObject::Sphere(s) => HittableObject::Sphere(Sphere {
                center: s.center,
                radius: s.radius,
                material: s.material.clone(),
                bounds: s.bounds,
            }),
            HittableObject::Triangle(t) => HittableObject::Triangle(Triangle {
                corner_one: t.corner_one,
                corner_two: t.corner_two,
                corner_three: t.corner_three,
                material: t.material.clone(),
                normal: t.normal,
                bounds: t.bounds,
            }),
            HittableObject::BVHNode(n) => HittableObject::BVHNode(BVHNode {
                left: Box::new((&*n.left).clone()),
                right: Box::new((&*n.right).clone()),
                bounds: n.bounds,
            }),
        }
    }
}

impl HittableObject {
    /// The nearest hit of the ray on this object strictly inside the query
    /// window.
    pub fn was_hit(&self, ray: Ray, interval: Interval) -> (r: Option<HitRecord>)
        requires
            obj_wf(*self),
            point_in_range(ray.origin),
            vec_in_range(ray.direction),
            -MAX_TIME <= interval.min <= MAX_TIME,
            -MAX_TIME <= interval.max <= MAX_TIME,
        ensures
            obj_hit_ok(*self, ray, interval, r),
        decreases *self,
    {
        match self {
            HittableObject::Sphere(s) => s.was_hit(ray, interval),
            HittableObject::Triangle(t) => t.was_hit(ray, interval),
            HittableObject::BVHNode(n) => n.was_hit(ray, interval),
        }
    }

    pub fn get_bounding_box(&self) -> (b: AxisAlignedBoundingBox)
        ensures
            b == obj_bounds(*self),
    {
        match self {
            HittableObject::Sphere(s) => s.bounds,
            HittableObject::Triangle(t) => t.bounds,
            HittableObject::BVHNode(n) => n.bounds,
        }
    }
}

/// An ordered collection of hittable objects with a cached aggregate box.
#[derive(Debug)]
pub struct HittableList {
    pub data: Vec<HittableObject>,
    pub bounds: AxisAlignedBoundingBox,
}

/// Well-formed list: every object is well formed and the aggregate box
/// contains each object's box.
pub open spec fn list_wf(l: HittableList) -> bool {
    forall|i: int|
        0 <= i < l.data.len() ==> obj_wf(#[trigger] l.data[i])
            && l.bounds.spec_contains_box(obj_bounds(l.data[i]))
}

/// A candidate hit time of any object in the list.
pub open spec fn list_cand(l: HittableList, ray: Ray, t: int) -> bool {
    exists|i: int| 0 <= i < l.data.len() && obj_cand(#[trigger] l.data[i], ray, t)
}

/// Whether `rec` is the record of some object in the list.
pub open spec fn list_record_of(l: HittableList, ray: Ray, rec: HitRecord) -> bool {
    exists|i: int| 0 <= i < l.data.len() && obj_record_of(#[trigger] l.data[i], ray, rec)
}

/// The intersection contract of the list, over its own candidate set.
pub open spec fn list_hit_ok(
    l: HittableList,
    ray: Ray,
    interval: Interval,
    r: Option<HitRecord>,
) -> bool {
    match r {
        Some(rec) => {
            &&& list_cand(l, ray, rec.collision_time as int)
            &&& list_record_of(l, ray, rec)
            &&& interval.min < rec.collision_time < interval.max
            &&& forall|t: int|
                #[trigger] list_cand(l, ray, t) && interval.min < t < interval.max
                    ==> rec.collision_time <= t
        },
        None => forall|t: int|
            !(#[trigger] list_cand(l, ray, t) && interval.min < t < interval.max),
    }
}

impl HittableList {
    /// An empty scene: no objects, empty aggregate box.
    pub fn new() -> (l: HittableList)
        ensures
            l.data@.len() == 0,
            l.bounds == AxisAlignedBoundingBox::spec_empty(),
            list_wf(l),
    {
        HittableList { data: Vec::new(), bounds: AxisAlignedBoundingBox::empty() }
    }

    /// Append an object, growing the aggregate box to contain it.
    pub fn push(&mut self, object: HittableObject)
        requires
            list_wf(*old(self)),
            obj_wf(object),
        ensures
            final(self).data@ == old(self).data@.push(object),
            final(self).bounds == old(self).bounds.spec_enclose(obj_bounds(object)),
            list_wf(*final(self)),
    {
        proof {
            crate::bounding_box::lemma_box_enclose_contains(self.bounds, obj_bounds(object));
        }
        let b = object.get_bounding_box();
        self.bounds.grow_to_box(&b);
        self.data.push(object);
    }

    pub fn len(&self) -> (n: usize)
        ensures
            n == self.data@.len(),
    {
        self.data.len()
    }

    pub fn get_bounding_box(&self) -> (b: AxisAlignedBoundingBox)
        ensures
            b == self.bounds,
    {
        self.bounds
    }

    /// Linear scan for the nearest hit: the window's far end is narrowed to
    /// each confirmed hit, so the final record is the globally nearest one.
    pub fn was_hit(&self, ray: Ray, interval: Interval) -> (r: Option<HitRecord>)
        requires
            list_wf(*self),
            point_in_range(ray.origin),
            vec_in_range(ray.direction),
            -MAX_TIME <= interval.min <= MAX_TIME,
            -MAX_TIME <= interval.max <= MAX_TIME,
        ensures
            list_hit_ok(*self, ray, interval, r),
    {
        let mut closest: i64 = interval.max;
        let mut out: Option<HitRecord> = None;
        let mut i: usize = 0;
        while i < self.data.len()
            invariant
                0 <= i <= self.data.len(),
                list_wf(*self),
                point_in_range(ray.origin),
                vec_in_range(ray.direction),
                -MAX_TIME <= interval.min <= MAX_TIME,
                -MAX_TIME <= interval.max <= MAX_TIME,
                match out {
                    Some(rec) => {
                        &&& exists|j: int|
                            0 <= j < i && obj_cand(#[trigger] self.data[j], ray,
                                rec.collision_time as int)
                        &&& exists|j: int|
                            0 <= j < i && obj_record_of(#[trigger] self.data[j], ray, rec)
                        &&& interval.min < rec.collision_time < interval.max
                        &&& closest == rec.collision_time
                        &&& forall|j: int, t: int|
                            0 <= j < i && #[trigger] obj_cand(self.data[j], ray, t)
                                && interval.min < t < interval.max
                                ==> rec.collision_time <= t
                    },
                    None => {
                        &&& closest == interval.max
                        &&& forall|j: int, t: int|
                            0 <= j < i ==> !(#[trigger] obj_cand(self.data[j], ray, t)
                                && interval.min < t < interval.max)
                    },
                },
            decreases self.data.len() - i,
        {
            let window = Interval::new(interval.min, closest);
            let hit = self.data[i].was_hit(ray, window);
            match hit {
                Some(rec) => {
                    proof {
                        assert(obj_cand(self.data[i as int], ray, rec.collision_time as int));
                    }
                    closest = rec.collision_time;
                    out = Some(rec);
                },
                None => {},
            }
            i += 1;
        }
        out
    }

    /// Wrap the whole list into a single hierarchy root: a one-time,
    /// explicit transformation that preserves the candidate set exactly.
    pub fn optimise(self) -> (r: HittableList)
        requires
            list_wf(self),
            self.data@.len() >= 1,
        ensures
            list_wf(r),
            r.data@.len() == 1,
            forall|ray: Ray, t: int|
                #[trigger] list_cand(r, ray, t) <==> #[trigger] list_cand(self, ray, t),
            forall|ray: Ray, rec: HitRecord|
                #[trigger] list_record_of(r, ray, rec) <==> #[trigger] list_record_of(
                    self, ray, rec),
    {
        let ghost original = self;
        let node = BVHNode::new(self);
        let root = HittableObject::BVHNode(node);
        let b = root.get_bounding_box();
        let mut data: Vec<HittableObject> = Vec::new();
        data.push(root);
        let r = HittableList { data, bounds: b };
        proof {
            assert forall|ray: Ray, t: int|
                #[trigger] list_cand(r, ray, t) <==> #[trigger] list_cand(original, ray, t) by {
                assert(r.data[0] == HittableObject::BVHNode(node));
                if list_cand(r, ray, t) {
                    assert(obj_cand(r.data[0], ray, t));
                }
                if list_cand(original, ray, t) {
                    assert(obj_cand(HittableObject::BVHNode(node), ray, t));
                    assert(obj_cand(r.data[0], ray, t));
                }
            }
            assert forall|ray: Ray, rec: HitRecord|
                #[trigger] list_record_of(r, ray, rec) <==> #[trigger] list_record_of(
                    original, ray, rec) by {
                assert(r.data[0] == HittableObject::BVHNode(node));
                if list_record_of(r, ray, rec) {
                    assert(obj_record_of(r.data[0], ray, rec));
                }
                if list_record_of(original, ray, rec) {
                    assert(obj_record_of(HittableObject::BVHNode(node), ray, rec));
                    assert(obj_record_of(r.data[0], ray, rec));
                }
            }
        }
        r
    }
}

} // verus!
