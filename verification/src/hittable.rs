//! What a ray can hit, and the record of a hit.
use crate::aabb::Aabb;
use crate::interval::Interval;
use crate::material::Material;
use crate::ray::Ray;
use crate::scalar::Scalar;
use crate::vec3::Vec3;
use vstd::prelude::*;

verus! {

/// Where and how a ray met a surface.
#[derive(Clone, Copy, Debug, PartialEq, Eq, Structural)]
pub struct HitRecord {
    /// The point of the hit.
    pub p: Vec3,
    /// The surface normal at the point, turned against the ray.
    pub normal: Vec3,
    /// The ray parameter of the hit.
    pub t: Scalar,
    /// Whether the ray came from the side the outward normal points to.
    pub front_face: bool,
    pub material: Material,
}

impl HitRecord {
    pub open spec fn spec_with_front_face(
        p: Vec3,
        t: Scalar,
        outward_normal: Vec3,
        material: Material,
        ray: Ray,
    ) -> HitRecord {
        let front_face = ray.direction.spec_dot(outward_normal).raw < 0;
        HitRecord {
            p,
            normal: if front_face {
                outward_normal
            } else {
                outward_normal.spec_neg()
            },
            t,
            front_face,
            material,
        }
    }

    /// The record of a hit at `p`, with the side and the stored normal both
    /// taken from the sign of `direction . outward_normal`: the ray meets
    /// the front face when the product is negative, and the stored normal
    /// is the outward normal then and its opposite otherwise.
    pub fn with_front_face(
        p: Vec3,
        t: Scalar,
        outward_normal: Vec3,
        material: Material,
        ray: &Ray,
    ) -> (r: HitRecord)
        ensures
            r == Self::spec_with_front_face(p, t, outward_normal, material, *ray),
            r.front_face <==> ray.direction.spec_dot(outward_normal).raw < 0,
            outward_normal.x.raw > i64::MIN && outward_normal.y.raw > i64::MIN
                && outward_normal.z.raw > i64::MIN ==> ray.direction.spec_dot(r.normal).raw <= 0,
    {
        let front_face = ray.direction.dot(outward_normal).raw < 0;
        let normal = if front_face {
            outward_normal
        } else {
            outward_normal.neg()
        };
        proof {
            if outward_normal.x.raw > i64::MIN && outward_normal.y.raw > i64::MIN
                && outward_normal.z.raw > i64::MIN {
                lemma_dot_neg(ray.direction, outward_normal);
            }
        }
        HitRecord { p, normal, t, front_face, material }
    }
}

/// Negating one factor negates the product.
pub proof fn lemma_times_neg(a: Scalar, b: Scalar)
    requires
        b.raw > i64::MIN,
    ensures
        a.times(b.neg()).raw == -a.times(b).raw,
{
    let x = a.raw as int;
    let y = b.raw as int;
    assert(x * (-y) == -(x * y)) by (nonlinear_arith);
}

/// Turning one vector round negates the dot product.
pub proof fn lemma_dot_neg(d: Vec3, n: Vec3)
    requires
        n.x.raw > i64::MIN,
        n.y.raw > i64::MIN,
        n.z.raw > i64::MIN,
    ensures
        d.spec_dot(n.spec_neg()).raw == -d.spec_dot(n).raw,
{
    lemma_times_neg(d.x, n.x);
    lemma_times_neg(d.y, n.y);
    lemma_times_neg(d.z, n.z);
}

/// A hit, if it lies before `end`.
pub open spec fn closer_than(hit: Option<HitRecord>, end: Scalar) -> Option<HitRecord> {
    match hit {
        Some(h) => if h.t.raw < end.raw {
            Some(h)
        } else {
            None
        },
        None => None,
    }
}

/// Something a ray can hit.
pub trait Hittable {
    /// The closest hit of `ray` with parameter inside `interval`, if
    /// there is one. An object that does not say otherwise is never hit.
    open spec fn hit_spec(&self, ray: Ray, interval: Interval) -> Option<HitRecord> {
        None
    }

    /// The box that is kept for this object. An object that does not say
    /// otherwise has the empty box.
    open spec fn bbox_spec(&self) -> Aabb {
        Aabb::spec_empty()
    }

    /// The closest hit of `ray` with parameter inside `interval`.
    fn hit(&self, ray: &Ray, interval: Interval) -> (r: Option<HitRecord>)
        ensures
            r == self.hit_spec(*ray, interval),
    ;

    /// The box that is kept for this object.
    fn bounding_box(&self) -> (r: &Aabb)
        ensures
            *r == self.bbox_spec(),
    ;
}

/// An object whose `hit` picks the hit of least parameter: shortening the
/// interval from its far end loses the hit if it lay in the part cut off,
/// and changes nothing otherwise.
pub trait Closest: Hittable {
    /// A reported hit lies inside the interval it was looked for in.
    proof fn lemma_hit_in_interval(&self, ray: Ray, interval: Interval)
        ensures
            self.hit_spec(ray, interval) matches Some(h) ==> interval.spec_contains(h.t),
    ;

    /// Looking in an interval cut at `end` gives the hit found in the
    /// whole interval, provided that hit lies before `end`.
    proof fn lemma_hit_shortened(&self, ray: Ray, interval: Interval, end: Scalar)
        requires
            end.raw <= interval.end.raw,
        ensures
            self.hit_spec(ray, interval.spec_until(end)) == closer_than(
                self.hit_spec(ray, interval),
                end,
            ),
    ;
}

} // verus!
