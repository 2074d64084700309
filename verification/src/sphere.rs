//! Spheres, still or moving along a straight line.
use crate::aabb::Aabb;
use crate::hittable::{Closest, HitRecord, Hittable};
use crate::interval::Interval;
use crate::material::Material;
use crate::ray::Ray;
use crate::scalar::{
    lemma_div_monotone, lemma_sqrt_nonnegative, lemma_square_nonnegative, lemma_times_commutes,
    lemma_times_monotone, lemma_times_unit, Scalar, SCALE,
};
use crate::vec3::Vec3;
use vstd::prelude::*;

verus! {

/// A sphere. Its centre at time `t` is `center.at(t)`: the origin of
/// `center` is where it stands at time zero, and the direction is how far
/// it moves until time one.
#[derive(Clone, Copy, Debug, PartialEq, Eq, Structural)]
pub struct Sphere {
    pub center: Ray,
    pub radius: Scalar,
    pub material: Material,
    pub bbox: Aabb,
}

/// The stretch of one axis that a sphere covers whose centre lies at
/// `center` on that axis: from `center - radius` to `center + radius`,
/// the smaller of the two first.
pub open spec fn axis_around(center: Scalar, radius: Scalar) -> Interval {
    if center.minus(radius).raw <= center.plus(radius).raw {
        Interval { start: center.minus(radius), end: center.plus(radius) }
    } else {
        Interval { start: center.plus(radius), end: center.minus(radius) }
    }
}

/// The box around a sphere of the given centre and radius.
pub open spec fn box_around(center: Vec3, radius: Scalar) -> Aabb {
    Aabb {
        x: axis_around(center.x, radius),
        y: axis_around(center.y, radius),
        z: axis_around(center.z, radius),
    }
}

/// The two parameters at which a ray meets a sphere, nearer one first, or
/// nothing if the ray passes it by. With `oc` the vector from the ray's
/// origin to the centre, they are the roots `(h -+ sqrt(h^2 - a c)) / a`
/// of the quadratic with `a = d . d`, `h = d . oc` and
/// `c = oc . oc - r^2`.
pub open spec fn sphere_roots(center: Vec3, radius: Scalar, ray: Ray) -> Option<(Scalar, Scalar)> {
    let oc = center.spec_minus(ray.origin);
    let a = ray.direction.spec_length_squared();
    let h = ray.direction.spec_dot(oc);
    let c = oc.spec_length_squared().minus(radius.times(radius));
    let discriminant = h.times(h).minus(a.times(c));
    if discriminant.raw < 0 {
        None
    } else {
        let sqrtd = discriminant.spec_sqrt();
        Some((h.minus(sqrtd).div(a), h.plus(sqrtd).div(a)))
    }
}

/// The nearer root first: the two roots are in order.
pub proof fn lemma_roots_ordered(center: Vec3, radius: Scalar, ray: Ray)
    ensures
        sphere_roots(center, radius, ray) matches Some(roots) ==> roots.0.raw <= roots.1.raw,
{
    let oc = center.spec_minus(ray.origin);
    let a = ray.direction.spec_length_squared();
    let h = ray.direction.spec_dot(oc);
    let c = oc.spec_length_squared().minus(radius.times(radius));
    let discriminant = h.times(h).minus(a.times(c));
    if discriminant.raw >= 0 {
        let sqrtd = discriminant.spec_sqrt();
        lemma_sqrt_nonnegative(discriminant);
        lemma_square_nonnegative(ray.direction.x);
        lemma_square_nonnegative(ray.direction.y);
        lemma_square_nonnegative(ray.direction.z);
        lemma_div_monotone(h.minus(sqrtd), h.plus(sqrtd), a);
    }
}

/// The box around everything a sphere passes through while its centre
/// moves along `center` from time zero to time one.
pub open spec fn swept_box(center: Ray, radius: Scalar) -> Aabb {
    Aabb::spec_union(
        box_around(center.spec_at(Scalar::spec_zero()), radius),
        box_around(center.spec_at(Scalar::spec_one()), radius),
    )
}

/// Whether `time` lies from zero to one, both counted in.
pub open spec fn in_shutter(time: Scalar) -> bool {
    0 <= time.raw <= SCALE
}

/// Along one axis: a centre that moves from `origin` by `direction` in
/// unit time lies, at every time from zero to one, between where it
/// starts and where it ends.
pub proof fn lemma_centre_between(origin: Scalar, direction: Scalar, time: Scalar)
    requires
        in_shutter(time),
    ensures
        ({
            let first = origin.plus(direction.times(Scalar::spec_zero()));
            let now = origin.plus(direction.times(time));
            let last = origin.plus(direction.times(Scalar::spec_one()));
            first.raw <= now.raw <= last.raw || last.raw <= now.raw <= first.raw
        }),
{
    let zero = Scalar::spec_zero();
    let one = Scalar::spec_one();
    lemma_times_commutes(direction, zero);
    lemma_times_commutes(direction, time);
    lemma_times_commutes(direction, one);
    lemma_times_monotone(zero, time, direction);
    lemma_times_monotone(time, one, direction);
}

/// Along one axis: what a sphere covers at a place between two others
/// lies within what it covers at those two taken together.
pub proof fn lemma_around_between(first: Scalar, now: Scalar, last: Scalar, radius: Scalar)
    requires
        first.raw <= now.raw <= last.raw || last.raw <= now.raw <= first.raw,
    ensures
        axis_around(first, radius).spec_merge(axis_around(last, radius)).encloses(
            axis_around(now, radius),
        ),
{
}

/// Along one axis: what a moving sphere covers at a time from zero to
/// one lies within what it covers at time zero and at time one taken
/// together.
pub proof fn lemma_axis_swept(origin: Scalar, direction: Scalar, radius: Scalar, time: Scalar)
    requires
        in_shutter(time),
    ensures
        axis_around(origin.plus(direction.times(Scalar::spec_zero())), radius).spec_merge(
            axis_around(origin.plus(direction.times(Scalar::spec_one())), radius),
        ).encloses(axis_around(origin.plus(direction.times(time)), radius)),
{
    lemma_centre_between(origin, direction, time);
    lemma_around_between(
        origin.plus(direction.times(Scalar::spec_zero())),
        origin.plus(direction.times(time)),
        origin.plus(direction.times(Scalar::spec_one())),
        radius,
    );
}

/// At every time from zero to one, the swept box encloses the box around
/// the sphere where it then stands: the centre moves along each axis
/// from its first place to its last without turning back.
pub proof fn lemma_swept_box_encloses(center: Ray, radius: Scalar, time: Scalar)
    requires
        in_shutter(time),
    ensures
        swept_box(center, radius).encloses(box_around(center.spec_at(time), radius)),
{
    lemma_axis_swept(center.origin.x, center.direction.x, radius, time);
    lemma_axis_swept(center.origin.y, center.direction.y, radius, time);
    lemma_axis_swept(center.origin.z, center.direction.z, radius, time);
}

impl Sphere {
    /// A sphere that stands still at `center`. The radius is meant to be
    /// positive.
    pub fn new(center: Vec3, radius: Scalar, material: Material) -> (s: Sphere)
        ensures
            s.center == Ray::spec_new(center, Vec3::spec_black(), Scalar::spec_zero()),
            s.radius == radius,
            s.material == material,
            s.bbox == box_around(center, radius),
            s.bbox.is_ordered(),
            center.in_range() ==> forall|time: Scalar| #[trigger] s.center.spec_at(time) == center,
    {
        let rvec = Vec3::splat(radius);
        let ghost still = Ray::spec_new(center, Vec3::spec_black(), Scalar::spec_zero());
        assert forall|time: Scalar| center.in_range() implies #[trigger] still.spec_at(time)
            == center by {
            lemma_times_unit(time, Scalar::spec_zero());
            lemma_times_commutes(time, Scalar::spec_zero());
        }
        Sphere {
            center: Ray { origin: center, direction: Vec3::black(), time: Scalar::zero() },
            radius,
            material,
            bbox: Aabb::from_points(center.minus(rvec), center.plus(rvec)),
        }
    }

    /// A sphere that moves from `center1` at time zero to `center2` at
    /// time one. Its box is the union of the boxes around it at both
    /// ends, and so encloses the box around it at every time between.
    /// The radius is meant to be positive.
    pub fn moving(center1: Vec3, center2: Vec3, radius: Scalar, material: Material) -> (s: Sphere)
        ensures
            s.center == Ray::spec_new(center1, center2.spec_minus(center1), Scalar::spec_zero()),
            s.radius == radius,
            s.material == material,
            s.bbox == swept_box(s.center, radius),
            s.bbox.is_ordered(),
            forall|time: Scalar|
                in_shutter(time) ==> #[trigger] s.bbox.encloses(
                    box_around(s.center.spec_at(time), radius),
                ),
    {
        let rvec = Vec3::splat(radius);
        let center = Ray { origin: center1, direction: center2.minus(center1), time: Scalar::zero() };
        let start = center.at(Scalar::zero());
        let end = center.at(Scalar::one());
        let box1 = Aabb::from_points(start.minus(rvec), start.plus(rvec));
        let box2 = Aabb::from_points(end.minus(rvec), end.plus(rvec));
        let s = Sphere { center, radius, material, bbox: Aabb::from_boxes(box1, &box2) };
        assert(s.bbox == swept_box(center, radius));
        assert forall|time: Scalar| in_shutter(time) implies #[trigger] s.bbox.encloses(
            box_around(s.center.spec_at(time), radius),
        ) by {
            lemma_swept_box_encloses(center, radius, time);
        }
        s
    }

    /// The two parameters at which `ray` meets the sphere where it stands
    /// at the time of the ray, nearer one first, or nothing if the ray
    /// passes it by.
    pub fn roots(&self, ray: &Ray) -> (r: Option<(Scalar, Scalar)>)
        ensures
            r == sphere_roots(self.center.spec_at(ray.time), self.radius, *ray),
            r matches Some(roots) ==> roots.0.raw <= roots.1.raw,
    {
        let current_center = self.center.at(ray.time);
        let oc = current_center.minus(ray.origin);
        let a = ray.direction.length_squared();
        let h = ray.direction.dot(oc);
        let c = oc.length_squared().minus(self.radius.times(self.radius));
        let discriminant = h.times(h).minus(a.times(c));
        proof {
            lemma_roots_ordered(current_center, self.radius, *ray);
        }
        if discriminant.raw < 0 {
            return None;
        }
        let sqrtd = discriminant.sqrt();
        Some((h.minus(sqrtd).div(a), h.plus(sqrtd).div(a)))
    }

    /// The record of the hit of `ray` at parameter `t`.
    pub open spec fn record_at(&self, ray: Ray, t: Scalar) -> HitRecord {
        let current_center = self.center.spec_at(ray.time);
        let p = ray.spec_at(t);
        HitRecord::spec_with_front_face(
            p,
            t,
            p.spec_minus(current_center).spec_div(self.radius),
            self.material,
            ray,
        )
    }
}

impl Hittable for Sphere {
    /// The nearer root if it lies in the interval, else the farther one
    /// if that lies in it, else nothing.
    open spec fn hit_spec(&self, ray: Ray, interval: Interval) -> Option<HitRecord> {
        match sphere_roots(self.center.spec_at(ray.time), self.radius, ray) {
            None => None,
            Some(roots) => if interval.spec_contains(roots.0) {
                Some(self.record_at(ray, roots.0))
            } else if interval.spec_contains(roots.1) {
                Some(self.record_at(ray, roots.1))
            } else {
                None
            },
        }
    }

    open spec fn bbox_spec(&self) -> Aabb {
        self.bbox
    }

    fn hit(&self, ray: &Ray, interval: Interval) -> (r: Option<HitRecord>) {
        let current_center = self.center.at(ray.time);
        let (near, far) = match self.roots(ray) {
            None => {
                return None;
            },
            Some(roots) => roots,
        };
        let mut root = near;
        if !interval.contains(root) {
            root = far;
            if !interval.contains(root) {
                return None;
            }
        }
        let t = root;
        let p = ray.at(t);
        let normal = p.minus(current_center).div(self.radius);

        Some(HitRecord::with_front_face(p, t, normal, self.material, ray))
    }

    fn bounding_box(&self) -> (r: &Aabb) {
        &self.bbox
    }
}

impl Closest for Sphere {
    proof fn lemma_hit_in_interval(&self, ray: Ray, interval: Interval) {
    }

    proof fn lemma_hit_shortened(&self, ray: Ray, interval: Interval, end: Scalar) {
        lemma_roots_ordered(self.center.spec_at(ray.time), self.radius, ray);
    }
}

} // verus!
