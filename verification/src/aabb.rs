//! Axis-aligned bounding boxes.
use crate::interval::Interval;
use crate::ray::Ray;
use crate::scalar::{lemma_div_monotone, lemma_minus_monotone, Scalar, RAW_MAX};
use crate::vec3::Vec3;
use vstd::prelude::*;

verus! {

/// A box with faces parallel to the coordinate planes: one interval for
/// each axis.
#[derive(Clone, Copy, Debug, PartialEq, Eq, Structural)]
pub struct Aabb {
    pub x: Interval,
    pub y: Interval,
    pub z: Interval,
}

/// The part of the ray stretch `stretch` that lies between the two planes
/// of `slab`, for a ray that starts at `origin` and moves by `direction`
/// along the slab's axis. The ray crosses the planes at the parameters
/// `(start - origin) / direction` and `(end - origin) / direction`. For a
/// ray parallel to the planes these are infinite: of opposite signs if
/// the ray runs between the planes, which leaves the stretch as it is,
/// and of the same sign if it runs outside, which leaves nothing.
pub open spec fn slab_narrow(
    stretch: Interval,
    slab: Interval,
    origin: Scalar,
    direction: Scalar,
) -> Interval {
    let t0 = slab.start.minus(origin).div(direction);
    let t1 = slab.end.minus(origin).div(direction);
    if t0.raw < t1.raw {
        Interval { start: stretch.start.max(t0), end: stretch.end.min(t1) }
    } else {
        Interval { start: stretch.start.max(t1), end: stretch.end.min(t0) }
    }
}

fn narrow(stretch: Interval, slab: Interval, origin: Scalar, direction: Scalar) -> (r: Interval)
    ensures
        r == slab_narrow(stretch, slab, origin, direction),
{
    let t0 = slab.start.minus(origin).div(direction);
    let t1 = slab.end.minus(origin).div(direction);
    if t0.raw < t1.raw {
        Interval { start: stretch.start.max(t0), end: stretch.end.min(t1) }
    } else {
        Interval { start: stretch.start.max(t1), end: stretch.end.min(t0) }
    }
}

/// A ray that runs parallel to the planes of a slab and strictly between
/// them keeps its whole stretch.
pub proof fn lemma_parallel_inside(stretch: Interval, slab: Interval, origin: Scalar)
    requires
        slab.start.raw < origin.raw < slab.end.raw,
        -RAW_MAX <= stretch.start.raw,
        -RAW_MAX <= stretch.end.raw,
    ensures
        slab_narrow(stretch, slab, origin, Scalar::spec_zero()) == stretch,
{
}

/// A ray that runs parallel to the planes of a slab and outside them
/// keeps nothing of its stretch.
pub proof fn lemma_parallel_outside(stretch: Interval, slab: Interval, origin: Scalar)
    requires
        slab.is_ordered(),
        origin.raw < slab.start.raw || slab.end.raw < origin.raw,
        -RAW_MAX <= stretch.start.raw,
    ensures
        ({
            let left = slab_narrow(stretch, slab, origin, Scalar::spec_zero());
            left.end.raw <= left.start.raw
        }),
{
}

impl Aabb {
    pub open spec fn spec_new(x: Interval, y: Interval, z: Interval) -> Aabb {
        Aabb { x, y, z }
    }

    /// The box with the given extents.
    #[verifier::when_used_as_spec(spec_new)]
    pub fn new(x: Interval, y: Interval, z: Interval) -> (r: Aabb)
        ensures
            r == Self::spec_new(x, y, z),
    {
        Aabb { x, y, z }
    }

    pub open spec fn spec_empty() -> Aabb {
        Aabb { x: Interval::spec_empty(), y: Interval::spec_empty(), z: Interval::spec_empty() }
    }

    /// The box that holds nothing. Merging it with a box gives that box.
    #[verifier::when_used_as_spec(spec_empty)]
    pub fn empty() -> (r: Aabb)
        ensures
            r == Self::spec_empty(),
    {
        Aabb { x: Interval::empty(), y: Interval::empty(), z: Interval::empty() }
    }

    pub open spec fn spec_axis(&self, index: usize) -> Interval {
        if index == 1 {
            self.y
        } else if index == 2 {
            self.z
        } else {
            self.x
        }
    }

    /// The extent along axis `index`: y for 1, z for 2, x for any other
    /// index.
    #[verifier::when_used_as_spec(spec_axis)]
    pub fn axis(&self, index: usize) -> (r: Interval)
        ensures
            r == self.spec_axis(index),
    {
        if index == 1 {
            self.y
        } else if index == 2 {
            self.z
        } else {
            self.x
        }
    }

    /// Whether no extent has its start behind its end.
    pub open spec fn is_ordered(&self) -> bool {
        self.x.is_ordered() && self.y.is_ordered() && self.z.is_ordered()
    }

    /// Whether `inner` lies inside `self` on every axis.
    pub open spec fn encloses(&self, inner: Aabb) -> bool {
        self.x.encloses(inner.x) && self.y.encloses(inner.y) && self.z.encloses(inner.z)
    }

    pub open spec fn spec_from_points(a: Vec3, b: Vec3) -> Aabb {
        Aabb {
            x: if a.x.raw <= b.x.raw {
                Interval { start: a.x, end: b.x }
            } else {
                Interval { start: b.x, end: a.x }
            },
            y: if a.y.raw <= b.y.raw {
                Interval { start: a.y, end: b.y }
            } else {
                Interval { start: b.y, end: a.y }
            },
            z: if a.z.raw <= b.z.raw {
                Interval { start: a.z, end: b.z }
            } else {
                Interval { start: b.z, end: a.z }
            },
        }
    }

    /// The box with `a` and `b` as opposite corners, whichever way round
    /// they are given.
    #[verifier::when_used_as_spec(spec_from_points)]
    pub fn from_points(a: Vec3, b: Vec3) -> (r: Aabb)
        ensures
            r == Self::spec_from_points(a, b),
            r.is_ordered(),
    {
        let x = if a.x.raw <= b.x.raw {
            Interval { start: a.x, end: b.x }
        } else {
            Interval { start: b.x, end: a.x }
        };
        let y = if a.y.raw <= b.y.raw {
            Interval { start: a.y, end: b.y }
        } else {
            Interval { start: b.y, end: a.y }
        };
        let z = if a.z.raw <= b.z.raw {
            Interval { start: a.z, end: b.z }
        } else {
            Interval { start: b.z, end: a.z }
        };
        Aabb { x, y, z }
    }

    pub open spec fn spec_union(box0: Aabb, box1: Aabb) -> Aabb {
        Aabb {
            x: box0.x.spec_merge(box1.x),
            y: box0.y.spec_merge(box1.y),
            z: box0.z.spec_merge(box1.z),
        }
    }

    /// The union of two boxes: the smallest box that encloses both.
    pub fn from_boxes(box0: Aabb, box1: &Aabb) -> (r: Aabb)
        ensures
            r == Self::spec_union(box0, *box1),
            r.encloses(box0),
            r.encloses(*box1),
    {
        let x = Self::merge_intervals(box0.x, &box1.x);
        let y = Self::merge_intervals(box0.y, &box1.y);
        let z = Self::merge_intervals(box0.z, &box1.z);
        Aabb { x, y, z }
    }

    fn merge_intervals(a: Interval, b: &Interval) -> (r: Interval)
        ensures
            r == a.spec_merge(*b),
    {
        Interval { start: a.start.min(b.start), end: a.end.max(b.end) }
    }

    pub open spec fn spec_longest_axis(&self) -> usize {
        let x = self.x.spec_size().raw;
        let y = self.y.spec_size().raw;
        let z = self.z.spec_size().raw;
        if x > y {
            if x > z {
                0
            } else {
                2
            }
        } else if y > z {
            1
        } else {
            2
        }
    }

    /// The axis along which the box is longest: 0 for x, 1 for y, 2 for z.
    /// Of two axes of the same greatest length the later one is returned.
    #[verifier::when_used_as_spec(spec_longest_axis)]
    pub fn longest_axis(&self) -> (r: usize)
        ensures
            r == self.spec_longest_axis(),
            r < 3,
            forall|other: usize|
                other < 3 ==> #[trigger] self.spec_axis(other).spec_size().raw <= self.spec_axis(
                    r,
                ).spec_size().raw,
            forall|other: usize|
                r < other < 3 ==> #[trigger] self.spec_axis(other).spec_size().raw
                    < self.spec_axis(r).spec_size().raw,
    {
        let x = self.x.size().raw;
        let y = self.y.size().raw;
        let z = self.z.size().raw;
        if x > y {
            if x > z {
                0
            } else {
                2
            }
        } else if y > z {
            1
        } else {
            2
        }
    }

    /// The stretch of `ray` within `stretch` that is left after the x slab.
    pub open spec fn after_x(&self, ray: Ray, stretch: Interval) -> Interval {
        slab_narrow(stretch, self.x, ray.origin.x, ray.direction.x)
    }

    /// The stretch that is left after the x and y slabs.
    pub open spec fn after_y(&self, ray: Ray, stretch: Interval) -> Interval {
        slab_narrow(self.after_x(ray, stretch), self.y, ray.origin.y, ray.direction.y)
    }

    /// The stretch that is left after all three slabs.
    pub open spec fn after_z(&self, ray: Ray, stretch: Interval) -> Interval {
        slab_narrow(self.after_y(ray, stretch), self.z, ray.origin.z, ray.direction.z)
    }

    /// Whether `ray` passes through the box within `stretch`: narrowing
    /// the stretch slab by slab never leaves an end that is not beyond the
    /// start.
    pub open spec fn spec_hit(&self, ray: Ray, stretch: Interval) -> bool {
        let ix = self.after_x(ray, stretch);
        let iy = self.after_y(ray, stretch);
        let iz = self.after_z(ray, stretch);
        ix.start.raw < ix.end.raw && iy.start.raw < iy.end.raw && iz.start.raw < iz.end.raw
    }

    /// The slab test. The stretch is narrowed by each axis in turn, and
    /// the test stops at the first axis that leaves nothing.
    pub fn hit(&self, ray: &Ray, interval: Interval) -> (r: bool)
        ensures
            r == self.spec_hit(*ray, interval),
    {
        let ix = narrow(interval, self.x, ray.origin.x, ray.direction.x);
        if ix.end.raw <= ix.start.raw {
            return false;
        }
        let iy = narrow(ix, self.y, ray.origin.y, ray.direction.y);
        if iy.end.raw <= iy.start.raw {
            return false;
        }
        let iz = narrow(iy, self.z, ray.origin.z, ray.direction.z);
        iz.start.raw < iz.end.raw
    }
}

impl Default for Aabb {
    fn default() -> (r: Aabb)
        ensures
            r == Aabb::spec_empty(),
    {
        Aabb::empty()
    }
}

/// A box and the empty box merge into the box itself.
pub proof fn lemma_union_empty(a: Aabb)
    ensures
        Aabb::spec_union(Aabb::spec_empty(), a) == a,
        Aabb::spec_union(a, Aabb::spec_empty()) == a,
{
}

/// The union of two boxes encloses both of them on every axis.
pub proof fn lemma_union_encloses(a: Aabb, b: Aabb)
    ensures
        Aabb::spec_union(a, b).encloses(a),
        Aabb::spec_union(a, b).encloses(b),
{
}

/// The union of two boxes does not depend on their order.
pub proof fn lemma_union_commutative(a: Aabb, b: Aabb)
    ensures
        Aabb::spec_union(a, b) == Aabb::spec_union(b, a),
{
}

/// Three boxes merge into the same box whichever two are merged first.
pub proof fn lemma_union_associative(a: Aabb, b: Aabb, c: Aabb)
    ensures
        Aabb::spec_union(Aabb::spec_union(a, b), c) == Aabb::spec_union(
            a,
            Aabb::spec_union(b, c),
        ),
{
}

/// A wider slab and a wider stretch leave a wider stretch.
pub proof fn lemma_slab_narrow_monotone(
    inner_stretch: Interval,
    outer_stretch: Interval,
    inner: Interval,
    outer: Interval,
    origin: Scalar,
    direction: Scalar,
)
    requires
        inner.is_ordered(),
        outer.encloses(inner),
        outer_stretch.encloses(inner_stretch),
    ensures
        slab_narrow(outer_stretch, outer, origin, direction).encloses(
            slab_narrow(inner_stretch, inner, origin, direction),
        ),
{
    let a0 = inner.start.minus(origin);
    let a1 = inner.end.minus(origin);
    let b0 = outer.start.minus(origin);
    let b1 = outer.end.minus(origin);
    lemma_minus_monotone(outer.start, inner.start, origin);
    lemma_minus_monotone(inner.start, inner.end, origin);
    lemma_minus_monotone(inner.end, outer.end, origin);
    lemma_div_monotone(b0, a0, direction);
    lemma_div_monotone(a0, a1, direction);
    lemma_div_monotone(a1, b1, direction);
}

/// A ray that passes through a box within a stretch passes through every
/// box that encloses it, within every stretch that encloses the stretch.
pub proof fn lemma_hit_monotone(
    inner: Aabb,
    outer: Aabb,
    ray: Ray,
    inner_stretch: Interval,
    outer_stretch: Interval,
)
    requires
        inner.is_ordered(),
        outer.encloses(inner),
        outer_stretch.encloses(inner_stretch),
        inner.spec_hit(ray, inner_stretch),
    ensures
        outer.spec_hit(ray, outer_stretch),
{
    lemma_slab_narrow_monotone(
        inner_stretch,
        outer_stretch,
        inner.x,
        outer.x,
        ray.origin.x,
        ray.direction.x,
    );
    lemma_slab_narrow_monotone(
        inner.after_x(ray, inner_stretch),
        outer.after_x(ray, outer_stretch),
        inner.y,
        outer.y,
        ray.origin.y,
        ray.direction.y,
    );
    lemma_slab_narrow_monotone(
        inner.after_y(ray, inner_stretch),
        outer.after_y(ray, outer_stretch),
        inner.z,
        outer.z,
        ray.origin.z,
        ray.direction.z,
    );
}

} // verus!
