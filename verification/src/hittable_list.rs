//! A list of objects that is itself something a ray can hit.
use crate::aabb::Aabb;
use crate::hittable::{closer_than, Closest, HitRecord, Hittable};
use crate::interval::Interval;
use crate::ray::Ray;
use crate::scalar::Scalar;
use vstd::prelude::*;

verus! {

/// Objects in the order they were added, and the union of their boxes.
#[derive(Debug)]
pub struct HittableList<T: Hittable> {
    pub objects: Vec<T>,
    pub bbox: Aabb,
}

/// The union of the boxes of `objects`, starting from the empty box.
pub open spec fn union_of_boxes<T: Hittable>(objects: Seq<T>) -> Aabb
    decreases objects.len(),
{
    if objects.len() == 0 {
        Aabb::spec_empty()
    } else {
        Aabb::spec_union(union_of_boxes(objects.drop_last()), objects.last().bbox_spec())
    }
}

/// How far a search still has to look: up to the hit found so far, or to
/// the end of the interval if there is none.
pub open spec fn reach(found: Option<HitRecord>, interval: Interval) -> Scalar {
    match found {
        Some(h) => h.t,
        None => interval.end,
    }
}

/// The closest hit among `objects`, found by asking one after another.
/// Each object is asked for a hit between the start of the interval and
/// the closest hit found before it, so a later object replaces an earlier
/// one only with a hit that is strictly closer.
pub open spec fn scan_hit<T: Hittable>(objects: Seq<T>, ray: Ray, interval: Interval) -> Option<
    HitRecord,
>
    decreases objects.len(),
{
    if objects.len() == 0 {
        None
    } else {
        let found = scan_hit(objects.drop_last(), ray, interval);
        match objects.last().hit_spec(ray, interval.spec_until(reach(found, interval))) {
            Some(h) => Some(h),
            None => found,
        }
    }
}

impl<T: Hittable> HittableList<T> {
    /// The kept box is the union of the boxes of the members.
    pub open spec fn wf(&self) -> bool {
        self.bbox == union_of_boxes(self.objects@)
    }

    /// An empty list, with the empty box.
    pub fn new() -> (list: Self)
        ensures
            list.objects@ == Seq::<T>::empty(),
            list.bbox == Aabb::spec_empty(),
            list.wf(),
    {
        HittableList { objects: Vec::new(), bbox: Aabb::empty() }
    }

    /// The list of the given objects, in their order.
    pub fn from_objects(objects: Vec<T>) -> (list: Self)
        ensures
            list.objects@ == objects@,
            list.wf(),
    {
        let mut bbox = Aabb::empty();
        let mut i: usize = 0;
        while i < objects.len()
            invariant
                i <= objects@.len(),
                bbox == union_of_boxes(objects@.subrange(0, i as int)),
            decreases objects@.len() - i,
        {
            proof {
                assert(objects@.subrange(0, i + 1).drop_last() == objects@.subrange(0, i as int));
            }
            bbox = Aabb::from_boxes(bbox, objects[i].bounding_box());
            i += 1;
        }
        proof {
            assert(objects@.subrange(0, i as int) == objects@);
        }
        HittableList { objects, bbox }
    }

    /// Appends `object` and widens the box by the object's box.
    pub fn add(&mut self, object: T)
        ensures
            final(self).objects@ == old(self).objects@.push(object),
            final(self).bbox == Aabb::spec_union(old(self).bbox, object.bbox_spec()),
            old(self).wf() ==> final(self).wf(),
    {
        let object_box = *object.bounding_box();
        self.bbox = Aabb::from_boxes(self.bbox, &object_box);
        self.objects.push(object);
        proof {
            assert(self.objects@.drop_last() == old(self).objects@);
        }
    }
}

impl<T: Hittable> Hittable for HittableList<T> {
    open spec fn hit_spec(&self, ray: Ray, interval: Interval) -> Option<HitRecord> {
        scan_hit(self.objects@, ray, interval)
    }

    open spec fn bbox_spec(&self) -> Aabb {
        self.bbox
    }

    fn hit(&self, ray: &Ray, interval: Interval) -> (r: Option<HitRecord>) {
        let mut found: Option<HitRecord> = None;
        let mut max = interval.end;
        let mut i: usize = 0;
        while i < self.objects.len()
            invariant
                i <= self.objects@.len(),
                found == scan_hit(self.objects@.subrange(0, i as int), *ray, interval),
                max == reach(found, interval),
            decreases self.objects@.len() - i,
        {
            proof {
                assert(self.objects@.subrange(0, i + 1).drop_last() == self.objects@.subrange(
                    0,
                    i as int,
                ));
            }
            if let Some(hit_rec) = self.objects[i].hit(ray, interval.until(max)) {
                max = hit_rec.t;
                found = Some(hit_rec);
            }
            i += 1;
        }
        proof {
            assert(self.objects@.subrange(0, i as int) == self.objects@);
        }
        found
    }

    fn bounding_box(&self) -> (r: &Aabb) {
        &self.bbox
    }
}

impl<T: Hittable> Default for HittableList<T> {
    fn default() -> (list: Self)
        ensures
            list.objects@ == Seq::<T>::empty(),
            list.bbox == Aabb::spec_empty(),
    {
        Self::new()
    }
}

/// A hit found by a scan lies inside the interval.
pub proof fn lemma_scan_in_interval<T: Closest>(objects: Seq<T>, ray: Ray, interval: Interval)
    ensures
        scan_hit(objects, ray, interval) matches Some(h) ==> interval.spec_contains(h.t),
    decreases objects.len(),
{
    if objects.len() > 0 {
        let found = scan_hit(objects.drop_last(), ray, interval);
        lemma_scan_in_interval(objects.drop_last(), ray, interval);
        objects.last().lemma_hit_in_interval(ray, interval.spec_until(reach(found, interval)));
    }
}

/// A scan of an interval cut at `end` finds what the scan of the whole
/// interval finds, provided that lies before `end`.
pub proof fn lemma_scan_shortened<T: Closest>(
    objects: Seq<T>,
    ray: Ray,
    interval: Interval,
    end: Scalar,
)
    requires
        end.raw <= interval.end.raw,
    ensures
        scan_hit(objects, ray, interval.spec_until(end)) == closer_than(
            scan_hit(objects, ray, interval),
            end,
        ),
    decreases objects.len(),
{
    if objects.len() > 0 {
        let rest = objects.drop_last();
        let found = scan_hit(rest, ray, interval);
        let cut = interval.spec_until(end);
        let found_cut = scan_hit(rest, ray, cut);
        lemma_scan_shortened(rest, ray, interval, end);
        lemma_scan_in_interval(rest, ray, interval);
        let whole = interval.spec_until(reach(found, interval));
        objects.last().lemma_hit_in_interval(ray, whole);
        objects.last().lemma_hit_shortened(ray, whole, reach(found_cut, cut));
        assert(whole.spec_until(reach(found_cut, cut)) == cut.spec_until(reach(found_cut, cut)));
    }
}

/// Scanning two lists one after the other: the second list is asked only
/// for hits closer than the one the first list gave, and its answer, if
/// there is one, replaces that one.
pub proof fn lemma_scan_concat<T: Closest>(
    first: Seq<T>,
    second: Seq<T>,
    ray: Ray,
    interval: Interval,
)
    ensures
        scan_hit(first + second, ray, interval) == (match scan_hit(
            second,
            ray,
            interval.spec_until(reach(scan_hit(first, ray, interval), interval)),
        ) {
            Some(h) => Some(h),
            None => scan_hit(first, ray, interval),
        }),
    decreases second.len(),
{
    let found = scan_hit(first, ray, interval);
    let cut = interval.spec_until(reach(found, interval));
    if second.len() == 0 {
        assert(first + second == first);
    } else {
        let rest = second.drop_last();
        assert((first + second).drop_last() == first + rest);
        assert((first + second).last() == second.last());
        lemma_scan_concat(first, rest, ray, interval);
        lemma_scan_in_interval(first, ray, interval);
        lemma_scan_in_interval(rest, ray, cut);
        let inner = scan_hit(rest, ray, cut);
        let both = scan_hit(first + rest, ray, interval);
        assert(interval.spec_until(reach(both, interval)) == cut.spec_until(reach(inner, cut)));
    }
}

/// What a scan finds is the closest hit of all: if it finds nothing, no
/// object is hit within the interval; if it finds a hit, some object has
/// that hit within the interval, and no object has one with a smaller
/// parameter.
pub proof fn lemma_scan_is_closest<T: Closest>(objects: Seq<T>, ray: Ray, interval: Interval)
    ensures
        match scan_hit(objects, ray, interval) {
            None => forall|i: int|
                0 <= i < objects.len() ==> (#[trigger] objects[i]).hit_spec(ray, interval) is None,
            Some(h) => {
                &&& exists|i: int|
                    0 <= i < objects.len() && (#[trigger] objects[i]).hit_spec(ray, interval)
                        == Some(h)
                &&& forall|i: int|
                    0 <= i < objects.len() ==> ((#[trigger] objects[i]).hit_spec(
                        ray,
                        interval,
                    ) matches Some(other) ==> h.t.raw <= other.t.raw)
            },
        },
    decreases objects.len(),
{
    if objects.len() > 0 {
        let rest = objects.drop_last();
        let last = objects.last();
        let found = scan_hit(rest, ray, interval);
        lemma_scan_is_closest(rest, ray, interval);
        lemma_scan_in_interval(rest, ray, interval);
        last.lemma_hit_in_interval(ray, interval);
        last.lemma_hit_shortened(ray, interval, reach(found, interval));
        assert forall|i: int| 0 <= i < rest.len() implies rest[i] == objects[i] by {}
        match scan_hit(objects, ray, interval) {
            None => {},
            Some(h) => {
                if last.hit_spec(ray, interval.spec_until(reach(found, interval))) is Some {
                    assert(objects[objects.len() - 1].hit_spec(ray, interval) == Some(h));
                } else {
                    let i = choose|i: int|
                        0 <= i < rest.len() && (#[trigger] rest[i]).hit_spec(ray, interval)
                            == Some(h);
                    assert(objects[i].hit_spec(ray, interval) == Some(h));
                }
            },
        }
    }
}

/// Whether two searches agree on how far the closest hit lies: both find
/// nothing, or both find a hit with the same parameter.
pub open spec fn same_distance(a: Option<HitRecord>, b: Option<HitRecord>) -> bool {
    match (a, b) {
        (None, None) => true,
        (Some(x), Some(y)) => x.t == y.t,
        _ => false,
    }
}

/// The order in which the objects are asked does not change how far the
/// closest hit lies.
pub proof fn lemma_scan_any_order<T: Closest>(
    objects: Seq<T>,
    reordered: Seq<T>,
    ray: Ray,
    interval: Interval,
)
    requires
        objects.to_multiset() == reordered.to_multiset(),
    ensures
        same_distance(scan_hit(objects, ray, interval), scan_hit(reordered, ray, interval)),
{
    lemma_scan_is_closest(objects, ray, interval);
    lemma_scan_is_closest(reordered, ray, interval);
    let a = scan_hit(objects, ray, interval);
    let b = scan_hit(reordered, ray, interval);
    if let Some(h) = a {
        let i = choose|i: int|
            0 <= i < objects.len() && (#[trigger] objects[i]).hit_spec(ray, interval) == Some(h);
        assert(objects.contains(objects[i]));
        vstd::seq_lib::to_multiset_contains(objects, objects[i]);
        vstd::seq_lib::to_multiset_contains(reordered, objects[i]);
        let j = choose|j: int| 0 <= j < reordered.len() && reordered[j] == objects[i];
        assert(reordered[j].hit_spec(ray, interval) == Some(h));
    }
    if let Some(h) = b {
        let i = choose|i: int|
            0 <= i < reordered.len() && (#[trigger] reordered[i]).hit_spec(ray, interval)
                == Some(h);
        assert(reordered.contains(reordered[i]));
        vstd::seq_lib::to_multiset_contains(reordered, reordered[i]);
        vstd::seq_lib::to_multiset_contains(objects, reordered[i]);
        let j = choose|j: int| 0 <= j < objects.len() && objects[j] == reordered[i];
        assert(objects[j].hit_spec(ray, interval) == Some(h));
    }
}

impl<T: Closest> Closest for HittableList<T> {
    proof fn lemma_hit_in_interval(&self, ray: Ray, interval: Interval) {
        lemma_scan_in_interval(self.objects@, ray, interval);
    }

    proof fn lemma_hit_shortened(&self, ray: Ray, interval: Interval, end: Scalar) {
        lemma_scan_shortened(self.objects@, ray, interval, end);
    }
}

} // verus!
