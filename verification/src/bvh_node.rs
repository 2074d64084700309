//! A bounding volume hierarchy: a binary tree of boxes over a list of
//! objects, which lets a ray skip every subtree whose box it misses.
//!
//! The tree is built by median split. A list of fewer than
//! [`LEAF_THRESHOLD`] objects is kept as a plain list. A longer one is
//! ordered along the longest axis of its box and cut in the middle, and
//! each half is built in the same way. A split by surface area would
//! give better trees for scenes whose objects differ much in size; the
//! median split is simpler and is good enough for objects spread evenly.
//!
//! Traversal finds the same hit as asking every object in turn
//! ([`lemma_traversal_is_scan`], [`lemma_traversal_finds_closest`]),
//! provided the box of each object lets through the rays that hit the
//! object ([`box_admits`]). A ray that only just touches an object can
//! miss the object's box; such a hit is lost in the tree.
use crate::aabb::{lemma_hit_monotone, Aabb};
use crate::hittable::{Closest, HitRecord, Hittable};
use crate::hittable_list::{
    lemma_scan_any_order, lemma_scan_concat, lemma_scan_in_interval, lemma_scan_is_closest, reach,
    same_distance, scan_hit, union_of_boxes, HittableList,
};
use crate::interval::Interval;
use crate::ray::Ray;
use crate::scalar::Scalar;
use std::cmp::Ordering;
use vstd::prelude::*;

verus! {

/// Lists shorter than this are not split into subtrees.
pub const LEAF_THRESHOLD: usize = 32;

/// Where the box of `object` starts along `axis`.
pub open spec fn start_along<T: Hittable>(object: T, axis: usize) -> int {
    object.bbox_spec().spec_axis(axis).start.raw as int
}

/// Whether no object starts, along `axis`, before one that stands earlier
/// in the sequence.
pub open spec fn sorted_along<T: Hittable>(objects: Seq<T>, axis: usize) -> bool {
    forall|i: int, j: int|
        0 <= i < j < objects.len() ==> start_along(objects[i], axis) <= start_along(
            objects[j],
            axis,
        )
}

/// The objects whose boxes start at `key` along `axis`, in the order in
/// which `objects` holds them.
pub open spec fn starting_at<T: Hittable>(objects: Seq<T>, axis: usize, key: int) -> Seq<T> {
    objects.filter(|o: T| start_along(o, axis) == key)
}

/// Whether `sorted` holds the objects of `objects` ordered by where their
/// boxes start along `axis`, with objects that start at the same place
/// left in the order they had.
pub open spec fn is_stable_sort<T: Hittable>(sorted: Seq<T>, objects: Seq<T>, axis: usize) -> bool {
    &&& sorted_along(sorted, axis)
    &&& sorted.to_multiset() == objects.to_multiset()
    &&& forall|key: int| #[trigger] starting_at(sorted, axis, key) == starting_at(objects, axis, key)
}

/// How the boxes of `a` and `b` are ordered by their start along `axis`.
fn order_along<T: Hittable>(a: &T, b: &T, axis: usize) -> (r: Ordering)
    ensures
        (r == Ordering::Less) == (start_along(*a, axis) < start_along(*b, axis)),
        (r == Ordering::Equal) == (start_along(*a, axis) == start_along(*b, axis)),
        (r == Ordering::Greater) == (start_along(*a, axis) > start_along(*b, axis)),
{
    let start_a = a.bounding_box().axis(axis).start.raw;
    let start_b = b.bounding_box().axis(axis).start.raw;
    if start_a < start_b {
        Ordering::Less
    } else if start_a > start_b {
        Ordering::Greater
    } else {
        Ordering::Equal
    }
}

/// Sorts `objects` by the start of their boxes along `axis`, with the
/// standard library's `sort_by` for slices. That sort is stable: it puts
/// the elements in the order the comparison gives and does not reorder
/// elements that compare equal.
#[verifier::external_body]
fn sort_along<T: Hittable>(objects: &mut Vec<T>, axis: usize)
    ensures
        is_stable_sort(final(objects)@, old(objects)@, axis),
{
    objects.sort_by(|a, b| order_along(a, b, axis));
}

/// One side of a node: a plain list, or a subtree.
pub enum BvhChild<T: Hittable> {
    Leaf(HittableList<T>),
    Node(Box<BvhNode<T>>),
}

/// A node of the hierarchy. Its box is the union of the boxes of its two
/// sides.
pub struct BvhNode<T: Hittable> {
    pub left: BvhChild<T>,
    pub right: BvhChild<T>,
    pub bbox: Aabb,
}

/// Of the hits of the two sides, the one with the smaller parameter; the
/// left one if they are equal.
pub open spec fn nearer(left: Option<HitRecord>, right: Option<HitRecord>) -> Option<HitRecord> {
    match (left, right) {
        (None, None) => None,
        (Some(_), None) => left,
        (None, Some(_)) => right,
        (Some(hl), Some(hr)) => if hl.t.raw <= hr.t.raw {
            left
        } else {
            right
        },
    }
}

impl<T: Hittable> BvhChild<T> {
    /// What a traversal of this side finds.
    pub open spec fn hits(&self, ray: Ray, interval: Interval) -> Option<HitRecord>
        decreases self,
    {
        match self {
            BvhChild::Leaf(list) => scan_hit(list.objects@, ray, interval),
            BvhChild::Node(node) => node.hits(ray, interval),
        }
    }

    /// The box of this side.
    pub open spec fn kept_box(&self) -> Aabb {
        match self {
            BvhChild::Leaf(list) => list.bbox,
            BvhChild::Node(node) => node.bbox,
        }
    }

    /// The objects of this side, from left to right.
    pub open spec fn flatten(&self) -> Seq<T>
        decreases self,
    {
        match self {
            BvhChild::Leaf(list) => list.objects@,
            BvhChild::Node(node) => node.flatten(),
        }
    }

    /// Every box in this side is the union of what lies under it.
    pub open spec fn wf(&self) -> bool
        decreases self,
    {
        match self {
            BvhChild::Leaf(list) => list.wf(),
            BvhChild::Node(node) => node.wf(),
        }
    }

    fn hit(&self, ray: &Ray, interval: Interval) -> (r: Option<HitRecord>)
        ensures
            r == self.hits(*ray, interval),
        decreases self,
    {
        match self {
            BvhChild::Leaf(list) => list.hit(ray, interval),
            BvhChild::Node(node) => node.hit(ray, interval),
        }
    }

    fn bounding_box(&self) -> (r: &Aabb)
        ensures
            *r == self.kept_box(),
    {
        match self {
            BvhChild::Leaf(list) => list.bounding_box(),
            BvhChild::Node(node) => node.bounding_box(),
        }
    }
}

impl<T: Hittable> BvhNode<T> {
    /// What a traversal of this node finds: nothing if the ray misses the
    /// node's box within the interval; otherwise the left side is asked
    /// over the whole interval, the right side over the interval cut at
    /// the left side's hit, and the nearer of the two answers is taken.
    pub open spec fn hits(&self, ray: Ray, interval: Interval) -> Option<HitRecord>
        decreases self,
    {
        if !self.bbox.spec_hit(ray, interval) {
            None
        } else {
            let hit_left = self.left.hits(ray, interval);
            let hit_right = self.right.hits(ray, interval.spec_until(reach(hit_left, interval)));
            nearer(hit_left, hit_right)
        }
    }

    /// The objects under this node, from left to right.
    pub open spec fn flatten(&self) -> Seq<T>
        decreases self,
    {
        self.left.flatten() + self.right.flatten()
    }

    /// Every box in the tree is the union of what lies under it.
    pub open spec fn wf(&self) -> bool
        decreases self,
    {
        &&& self.bbox == Aabb::spec_union(self.left.kept_box(), self.right.kept_box())
        &&& self.left.wf()
        &&& self.right.wf()
    }
}

impl<T: Hittable> BvhChild<T> {
    /// Whether this side is what construction gives for `objects`: the
    /// plain list of them if they are fewer than [`LEAF_THRESHOLD`], and
    /// the subtree that splits them otherwise.
    pub open spec fn is_built_from(&self, objects: Seq<T>) -> bool
        decreases self,
    {
        if objects.len() < LEAF_THRESHOLD {
            self matches BvhChild::Leaf(list) && list.objects@ == objects && list.wf()
        } else {
            self matches BvhChild::Node(node) && node.splits(objects)
        }
    }
}

impl<T: Hittable> BvhNode<T> {
    /// Whether this node splits `objects`: they are sorted along the
    /// longest axis of their common box and cut in the middle, the left
    /// side is built from the first half and the right side from the
    /// second, and the box of the node is the union of the boxes of its
    /// sides.
    pub open spec fn splits(&self, objects: Seq<T>) -> bool
        decreases self,
    {
        exists|sorted: Seq<T>|
            {
                let mid = (sorted.len() / 2) as int;
                &&& #[trigger] is_stable_sort(
                    sorted,
                    objects,
                    union_of_boxes(objects).spec_longest_axis(),
                )
                &&& self.left.is_built_from(sorted.subrange(0, mid))
                &&& self.right.is_built_from(sorted.subrange(mid, sorted.len() as int))
                &&& self.bbox == Aabb::spec_union(self.left.kept_box(), self.right.kept_box())
            }
    }

    /// Whether this tree is the one that construction gives for
    /// `objects`. Fewer than [`LEAF_THRESHOLD`] objects are kept as they
    /// are, as one plain list on the left with nothing on the right; more
    /// are split.
    pub open spec fn is_built_from(&self, objects: Seq<T>) -> bool {
        if objects.len() < LEAF_THRESHOLD {
            &&& self.left matches BvhChild::Leaf(l) && l.objects@ == objects && l.wf()
            &&& self.right matches BvhChild::Leaf(r) && r.objects@.len() == 0 && r.wf()
            &&& self.bbox == Aabb::spec_union(self.left.kept_box(), self.right.kept_box())
        } else {
            self.splits(objects)
        }
    }

    /// Builds the hierarchy over the objects of `list`. The tree holds
    /// every object of the list exactly once, and each of its boxes is
    /// the union of the boxes under it. The box of `list` is not relied
    /// on: it is computed afresh.
    pub fn new(list: HittableList<T>) -> (node: Self)
        ensures
            node.is_built_from(list.objects@),
            node.wf(),
            node.flatten().to_multiset() == list.objects@.to_multiset(),
    {
        let list = HittableList::from_objects(list.objects);
        if list.objects.len() < LEAF_THRESHOLD {
            let nothing: HittableList<T> = HittableList::new();
            let bbox = Aabb::from_boxes(list.bbox, &nothing.bbox);
            proof {
                assert(list.objects@ + nothing.objects@ == list.objects@);
            }
            BvhNode { left: BvhChild::Leaf(list), right: BvhChild::Leaf(nothing), bbox }
        } else {
            Self::split(list)
        }
    }

    /// Sorts the objects of `list` along the longest axis of its box,
    /// cuts them in the middle and builds each side from its half.
    fn split(list: HittableList<T>) -> (node: Self)
        requires
            list.wf(),
            list.objects@.len() >= LEAF_THRESHOLD,
        ensures
            node.splits(list.objects@),
            node.wf(),
            node.flatten().to_multiset() == list.objects@.to_multiset(),
        decreases list.objects@.len(), 0nat,
    {
        let sort_axis = list.bounding_box().longest_axis();
        let ghost unsorted = list.objects@;
        let mut objects = list.objects;
        sort_along(&mut objects, sort_axis);
        let ghost sorted = objects@;
        let len = objects.len();
        let mid = len / 2;
        let second = objects.split_off(mid);
        proof {
            sorted.to_multiset_ensures();
            unsorted.to_multiset_ensures();
            assert(objects@ + second@ == sorted);
        }
        let ghost first_half = objects@;
        let ghost second_half = second@;
        let left = Self::child(HittableList::from_objects(objects));
        let right = Self::child(HittableList::from_objects(second));
        let bbox = Aabb::from_boxes(*left.bounding_box(), right.bounding_box());
        proof {
            vstd::seq_lib::lemma_multiset_commutative(first_half, second_half);
            vstd::seq_lib::lemma_multiset_commutative(left.flatten(), right.flatten());
            assert(is_stable_sort(sorted, unsorted, sort_axis));
        }
        BvhNode { left, right, bbox }
    }

    /// One side of a node: the list itself if it is short, and the
    /// subtree that splits it otherwise.
    fn child(list: HittableList<T>) -> (side: BvhChild<T>)
        requires
            list.wf(),
        ensures
            side.is_built_from(list.objects@),
            side.wf(),
            side.flatten().to_multiset() == list.objects@.to_multiset(),
        decreases list.objects@.len(), 1nat,
    {
        if list.objects.len() < LEAF_THRESHOLD {
            BvhChild::Leaf(list)
        } else {
            BvhChild::Node(Box::new(Self::split(list)))
        }
    }
}

impl<T: Hittable> Hittable for BvhNode<T> {
    open spec fn hit_spec(&self, ray: Ray, interval: Interval) -> Option<HitRecord> {
        self.hits(ray, interval)
    }

    open spec fn bbox_spec(&self) -> Aabb {
        self.bbox
    }

    fn hit(&self, ray: &Ray, interval: Interval) -> (r: Option<HitRecord>)
        decreases self,
    {
        if !self.bbox.hit(ray, interval) {
            return None;
        }
        let hit_left = self.left.hit(ray, interval);
        let right_interval = if let Some(hl) = hit_left {
            interval.until(hl.t)
        } else {
            interval
        };
        let hit_right = self.right.hit(ray, right_interval);

        match (hit_left, hit_right) {
            (None, None) => None,
            (Some(_), None) => hit_left,
            (None, Some(_)) => hit_right,
            (Some(hl), Some(hr)) => {
                if hl.t.raw <= hr.t.raw {
                    hit_left
                } else {
                    hit_right
                }
            },
        }
    }

    fn bounding_box(&self) -> (r: &Aabb) {
        &self.bbox
    }
}

/// Whether the box of `object` lets through every hit of `ray` with the
/// object itself: whenever the object is hit within `interval`, or within
/// `interval` cut short, the ray also passes through its box there.
pub open spec fn box_admits<T: Hittable>(object: T, ray: Ray, interval: Interval) -> bool {
    forall|end: Scalar|
        end.raw <= interval.end.raw && (#[trigger] object.hit_spec(
            ray,
            interval.spec_until(end),
        )) is Some ==> object.bbox_spec().is_ordered() && object.bbox_spec().spec_hit(
            ray,
            interval.spec_until(end),
        )
}

/// Whether [`box_admits`] holds of each of `objects`.
pub open spec fn boxes_admit<T: Hittable>(objects: Seq<T>, ray: Ray, interval: Interval) -> bool {
    forall|i: int| 0 <= i < objects.len() ==> box_admits(#[trigger] objects[i], ray, interval)
}

/// The union of the boxes of a list encloses the box of each member.
pub proof fn lemma_union_of_boxes_encloses<T: Hittable>(objects: Seq<T>, i: int)
    requires
        0 <= i < objects.len(),
    ensures
        union_of_boxes(objects).encloses(objects[i].bbox_spec()),
    decreases objects.len(),
{
    if i < objects.len() - 1 {
        lemma_union_of_boxes_encloses(objects.drop_last(), i);
    }
}

/// The box of one side of a well-formed tree encloses the box of each
/// object of that side.
pub proof fn lemma_child_box_encloses<T: Hittable>(child: &BvhChild<T>, i: int)
    requires
        child.wf(),
        0 <= i < child.flatten().len(),
    ensures
        child.kept_box().encloses(child.flatten()[i].bbox_spec()),
    decreases child,
{
    match child {
        BvhChild::Leaf(list) => {
            lemma_union_of_boxes_encloses(list.objects@, i);
        },
        BvhChild::Node(node) => {
            lemma_node_box_encloses(node, i);
        },
    }
}

/// The box of a well-formed tree encloses the box of each of its objects.
pub proof fn lemma_node_box_encloses<T: Hittable>(node: &BvhNode<T>, i: int)
    requires
        node.wf(),
        0 <= i < node.flatten().len(),
    ensures
        node.bbox.encloses(node.flatten()[i].bbox_spec()),
    decreases node,
{
    let left = node.left.flatten();
    if i < left.len() {
        lemma_child_box_encloses(&node.left, i);
    } else {
        lemma_child_box_encloses(&node.right, i - left.len());
    }
}

/// A scan over objects none of which is hit finds nothing.
pub proof fn lemma_scan_of_misses<T: Hittable>(objects: Seq<T>, ray: Ray, interval: Interval)
    requires
        forall|i: int|
            0 <= i < objects.len() ==> (#[trigger] objects[i]).hit_spec(ray, interval) is None,
    ensures
        scan_hit(objects, ray, interval) is None,
    decreases objects.len(),
{
    if objects.len() > 0 {
        let rest = objects.drop_last();
        assert forall|i: int| 0 <= i < rest.len() implies (#[trigger] rest[i]).hit_spec(
            ray,
            interval,
        ) is None by {
            assert(rest[i] == objects[i]);
        }
        lemma_scan_of_misses(rest, ray, interval);
        assert(interval.spec_until(interval.end) == interval);
    }
}

/// A ray that misses the box of a well-formed tree hits none of the
/// objects whose boxes admit their hits.
pub proof fn lemma_pruned_objects_miss<T: Hittable>(node: &BvhNode<T>, ray: Ray, interval: Interval)
    requires
        node.wf(),
        boxes_admit(node.flatten(), ray, interval),
        !node.bbox.spec_hit(ray, interval),
    ensures
        forall|i: int|
            0 <= i < node.flatten().len() ==> (#[trigger] node.flatten()[i]).hit_spec(
                ray,
                interval,
            ) is None,
{
    let objects = node.flatten();
    assert forall|i: int| 0 <= i < objects.len() implies (#[trigger] objects[i]).hit_spec(
        ray,
        interval,
    ) is None by {
        assert(interval.spec_until(interval.end) == interval);
        if objects[i].hit_spec(ray, interval) is Some {
            assert(box_admits(objects[i], ray, interval));
            lemma_node_box_encloses(node, i);
            lemma_hit_monotone(
                objects[i].bbox_spec(),
                node.bbox,
                ray,
                interval,
                interval,
            );
        }
    }
}

/// Boxes that admit the hits within an interval admit those within the
/// interval cut short.
pub proof fn lemma_boxes_admit_shortened<T: Hittable>(
    objects: Seq<T>,
    ray: Ray,
    interval: Interval,
    end: Scalar,
)
    requires
        boxes_admit(objects, ray, interval),
        end.raw <= interval.end.raw,
    ensures
        boxes_admit(objects, ray, interval.spec_until(end)),
{
    let cut = interval.spec_until(end);
    assert forall|i: int| 0 <= i < objects.len() implies box_admits(
        #[trigger] objects[i],
        ray,
        cut,
    ) by {
        assert(box_admits(objects[i], ray, interval));
        assert forall|e: Scalar|
            e.raw <= cut.end.raw && (#[trigger] objects[i].hit_spec(
                ray,
                cut.spec_until(e),
            )) is Some implies objects[i].bbox_spec().is_ordered() && objects[i].bbox_spec().spec_hit(
            ray,
            cut.spec_until(e),
        ) by {
            assert(cut.spec_until(e) == interval.spec_until(e));
        }
    }
}

/// Traversal of one side of the tree finds exactly what a scan of its
/// objects finds.
pub proof fn lemma_child_traversal_is_scan<T: Closest>(
    child: &BvhChild<T>,
    ray: Ray,
    interval: Interval,
)
    requires
        child.wf(),
        boxes_admit(child.flatten(), ray, interval),
    ensures
        child.hits(ray, interval) == scan_hit(child.flatten(), ray, interval),
    decreases child,
{
    match child {
        BvhChild::Leaf(list) => {},
        BvhChild::Node(node) => {
            lemma_traversal_is_scan(node, ray, interval);
        },
    }
}

/// Traversal of the hierarchy finds exactly the hit that asking every
/// object in turn finds, for every ray and interval for which the box of
/// each object admits the object's hits. The objects are taken in the
/// order in which the tree holds them, from left to right.
pub proof fn lemma_traversal_is_scan<T: Closest>(node: &BvhNode<T>, ray: Ray, interval: Interval)
    requires
        node.wf(),
        boxes_admit(node.flatten(), ray, interval),
    ensures
        node.hits(ray, interval) == scan_hit(node.flatten(), ray, interval),
    decreases node,
{
    let left = node.left.flatten();
    let right = node.right.flatten();
    if !node.bbox.spec_hit(ray, interval) {
        lemma_pruned_objects_miss(node, ray, interval);
        lemma_scan_of_misses(node.flatten(), ray, interval);
    } else {
        assert forall|i: int| 0 <= i < left.len() implies box_admits(
            #[trigger] left[i],
            ray,
            interval,
        ) by {
            assert(left[i] == node.flatten()[i]);
        }
        assert forall|i: int| 0 <= i < right.len() implies box_admits(
            #[trigger] right[i],
            ray,
            interval,
        ) by {
            assert(right[i] == node.flatten()[left.len() + i]);
        }
        lemma_child_traversal_is_scan(&node.left, ray, interval);
        let hit_left = scan_hit(left, ray, interval);
        lemma_scan_in_interval(left, ray, interval);
        let cut = interval.spec_until(reach(hit_left, interval));
        lemma_boxes_admit_shortened(right, ray, interval, reach(hit_left, interval));
        lemma_child_traversal_is_scan(&node.right, ray, cut);
        lemma_scan_in_interval(right, ray, cut);
        lemma_scan_concat(left, right, ray, interval);
    }
}

/// Traversal of a hierarchy over `objects` finds a hit exactly when asking
/// every one of `objects` in turn finds one, and then both hits lie
/// equally far along the ray. This holds for every ray and interval for
/// which the box of each object admits the object's hits.
pub proof fn lemma_traversal_finds_closest<T: Closest>(
    node: &BvhNode<T>,
    objects: Seq<T>,
    ray: Ray,
    interval: Interval,
)
    requires
        node.wf(),
        node.flatten().to_multiset() == objects.to_multiset(),
        boxes_admit(objects, ray, interval),
    ensures
        same_distance(node.hits(ray, interval), scan_hit(objects, ray, interval)),
{
    let held = node.flatten();
    assert forall|i: int| 0 <= i < held.len() implies box_admits(
        #[trigger] held[i],
        ray,
        interval,
    ) by {
        assert(held.contains(held[i]));
        vstd::seq_lib::to_multiset_contains(held, held[i]);
        vstd::seq_lib::to_multiset_contains(objects, held[i]);
        let j = choose|j: int| 0 <= j < objects.len() && objects[j] == held[i];
        assert(box_admits(objects[j], ray, interval));
    }
    lemma_traversal_is_scan(node, ray, interval);
    lemma_scan_any_order(held, objects, ray, interval);
}

/// One side of a tree that holds no object is never hit.
pub proof fn lemma_empty_child_is_missed<T: Hittable>(
    child: &BvhChild<T>,
    ray: Ray,
    interval: Interval,
)
    requires
        child.flatten().len() == 0,
    ensures
        child.hits(ray, interval) is None,
    decreases child,
{
    match child {
        BvhChild::Leaf(list) => {},
        BvhChild::Node(node) => {
            lemma_empty_tree_is_missed(node, ray, interval);
        },
    }
}

/// A tree that holds no object is never hit.
pub proof fn lemma_empty_tree_is_missed<T: Hittable>(node: &BvhNode<T>, ray: Ray, interval: Interval)
    requires
        node.flatten().len() == 0,
    ensures
        node.hits(ray, interval) is None,
    decreases node,
{
    lemma_empty_child_is_missed(&node.left, ray, interval);
    lemma_empty_child_is_missed(
        &node.right,
        ray,
        interval.spec_until(reach(node.left.hits(ray, interval), interval)),
    );
}

/// If the box of every member of a well-formed list admits the member's
/// hits, the box of the list admits the hits of the list. So a list can
/// itself be kept in a hierarchy.
pub proof fn lemma_list_box_admits<T: Closest>(list: &HittableList<T>, ray: Ray, interval: Interval)
    requires
        list.wf(),
        boxes_admit(list.objects@, ray, interval),
    ensures
        box_admits(*list, ray, interval),
{
    let objects = list.objects@;
    assert forall|end: Scalar|
        end.raw <= interval.end.raw && (#[trigger] list.hit_spec(
            ray,
            interval.spec_until(end),
        )) is Some implies list.bbox_spec().is_ordered() && list.bbox_spec().spec_hit(
        ray,
        interval.spec_until(end),
    ) by {
        let cut = interval.spec_until(end);
        let h = list.hit_spec(ray, cut)->Some_0;
        lemma_scan_is_closest(objects, ray, cut);
        let i = choose|i: int|
            0 <= i < objects.len() && (#[trigger] objects[i]).hit_spec(ray, cut) == Some(h);
        assert(box_admits(objects[i], ray, interval));
        lemma_union_of_boxes_encloses(objects, i);
        lemma_hit_monotone(objects[i].bbox_spec(), list.bbox, ray, cut, cut);
    }
}

/// One side that construction gives for `objects` is well formed and
/// holds exactly those objects.
pub proof fn lemma_built_child_holds<T: Hittable>(side: &BvhChild<T>, objects: Seq<T>)
    requires
        side.is_built_from(objects),
    ensures
        side.wf(),
        side.flatten().to_multiset() == objects.to_multiset(),
    decreases side,
{
    match side {
        BvhChild::Leaf(list) => {},
        BvhChild::Node(node) => {
            lemma_split_holds(node, objects);
        },
    }
}

/// A node that splits `objects` is well formed and holds exactly those
/// objects.
pub proof fn lemma_split_holds<T: Hittable>(node: &BvhNode<T>, objects: Seq<T>)
    requires
        node.splits(objects),
    ensures
        node.wf(),
        node.flatten().to_multiset() == objects.to_multiset(),
    decreases node,
{
    let axis = union_of_boxes(objects).spec_longest_axis();
    let sorted = choose|sorted: Seq<T>|
        {
            let mid = (sorted.len() / 2) as int;
            &&& #[trigger] is_stable_sort(sorted, objects, axis)
            &&& node.left.is_built_from(sorted.subrange(0, mid))
            &&& node.right.is_built_from(sorted.subrange(mid, sorted.len() as int))
            &&& node.bbox == Aabb::spec_union(node.left.kept_box(), node.right.kept_box())
        };
    let mid = (sorted.len() / 2) as int;
    let first = sorted.subrange(0, mid);
    let second = sorted.subrange(mid, sorted.len() as int);
    lemma_built_child_holds(&node.left, first);
    lemma_built_child_holds(&node.right, second);
    assert(first + second == sorted);
    vstd::seq_lib::lemma_multiset_commutative(first, second);
    vstd::seq_lib::lemma_multiset_commutative(node.left.flatten(), node.right.flatten());
}

/// The tree that construction gives for `objects` is well formed and
/// holds exactly those objects.
pub proof fn lemma_built_tree_holds<T: Hittable>(node: &BvhNode<T>, objects: Seq<T>)
    requires
        node.is_built_from(objects),
    ensures
        node.wf(),
        node.flatten().to_multiset() == objects.to_multiset(),
{
    if objects.len() < LEAF_THRESHOLD {
        assert(node.flatten() == objects);
    } else {
        lemma_split_holds(node, objects);
    }
}

/// Traversal of the hierarchy built from `objects` finds a hit exactly
/// when asking every one of `objects` in turn finds one, and then both
/// hits lie equally far along the ray. This holds for every ray and
/// interval for which the box of each object admits the object's hits.
pub proof fn lemma_built_tree_finds_closest<T: Closest>(
    node: &BvhNode<T>,
    objects: Seq<T>,
    ray: Ray,
    interval: Interval,
)
    requires
        node.is_built_from(objects),
        boxes_admit(objects, ray, interval),
    ensures
        same_distance(node.hits(ray, interval), scan_hit(objects, ray, interval)),
{
    lemma_built_tree_holds(node, objects);
    lemma_traversal_finds_closest(node, objects, ray, interval);
}

} // verus!
