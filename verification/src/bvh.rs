//! The bounding volume hierarchy: a binary tree over a run of surfaces that
//! answers as a scan of the run does, and skips what a box rules out.

use std::cmp::Ordering;
use vstd::prelude::*;
use vstd::seq_lib::lemma_multiset_commutative;
use crate::aabb::AABB;
use crate::hittable::{
    all_faithful, all_steady, bounds, faithful, lemma_steady, names_materials, steady, HitRecord,
    Hittable,
};
use crate::hittable_list::HittableList;
use crate::interval::Interval;
use crate::ray::Ray;
use crate::scalar::{is_nan, rank, INFINITY, NEG_INFINITY};
use crate::scan::{
    lemma_asked_twice, lemma_scan_is_faithful, lemma_scan_outcome_agrees, lemma_single,
    lemma_two_runs, nearer_than, replaced_by, scan_outcome,
};

verus! {

/// One side of a node: a surface, named by its index in the run, or a
/// subtree.
pub enum BVHChild {
    Leaf(usize),
    Branch(Box<BVHNode>),
}

/// A node over the surfaces `objects[low..high]` of a vector that the node
/// does not own. The node built over one surface names it on both sides.
pub struct BVHNode {
    pub left: BVHChild,
    pub right: BVHChild,
    pub bbox: AABB,
}

/// The number by which surfaces are ordered along `axis`: the lower end of the
/// surface's box on that axis. Codes are ordered as integers here, which
/// places every code, NaNs and the two zeros included.
pub open spec fn sort_key<T: Hittable>(object: T, axis: i32) -> i64 {
    bounds(object).axis(axis as int).min
}

/// `objects[start..end]`.
pub open spec fn run<T>(objects: Seq<T>, start: usize, end: usize) -> Seq<T> {
    objects.subrange(start as int, end as int)
}

/// Every surface of `objects[start..end]` always gives the same box.
pub open spec fn steady_run<T: Hittable>(objects: Seq<T>, start: usize, end: usize) -> bool {
    all_steady(objects, start as int, end as int)
}

/// `m` is the lowest of the lower ends on `axis` of the boxes of
/// `objects[start..end]`, NaNs set aside, or positive infinity where that
/// leaves nothing lower.
pub open spec fn is_floor<T: Hittable>(
    m: i64,
    objects: Seq<T>,
    start: int,
    end: int,
    axis: int,
) -> bool {
    &&& !is_nan(m)
    &&& m == INFINITY || exists|j: int|
        start <= j < end && bounds(#[trigger] objects[j]).axis(axis).min == m
    &&& forall|j: int|
        start <= j < end ==> is_nan(bounds(#[trigger] objects[j]).axis(axis).min) || m
            <= bounds(objects[j]).axis(axis).min
}

/// `m` is the highest of the upper ends on `axis` of the boxes of
/// `objects[start..end]`, NaNs set aside, or negative infinity where that
/// leaves nothing higher.
pub open spec fn is_ceiling<T: Hittable>(
    m: i64,
    objects: Seq<T>,
    start: int,
    end: int,
    axis: int,
) -> bool {
    &&& !is_nan(m)
    &&& m == NEG_INFINITY || exists|j: int|
        start <= j < end && bounds(#[trigger] objects[j]).axis(axis).max == m
    &&& forall|j: int|
        start <= j < end ==> is_nan(bounds(#[trigger] objects[j]).axis(axis).max) || m
            >= bounds(objects[j]).axis(axis).max
}

/// `bbox` is the hull of the boxes of `objects[start..end]`.
pub open spec fn is_hull<T: Hittable>(bbox: AABB, objects: Seq<T>, start: int, end: int) -> bool {
    forall|axis: int|
        0 <= axis <= 2 ==> #[trigger] is_floor(bbox.axis(axis).min, objects, start, end, axis)
            && is_ceiling(bbox.axis(axis).max, objects, start, end, axis)
}

/// No surface of `objects[start..mid]` comes after one of `objects[mid..end]`
/// along `axis`.
pub open spec fn is_split<T: Hittable>(
    objects: Seq<T>,
    start: int,
    mid: int,
    end: int,
    axis: i32,
) -> bool {
    forall|i: int, j: int|
        start <= i < mid && mid <= j < end ==> sort_key(#[trigger] objects[i], axis) <= sort_key(
            #[trigger] objects[j],
            axis,
        )
}

impl BVHChild {
    /// The first index under this side.
    pub open spec fn low(self) -> int
        decreases self,
    {
        match self {
            BVHChild::Leaf(i) => i as int,
            BVHChild::Branch(node) => node.low(),
        }
    }

    /// One past the last index under this side.
    pub open spec fn high(self) -> int
        decreases self,
    {
        match self {
            BVHChild::Leaf(i) => i + 1,
            BVHChild::Branch(node) => node.high(),
        }
    }
}

impl BVHNode {
    /// The first index under the node.
    pub open spec fn low(self) -> int
        decreases self,
    {
        match self.left {
            BVHChild::Leaf(i) => i as int,
            BVHChild::Branch(node) => node.low(),
        }
    }

    /// One past the last index under the node.
    pub open spec fn high(self) -> int
        decreases self,
    {
        match self.right {
            BVHChild::Leaf(i) => i + 1,
            BVHChild::Branch(node) => node.high(),
        }
    }

    /// The node has the shape of a median split of `start..end`: one index on
    /// both sides, or two indices side by side, or two subtrees over the lower
    /// and the upper half, the upper half taking the odd one.
    pub open spec fn covers(self, start: int, end: int) -> bool
        decreases self,
    {
        if end - start == 1 {
            self.left == BVHChild::Leaf(start as usize) && self.right == BVHChild::Leaf(
                start as usize,
            ) && 0 <= start <= usize::MAX
        } else if end - start == 2 {
            self.left == BVHChild::Leaf(start as usize) && self.right == BVHChild::Leaf(
                (start + 1) as usize,
            ) && 0 <= start && start + 1 <= usize::MAX
        } else if end - start >= 3 {
            let mid = start + (end - start) / 2;
            match (self.left, self.right) {
                (BVHChild::Branch(l), BVHChild::Branch(r)) => l.covers(start, mid) && r.covers(
                    mid,
                    end,
                ),
                _ => false,
            }
        } else {
            false
        }
    }

    /// The node was built over `objects[start..end]`: its box is the hull of
    /// their boxes, and where it has subtrees, the surfaces are split between
    /// them along the longest axis of that box as `size` measures it, and the
    /// subtrees were built in the same way.
    pub open spec fn built<T: Hittable, F: Fn(&Interval) -> i64>(
        self,
        objects: Seq<T>,
        start: int,
        end: int,
        size: &F,
    ) -> bool
        decreases self,
    {
        &&& is_hull(self.bbox, objects, start, end)
        &&& match (self.left, self.right) {
            (BVHChild::Branch(l), BVHChild::Branch(r)) => {
                let mid = start + (end - start) / 2;
                &&& exists|axis: i32|
                    0 <= axis <= 2 && self.bbox.measures_longest(size, axis as int)
                        && #[trigger] is_split(objects, start, mid, end, axis)
                &&& l.built(objects, start, mid, size)
                &&& r.built(objects, mid, end, size)
            },
            _ => true,
        }
    }

    /// `found` is what a search of the node can come to. Where the slab test
    /// says that the ray misses the node's box, nothing is found. Otherwise
    /// the left side is searched over the whole interval, the right side for
    /// something nearer than what the left side found, and what the right
    /// side finds replaces what the left side found. To search a side is to
    /// ask the surface, or to search the subtree.
    pub open spec fn searched<T: Hittable, F: Fn(&Interval, i64, i64) -> (i64, i64)>(
        self,
        objects: Seq<T>,
        ray: Ray,
        interval: Interval,
        slab: &F,
        found: Option<HitRecord>,
    ) -> bool
        decreases self,
    {
        ||| found is None && self.bbox.slab_test(ray, interval, slab, 0, false)
        ||| self.bbox.slab_test(ray, interval, slab, 0, true) && exists|
            left: Option<HitRecord>,
            right: Option<HitRecord>,
        |
            {
                &&& match self.left {
                    BVHChild::Leaf(i) => call_ensures(
                        T::hit,
                        (&objects[i as int], &ray, &interval),
                        left,
                    ),
                    BVHChild::Branch(node) => node.searched(objects, ray, interval, slab, left),
                }
                &&& match self.right {
                    BVHChild::Leaf(i) => call_ensures(
                        T::hit,
                        (&objects[i as int], &ray, &nearer_than(interval, left)),
                        right,
                    ),
                    BVHChild::Branch(node) => node.searched(
                        objects,
                        ray,
                        nearer_than(interval, left),
                        slab,
                        right,
                    ),
                }
                &&& found == #[trigger] replaced_by(left, right)
            }
    }

    /// Whenever the slab test, with the slabs that `slab` gives, can say that
    /// `ray` misses the box of a node over `interval`, no surface under that
    /// node is crossed inside `interval`.
    pub open spec fn prunes_soundly<T: Hittable, F: Fn(&Interval, i64, i64) -> (i64, i64)>(
        self,
        objects: Seq<T>,
        ray: Ray,
        slab: &F,
    ) -> bool
        decreases self,
    {
        &&& forall|interval: Interval| #[trigger]
            self.bbox.slab_test(ray, interval, slab, 0, false) ==> scan_outcome(
                objects,
                self.low(),
                self.high(),
                ray,
                interval,
                None,
            )
        &&& match self.left {
            BVHChild::Leaf(_) => true,
            BVHChild::Branch(node) => node.prunes_soundly(objects, ray, slab),
        }
        &&& match self.right {
            BVHChild::Leaf(_) => true,
            BVHChild::Branch(node) => node.prunes_soundly(objects, ray, slab),
        }
    }

    /// Orders two surfaces by the lower ends of their boxes on an axis, in the
    /// order of the codes.
    pub fn box_compare<T: Hittable>(a: &T, b: &T, axis_index: i32) -> (order: Ordering)
        ensures
            steady(*a) && steady(*b) ==> {
                &&& (order is Less) == (sort_key(*a, axis_index) < sort_key(*b, axis_index))
                &&& (order is Equal) == (sort_key(*a, axis_index) == sort_key(*b, axis_index))
                &&& (order is Greater) == (sort_key(*a, axis_index) > sort_key(*b, axis_index))
            },
    {
        let a_box: AABB = a.bounding_box();
        let b_box: AABB = b.bounding_box();
        let a_min: i64 = a_box.axis_interval(axis_index).min;
        let b_min: i64 = b_box.axis_interval(axis_index).min;
        if a_min < b_min {
            Ordering::Less
        } else if a_min == b_min {
            Ordering::Equal
        } else {
            Ordering::Greater
        }
    }

    /// Builds the tree over `objects[start..end]`, reordering that run.
    ///
    /// A run of one surface gives a node that names it on both sides; a run of
    /// two, a node with one surface on each side. A longer run is sorted along
    /// the longest axis of its hull, as `size` measures the hull's ranges, and
    /// cut at its middle; each half becomes a subtree.
    pub fn new<T: Hittable, F: Fn(&Interval) -> i64>(
        objects: &mut Vec<T>,
        start: usize,
        end: usize,
        size: &F,
    ) -> (node: Self)
        requires
            start < end <= old(objects)@.len(),
            steady_run(old(objects)@, start, end),
            forall|interval: &Interval| call_requires(*size, (interval,)),
        ensures
            final(objects)@.len() == old(objects)@.len(),
            forall|i: int|
                0 <= i < start || end <= i < old(objects)@.len() ==> final(objects)@[i] == old(
                    objects,
                )@[i],
            run(final(objects)@, start, end).to_multiset() == run(
                old(objects)@,
                start,
                end,
            ).to_multiset(),
            node.covers(start as int, end as int),
            node.low() == start,
            node.high() == end,
            node.built(final(objects)@, start as int, end as int, size),
            steady_run(final(objects)@, start, end),
        decreases end - start,
    {
        let mut bbox = AABB::empty();
        let mut k: usize = start;
        proof {
            lemma_hull_of_nothing(objects@, start as int);
        }
        while k < end
            invariant
                start <= k <= end <= objects@.len(),
                objects@ == old(objects)@,
                steady_run(objects@, start, end),
                is_hull(bbox, objects@, start as int, k as int),
            decreases end - k,
        {
            let object_box: AABB = objects[k].bounding_box();
            proof {
                assert(steady(objects@[k as int]));
                lemma_hull_grows(bbox, objects@, start as int, k as int);
            }
            bbox = AABB::new_from_children(&bbox, &object_box);
            k += 1;
        }
        let object_span: usize = end - start;
        if object_span == 1 {
            BVHNode { left: BVHChild::Leaf(start), right: BVHChild::Leaf(start), bbox }
        } else if object_span == 2 {
            BVHNode { left: BVHChild::Leaf(start), right: BVHChild::Leaf(start + 1), bbox }
        } else {
            let axis: i32 = bbox.longest_axis(size);
            sort_run(objects, start, end, axis);
            let mid: usize = start + object_span / 2;
            let ghost sorted = objects@;
            proof {
                lemma_run_cut(old(objects)@, start, mid, end);
                lemma_run_cut(sorted, start, mid, end);
                lemma_steady_of_same_members(old(objects)@, sorted, start, end);
            }
            let left = Self::new(objects, start, mid, size);
            let ghost halfway = objects@;
            proof {
                assert(run(halfway, mid, end) =~= run(sorted, mid, end));
                lemma_run_cut(halfway, start, mid, end);
                assert forall|j: int| mid <= j < end implies steady(#[trigger] halfway[j]) by {
                    assert(halfway[j] == sorted[j]);
                }
            }
            let right = Self::new(objects, mid, end, size);
            proof {
                let done = objects@;
                assert(run(done, start, mid) =~= run(halfway, start, mid));
                lemma_run_cut(done, start, mid, end);
                lemma_hull_of_same_members(bbox, old(objects)@, done, start, end);
                lemma_split_of_same_members(sorted, done, start, mid, end, axis);
                lemma_built_elsewhere(left, halfway, done, start as int, mid as int, size);
            }
            BVHNode {
                left: BVHChild::Branch(Box::new(left)),
                right: BVHChild::Branch(Box::new(right)),
                bbox,
            }
        }
    }

    /// Builds the tree over all the surfaces of a list, reordering them.
    pub fn new_from_hittable_list<T: Hittable, F: Fn(&Interval) -> i64>(
        list: &mut HittableList<T>,
        size: &F,
    ) -> (node: Self)
        requires
            old(list).objects@.len() > 0,
            all_steady(old(list).objects@, 0, old(list).objects@.len() as int),
            forall|interval: &Interval| call_requires(*size, (interval,)),
        ensures
            final(list).bbox == old(list).bbox,
            final(list).objects@.len() == old(list).objects@.len(),
            final(list).objects@.to_multiset() == old(list).objects@.to_multiset(),
            node.covers(0, final(list).objects@.len() as int),
            node.low() == 0,
            node.high() == final(list).objects@.len(),
            node.built(final(list).objects@, 0, final(list).objects@.len() as int, size),
    {
        let end: usize = list.objects.len();
        let node = Self::new(&mut list.objects, 0, end, size);
        proof {
            assert(run(list.objects@, 0, end) =~= list.objects@);
            assert(run(old(list).objects@, 0, end) =~= old(list).objects@);
        }
        node
    }

    pub fn bounding_box(&self) -> (bbox: AABB)
        ensures
            bbox == self.bbox,
    {
        self.bbox
    }

    /// The nearest hit among the surfaces under the node. The box of each node
    /// is put to the slab test first, and a miss there ends the search below
    /// it. Otherwise the left side is searched over the whole interval and the
    /// right side only for something nearer than what the left side found.
    ///
    /// Where the surfaces are faithful along the ray and the boxes prune
    /// soundly, the answer is that of a scan of the surfaces in their order.
    pub fn hit<T: Hittable, F: Fn(&Interval, i64, i64) -> (i64, i64)>(
        &self,
        objects: &Vec<T>,
        ray: &Ray,
        interval: &Interval,
        slab: &F,
    ) -> (found: Option<HitRecord>)
        requires
            self.covers(self.low(), self.high()),
            self.high() <= objects@.len(),
            forall|range: &Interval, origin: i64, direction: i64|
                call_requires(*slab, (range, origin, direction)),
        ensures
            self.searched(objects@, *ray, *interval, slab, found),
            all_faithful(objects@, self.low(), self.high(), *ray) && self.prunes_soundly(
                objects@,
                *ray,
                slab,
            ) ==> scan_outcome(objects@, self.low(), self.high(), *ray, *interval, found),
        decreases self,
    {
        let ghost trusted = all_faithful(objects@, self.low(), self.high(), *ray)
            && self.prunes_soundly(objects@, *ray, slab);
        proof {
            lemma_covers_range(*self, self.low(), self.high());
        }
        if !self.bbox.hit(ray, interval, slab) {
            return None;
        }
        let hit_left: Option<HitRecord> = match &self.left {
            BVHChild::Leaf(i) => {
                let answer = objects[*i].hit(ray, interval);
                proof {
                    if trusted {
                        assert(faithful(objects@[*i as int], *ray));
                        lemma_single(objects@, *i as int, *ray, *interval, answer);
                    }
                }
                answer
            },
            BVHChild::Branch(node) => node.hit(objects, ray, interval, slab),
        };
        let narrowed = Interval::new(
            interval.min,
            match hit_left {
                Some(record) => record.time,
                None => interval.max,
            },
        );
        assert(narrowed == nearer_than(*interval, hit_left));
        let hit_right: Option<HitRecord> = match &self.right {
            BVHChild::Leaf(i) => {
                let answer = objects[*i].hit(ray, &narrowed);
                proof {
                    if trusted {
                        assert(faithful(objects@[*i as int], *ray));
                        lemma_single(objects@, *i as int, *ray, narrowed, answer);
                    }
                }
                answer
            },
            BVHChild::Branch(node) => node.hit(objects, ray, &narrowed, slab),
        };
        proof {
            if !trusted {
            } else if self.high() - self.low() == 1 {
                lemma_asked_twice(objects@, self.low(), *ray, *interval, hit_left, hit_right);
            } else {
                lemma_two_runs(
                    objects@,
                    self.low(),
                    self.left.high(),
                    self.high(),
                    *ray,
                    *interval,
                    hit_left,
                    hit_right,
                );
            }
        }
        let found: Option<HitRecord> = match hit_right {
            Some(_) => hit_right,
            None => hit_left,
        };
        assert(found == replaced_by(hit_left, hit_right));
        assert(self.bbox.slab_test(*ray, *interval, slab, 0, true));
        found
    }
}

/// A tree with the surfaces that it was built over and the arithmetic of the
/// slab test: a surface in its own right.
pub struct BVH<T: Hittable, S: Fn(&Interval, i64, i64) -> (i64, i64)> {
    objects: Vec<T>,
    root: BVHNode,
    slab: S,
}

impl<T: Hittable, S: Fn(&Interval, i64, i64) -> (i64, i64)> BVH<T, S> {
    #[verifier::type_invariant]
    spec fn rooted(self) -> bool {
        &&& self.root.covers(0, self.objects@.len() as int)
        &&& forall|range: &Interval, origin: i64, direction: i64|
            call_requires(self.slab, (range, origin, direction))
    }

    /// The surfaces, in the order in which the tree holds them.
    pub closed spec fn objects(self) -> Seq<T> {
        self.objects@
    }

    pub closed spec fn root(self) -> BVHNode {
        self.root
    }

    pub closed spec fn slab(self) -> S {
        self.slab
    }

    /// The tree over the surfaces of `list`, which must hold at least one.
    pub fn new<F: Fn(&Interval) -> i64>(list: HittableList<T>, size: &F, slab: S) -> (tree: Self)
        requires
            list.objects@.len() > 0,
            all_steady(list.objects@, 0, list.objects@.len() as int),
            forall|interval: &Interval| call_requires(*size, (interval,)),
            forall|range: &Interval, origin: i64, direction: i64|
                call_requires(slab, (range, origin, direction)),
        ensures
            tree.objects().len() == list.objects@.len(),
            tree.objects().to_multiset() == list.objects@.to_multiset(),
            tree.root().covers(0, tree.objects().len() as int),
            tree.root().built(tree.objects(), 0, tree.objects().len() as int, size),
            tree.slab() == slab,
    {
        let mut list = list;
        let root = BVHNode::new_from_hittable_list(&mut list, size);
        BVH { objects: list.objects, root, slab }
    }
}

impl<T: Hittable, S: Fn(&Interval, i64, i64) -> (i64, i64)> Hittable for BVH<T, S> {
    fn hit(&self, ray: &Ray, interval: &Interval) -> (found: Option<HitRecord>)
        ensures
            self.root().searched(self.objects(), *ray, *interval, &self.slab(), found),
            all_faithful(self.objects(), 0, self.objects().len() as int, *ray)
                && self.root().prunes_soundly(self.objects(), *ray, &self.slab()) ==> scan_outcome(
                self.objects(),
                0,
                self.objects().len() as int,
                *ray,
                *interval,
                found,
            ),
    {
        proof {
            use_type_invariant(self);
            lemma_covers_range(self.root, 0, self.objects@.len() as int);
        }
        self.root.hit(&self.objects, ray, interval, &self.slab)
    }

    /// The box of the root.
    fn bounding_box(&self) -> (bbox: AABB)
        ensures
            bbox == self.root().bbox,
    {
        self.root.bounding_box()
    }
}

/// A tree over faithful surfaces whose boxes prune soundly is itself a
/// faithful surface.
pub proof fn lemma_tree_is_faithful<T: Hittable, S: Fn(&Interval, i64, i64) -> (i64, i64)>(
    tree: BVH<T, S>,
    ray: Ray,
)
    requires
        all_faithful(tree.objects(), 0, tree.objects().len() as int, ray),
        tree.root().prunes_soundly(tree.objects(), ray, &tree.slab()),
    ensures
        faithful(tree, ray),
{
    lemma_scan_is_faithful(tree, tree.objects(), 0, tree.objects().len() as int, ray);
}

/// What a search comes to is what one of the surfaces answered.
proof fn lemma_searched_names_materials<T: Hittable, S: Fn(&Interval, i64, i64) -> (i64, i64)>(
    node: BVHNode,
    objects: Seq<T>,
    ray: Ray,
    interval: Interval,
    slab: &S,
    found: Option<HitRecord>,
    count: int,
)
    requires
        node.covers(node.low(), node.high()),
        node.high() <= objects.len(),
        node.searched(objects, ray, interval, slab, found),
        forall|j: int| 0 <= j < objects.len() ==> names_materials(#[trigger] objects[j], count),
    ensures
        found matches Some(record) ==> record.material < count,
    decreases node,
{
    lemma_covers_range(node, node.low(), node.high());
    if found is Some {
        let (left, right) = choose|left: Option<HitRecord>, right: Option<HitRecord>|
            {
                &&& match node.left {
                    BVHChild::Leaf(i) => call_ensures(
                        T::hit,
                        (&objects[i as int], &ray, &interval),
                        left,
                    ),
                    BVHChild::Branch(below) => below.searched(objects, ray, interval, slab, left),
                }
                &&& match node.right {
                    BVHChild::Leaf(i) => call_ensures(
                        T::hit,
                        (&objects[i as int], &ray, &nearer_than(interval, left)),
                        right,
                    ),
                    BVHChild::Branch(below) => below.searched(
                        objects,
                        ray,
                        nearer_than(interval, left),
                        slab,
                        right,
                    ),
                }
                &&& found == #[trigger] replaced_by(left, right)
            };
        match node.left {
            BVHChild::Leaf(i) => {
                assert(names_materials(objects[i as int], count));
            },
            BVHChild::Branch(below) => {
                lemma_searched_names_materials(*below, objects, ray, interval, slab, left, count);
            },
        }
        match node.right {
            BVHChild::Leaf(i) => {
                assert(names_materials(objects[i as int], count));
            },
            BVHChild::Branch(below) => {
                lemma_searched_names_materials(
                    *below,
                    objects,
                    ray,
                    nearer_than(interval, left),
                    slab,
                    right,
                    count,
                );
            },
        }
    }
}

/// A tree names the materials that its surfaces name.
pub proof fn lemma_tree_names_materials<T: Hittable, S: Fn(&Interval, i64, i64) -> (i64, i64)>(
    tree: BVH<T, S>,
    count: int,
)
    requires
        tree.root().covers(0, tree.objects().len() as int),
        forall|j: int|
            0 <= j < tree.objects().len() ==> names_materials(#[trigger] tree.objects()[j], count),
    ensures
        names_materials(tree, count),
{
    lemma_covers_range(tree.root(), 0, tree.objects().len() as int);
    assert forall|ray: Ray, interval: Interval, record: HitRecord| #[trigger]
        call_ensures(BVH::<T, S>::hit, (&tree, &ray, &interval), Some(record)) implies record.material
        < count by {
        lemma_searched_names_materials(
            tree.root(),
            tree.objects(),
            ray,
            interval,
            &tree.slab(),
            Some(record),
            count,
        );
    }
}

/// A tree always gives the same box.
pub proof fn lemma_tree_is_steady<T: Hittable, S: Fn(&Interval, i64, i64) -> (i64, i64)>(
    tree: BVH<T, S>,
)
    ensures
        steady(tree),
{
    lemma_steady(tree, tree.root().bbox);
}

/// Sorts `objects[start..end]` with `sort_by` of slices, ordering by
/// `BVHNode::box_compare` on `axis`. Claimed of it: the run comes out in
/// ascending order of the sort keys and holds the same surfaces as before,
/// and nothing outside the run moves. The keys are the ones that
/// `box_compare` reads, which are the sort keys while the surfaces are
/// steady; only then is the comparison an order, as `sort_by` needs it to be.
/// That surfaces with equal keys keep their order is not claimed.
#[verifier::external_body]
fn sort_run<T: Hittable>(objects: &mut Vec<T>, start: usize, end: usize, axis: i32)
    requires
        start <= end <= old(objects)@.len(),
        steady_run(old(objects)@, start, end),
    ensures
        final(objects)@.len() == old(objects)@.len(),
        forall|i: int|
            0 <= i < start || end <= i < old(objects)@.len() ==> final(objects)@[i] == old(
                objects,
            )@[i],
        run(final(objects)@, start, end).to_multiset() == run(
            old(objects)@,
            start,
            end,
        ).to_multiset(),
        forall|i: int, j: int|
            start <= i <= j < end ==> sort_key(#[trigger] final(objects)@[i], axis) <= sort_key(
                #[trigger] final(objects)@[j],
                axis,
            ),
{
    objects[start..end].sort_by(|a, b| BVHNode::box_compare(a, b, axis));
}

/// The members of a run are those of its two parts.
proof fn lemma_run_cut<T>(objects: Seq<T>, start: usize, mid: usize, end: usize)
    requires
        start <= mid <= end <= objects.len(),
    ensures
        run(objects, start, end).to_multiset() =~= run(objects, start, mid).to_multiset().add(
            run(objects, mid, end).to_multiset(),
        ),
{
    assert(run(objects, start, end) =~= run(objects, start, mid) + run(objects, mid, end));
    lemma_multiset_commutative(run(objects, start, mid), run(objects, mid, end));
}

/// Runs with the same members hold the same surfaces: each surface of one
/// stands somewhere in the other.
proof fn lemma_same_members<T>(a: Seq<T>, b: Seq<T>, start: usize, end: usize, j: int)
    requires
        start <= end <= a.len(),
        end <= b.len(),
        run(a, start, end).to_multiset() == run(b, start, end).to_multiset(),
        start <= j < end,
    ensures
        exists|i: int| start <= i < end && #[trigger] a[i] == b[j],
{
    let ra = run(a, start, end);
    let rb = run(b, start, end);
    ra.to_multiset_ensures();
    rb.to_multiset_ensures();
    assert(rb[j - start] == b[j]);
    assert(rb.contains(b[j]));
    assert(rb.to_multiset().count(b[j]) > 0);
    assert(ra.to_multiset().count(b[j]) > 0);
    assert(ra.contains(b[j]));
    let k = choose|k: int| 0 <= k < ra.len() && ra[k] == b[j];
    assert(a[k + start] == b[j]);
}

/// Steadiness is a property of each surface, whatever its place in the run.
proof fn lemma_steady_of_same_members<T: Hittable>(a: Seq<T>, b: Seq<T>, start: usize, end: usize)
    requires
        start <= end <= a.len(),
        end <= b.len(),
        run(a, start, end).to_multiset() == run(b, start, end).to_multiset(),
        steady_run(a, start, end),
    ensures
        steady_run(b, start, end),
{
    assert forall|j: int| start <= j < end implies steady(#[trigger] b[j]) by {
        lemma_same_members(a, b, start, end, j);
        let i = choose|i: int| start <= i < end && #[trigger] a[i] == b[j];
        assert(steady(a[i]));
    }
}

/// The empty box is the hull of no boxes.
proof fn lemma_hull_of_nothing<T: Hittable>(objects: Seq<T>, start: int)
    ensures
        is_hull(crate::aabb::empty(), objects, start, start),
{
    let bbox = crate::aabb::empty();
    assert forall|axis: int| 0 <= axis <= 2 implies #[trigger] is_floor(
        bbox.axis(axis).min,
        objects,
        start,
        start,
        axis,
    ) && is_ceiling(bbox.axis(axis).max, objects, start, start, axis) by {}
}

/// Widening the hull of a run by the box of the next surface gives the hull
/// of the longer run.
proof fn lemma_hull_grows<T: Hittable>(bbox: AABB, objects: Seq<T>, start: int, k: int)
    requires
        start <= k < objects.len(),
        is_hull(bbox, objects, start, k),
    ensures
        is_hull(bbox.hull(bounds(objects[k])), objects, start, k + 1),
{
    let next = bounds(objects[k]);
    let wider = bbox.hull(next);
    assert forall|axis: int| 0 <= axis <= 2 implies #[trigger] is_floor(
        wider.axis(axis).min,
        objects,
        start,
        k + 1,
        axis,
    ) && is_ceiling(wider.axis(axis).max, objects, start, k + 1, axis) by {
        assert(is_floor(bbox.axis(axis).min, objects, start, k, axis));
        assert(is_ceiling(bbox.axis(axis).max, objects, start, k, axis));
        let m = bbox.axis(axis).min;
        let v = next.axis(axis).min;
        let m2 = wider.axis(axis).min;
        assert(m2 == crate::scalar::min_of(m, v));
        if m2 != INFINITY {
            if m2 == m {
                let j = choose|j: int|
                    start <= j < k && bounds(#[trigger] objects[j]).axis(axis).min == m;
                assert(start <= j < k + 1 && bounds(objects[j]).axis(axis).min == m2);
            } else {
                assert(start <= k < k + 1 && bounds(objects[k]).axis(axis).min == m2);
            }
        }
        let h = bbox.axis(axis).max;
        let u = next.axis(axis).max;
        let h2 = wider.axis(axis).max;
        assert(h2 == crate::scalar::max_of(h, u));
        if h2 != NEG_INFINITY {
            if h2 == h {
                let j = choose|j: int|
                    start <= j < k && bounds(#[trigger] objects[j]).axis(axis).max == h;
                assert(start <= j < k + 1 && bounds(objects[j]).axis(axis).max == h2);
            } else {
                assert(start <= k < k + 1 && bounds(objects[k]).axis(axis).max == h2);
            }
        }
    }
}

/// The lowest and the highest end of the boxes of a run do not depend on the
/// order of its surfaces.
proof fn lemma_ends_of_same_members<T: Hittable>(
    low: i64,
    high: i64,
    a: Seq<T>,
    b: Seq<T>,
    start: usize,
    end: usize,
    axis: int,
)
    requires
        start <= end <= a.len(),
        end <= b.len(),
        run(a, start, end).to_multiset() == run(b, start, end).to_multiset(),
        is_floor(low, a, start as int, end as int, axis),
        is_ceiling(high, a, start as int, end as int, axis),
    ensures
        is_floor(low, b, start as int, end as int, axis),
        is_ceiling(high, b, start as int, end as int, axis),
{
    if low != INFINITY {
        let i = choose|i: int| start <= i < end && bounds(#[trigger] a[i]).axis(axis).min == low;
        lemma_same_members(b, a, start, end, i);
        let j = choose|j: int| start <= j < end && #[trigger] b[j] == a[i];
        assert(bounds(b[j]).axis(axis).min == low);
    }
    if high != NEG_INFINITY {
        let i = choose|i: int| start <= i < end && bounds(#[trigger] a[i]).axis(axis).max == high;
        lemma_same_members(b, a, start, end, i);
        let j = choose|j: int| start <= j < end && #[trigger] b[j] == a[i];
        assert(bounds(b[j]).axis(axis).max == high);
    }
    assert forall|j: int| start <= j < end implies is_nan(bounds(#[trigger] b[j]).axis(axis).min)
        || low <= bounds(b[j]).axis(axis).min by {
        lemma_same_members(a, b, start, end, j);
        let i = choose|i: int| start <= i < end && #[trigger] a[i] == b[j];
        assert(is_nan(bounds(a[i]).axis(axis).min) || low <= bounds(a[i]).axis(axis).min);
    }
    assert forall|j: int| start <= j < end implies is_nan(bounds(#[trigger] b[j]).axis(axis).max)
        || high >= bounds(b[j]).axis(axis).max by {
        lemma_same_members(a, b, start, end, j);
        let i = choose|i: int| start <= i < end && #[trigger] a[i] == b[j];
        assert(is_nan(bounds(a[i]).axis(axis).max) || high >= bounds(a[i]).axis(axis).max);
    }
}

/// The hull of a run does not depend on the order of its surfaces.
proof fn lemma_hull_of_same_members<T: Hittable>(
    bbox: AABB,
    a: Seq<T>,
    b: Seq<T>,
    start: usize,
    end: usize,
)
    requires
        start <= end <= a.len(),
        end <= b.len(),
        run(a, start, end).to_multiset() == run(b, start, end).to_multiset(),
        is_hull(bbox, a, start as int, end as int),
    ensures
        is_hull(bbox, b, start as int, end as int),
{
    assert forall|axis: int| 0 <= axis <= 2 implies #[trigger] is_floor(
        bbox.axis(axis).min,
        b,
        start as int,
        end as int,
        axis,
    ) && is_ceiling(bbox.axis(axis).max, b, start as int, end as int, axis) by {
        assert(is_floor(bbox.axis(axis).min, a, start as int, end as int, axis));
        lemma_ends_of_same_members(
            bbox.axis(axis).min,
            bbox.axis(axis).max,
            a,
            b,
            start,
            end,
            axis,
        );
    }
    assert(is_hull(bbox, b, start as int, end as int));
}

/// A sorted run is split at every cut, and stays split when each part is
/// reordered within itself.
proof fn lemma_split_of_same_members<T: Hittable>(
    a: Seq<T>,
    b: Seq<T>,
    start: usize,
    mid: usize,
    end: usize,
    axis: i32,
)
    requires
        start <= mid <= end <= a.len(),
        end <= b.len(),
        run(a, start, mid).to_multiset() == run(b, start, mid).to_multiset(),
        run(a, mid, end).to_multiset() == run(b, mid, end).to_multiset(),
        forall|i: int, j: int|
            start <= i <= j < end ==> sort_key(#[trigger] a[i], axis) <= sort_key(
                #[trigger] a[j],
                axis,
            ),
    ensures
        is_split(b, start as int, mid as int, end as int, axis),
{
    assert forall|i: int, j: int| start <= i < mid && mid <= j < end implies sort_key(
        #[trigger] b[i],
        axis,
    ) <= sort_key(#[trigger] b[j], axis) by {
        lemma_same_members(a, b, start, mid, i);
        lemma_same_members(a, b, mid, end, j);
        let i0 = choose|i0: int| start <= i0 < mid && #[trigger] a[i0] == b[i];
        let j0 = choose|j0: int| mid <= j0 < end && #[trigger] a[j0] == b[j];
        assert(sort_key(a[i0], axis) <= sort_key(a[j0], axis));
    }
}

/// The lowest and the highest end of the boxes of a run stay what they are
/// while the run stays as it is.
proof fn lemma_ends_elsewhere<T: Hittable>(
    low: i64,
    high: i64,
    a: Seq<T>,
    b: Seq<T>,
    start: int,
    end: int,
    axis: int,
)
    requires
        forall|i: int| start <= i < end ==> a[i] == b[i],
        is_floor(low, a, start, end, axis),
        is_ceiling(high, a, start, end, axis),
    ensures
        is_floor(low, b, start, end, axis),
        is_ceiling(high, b, start, end, axis),
{
    if low != INFINITY {
        let i = choose|i: int| start <= i < end && bounds(#[trigger] a[i]).axis(axis).min == low;
        assert(bounds(b[i]).axis(axis).min == low);
    }
    if high != NEG_INFINITY {
        let i = choose|i: int| start <= i < end && bounds(#[trigger] a[i]).axis(axis).max == high;
        assert(bounds(b[i]).axis(axis).max == high);
    }
    assert forall|j: int| start <= j < end implies is_nan(bounds(#[trigger] b[j]).axis(axis).min)
        || low <= bounds(b[j]).axis(axis).min by {
        assert(a[j] == b[j]);
    }
    assert forall|j: int| start <= j < end implies is_nan(bounds(#[trigger] b[j]).axis(axis).max)
        || high >= bounds(b[j]).axis(axis).max by {
        assert(a[j] == b[j]);
    }
}

/// What was built over a run stays built while the run stays as it is,
/// whatever happens to the rest of the vector.
proof fn lemma_built_elsewhere<T: Hittable, F: Fn(&Interval) -> i64>(
    node: BVHNode,
    a: Seq<T>,
    b: Seq<T>,
    start: int,
    end: int,
    size: &F,
)
    requires
        node.covers(start, end),
        node.built(a, start, end, size),
        forall|i: int| start <= i < end ==> a[i] == b[i],
    ensures
        node.built(b, start, end, size),
    decreases node,
{
    assert forall|axis: int| 0 <= axis <= 2 implies #[trigger] is_floor(
        node.bbox.axis(axis).min,
        b,
        start,
        end,
        axis,
    ) && is_ceiling(node.bbox.axis(axis).max, b, start, end, axis) by {
        assert(is_floor(node.bbox.axis(axis).min, a, start, end, axis));
        lemma_ends_elsewhere(
            node.bbox.axis(axis).min,
            node.bbox.axis(axis).max,
            a,
            b,
            start,
            end,
            axis,
        );
    }
    assert(is_hull(node.bbox, b, start, end));
    match (node.left, node.right) {
        (BVHChild::Branch(l), BVHChild::Branch(r)) => {
            lemma_covers_range(node, start, end);
            let mid = start + (end - start) / 2;
            let axis = choose|axis: i32|
                0 <= axis <= 2 && node.bbox.measures_longest(size, axis as int)
                    && #[trigger] is_split(a, start, mid, end, axis);
            assert forall|i: int, j: int| start <= i < mid && mid <= j < end implies sort_key(
                #[trigger] b[i],
                axis,
            ) <= sort_key(#[trigger] b[j], axis) by {
                assert(a[i] == b[i] && a[j] == b[j]);
            }
            assert(is_split(b, start, mid, end, axis));
            lemma_built_elsewhere(*l, a, b, start, mid, size);
            lemma_built_elsewhere(*r, a, b, mid, end, size);
        },
        _ => {},
    }
}

/// Pruning changes the cost of a query and never its answer. Let a tree
/// cover all the surfaces of a list, the surfaces be faithful along a ray, and
/// the boxes of the tree prune soundly. Then whatever the `hit` of the tree
/// and the `hit` of the list answer to the same query, they both hit or both
/// miss, and where they hit, they hit at the same point of the ray: the
/// parameters are the same number, and where they are the same code, the
/// whole records are the same.
pub proof fn lemma_tree_agrees_with_scan<T: Hittable, F: Fn(&Interval, i64, i64) -> (i64, i64)>(
    node: BVHNode,
    list: HittableList<T>,
    ray: Ray,
    interval: Interval,
    slab: &F,
    from_tree: Option<HitRecord>,
    from_scan: Option<HitRecord>,
)
    requires
        node.covers(0, list.objects@.len() as int),
        all_faithful(list.objects@, 0, list.objects@.len() as int, ray),
        node.prunes_soundly(list.objects@, ray, slab),
        call_ensures(
            BVHNode::hit::<T, F>,
            (&node, &list.objects, &ray, &interval, slab),
            from_tree,
        ),
        call_ensures(HittableList::<T>::hit, (&list, &ray, &interval), from_scan),
    ensures
        from_tree is Some == from_scan is Some,
        match (from_tree, from_scan) {
            (Some(a), Some(b)) => rank(a.time) == rank(b.time) && (a.time == b.time ==> a == b),
            _ => true,
        },
{
    let objects = list.objects@;
    lemma_covers_range(node, 0, objects.len() as int);
    lemma_scan_outcome_agrees(objects, 0, objects.len() as int, ray, interval, from_tree, from_scan);
}

/// A node that covers a range starts and ends where the range does, and so
/// do its two sides.
pub proof fn lemma_covers_range(node: BVHNode, start: int, end: int)
    requires
        node.covers(start, end),
    ensures
        node.low() == start,
        node.high() == end,
        0 <= start < end,
        node.left.low() == start,
        node.right.high() == end,
        end - start == 1 ==> node.left.high() == end && node.right.low() == start,
        end - start >= 2 ==> node.left.high() == node.right.low() == start + (end - start) / 2,
        node.left matches BVHChild::Branch(l) ==> l.covers(l.low(), l.high()),
        node.right matches BVHChild::Branch(r) ==> r.covers(r.low(), r.high()),
    decreases node,
{
    if end - start >= 3 {
        let mid = start + (end - start) / 2;
        match (node.left, node.right) {
            (BVHChild::Branch(l), BVHChild::Branch(r)) => {
                lemma_covers_range(*l, start, mid);
                lemma_covers_range(*r, mid, end);
            },
            _ => {},
        }
    }
}

} // verus!
