//! Pruning: why a tree may pass over a subtree whose box the ray misses.
//!
//! What has to hold of the surfaces and of the arithmetic of the slab test
//! is said here for one surface and one range at a time; that every box of a
//! tree then prunes soundly is proved.

use vstd::prelude::*;
use crate::aabb::{narrowed, AABB};
use crate::bvh::{
    is_ceiling, is_floor, is_hull, lemma_covers_range, lemma_tree_agrees_with_scan, BVHChild,
    BVHNode,
};
use crate::hittable::{all_faithful, bounds, crossings, HitRecord, Hittable};
use crate::hittable_list::HittableList;
use crate::interval::Interval;
use crate::ray::Ray;
use crate::scalar::{is_nan, le, rank};
use crate::scan::scan_outcome;

verus! {

/// The range `inner` lies within the range `outer`.
pub open spec fn within(inner: Interval, outer: Interval) -> bool {
    le(outer.min, inner.min) && le(inner.max, outer.max)
}

/// The ends of the three ranges of `bbox` are numbers.
pub open spec fn of_numbers(bbox: AABB) -> bool {
    forall|n: int|
        0 <= n <= 2 ==> !is_nan((#[trigger] bbox.axis(n)).min) && !is_nan(bbox.axis(n).max)
}

/// The box of `object` is sound for `ray`: its ends are numbers, and where
/// the slab test can say that the ray misses the box over an interval, the
/// ray does not cross the surface inside that interval.
pub open spec fn box_is_sound<T: Hittable, F: Fn(&Interval, i64, i64) -> (i64, i64)>(
    object: T,
    ray: Ray,
    slab: &F,
) -> bool {
    &&& of_numbers(bounds(object))
    &&& forall|interval: Interval, c: i64|
        bounds(object).slab_test(ray, interval, slab, 0, false) && #[trigger] crossings(
            object,
            ray,
        ).contains(c) ==> !#[trigger] interval.encloses(c)
}

/// The arithmetic of the slab test gives an answer for `range` on axis `n`.
pub open spec fn answers_for<F: Fn(&Interval, i64, i64) -> (i64, i64)>(
    slab: &F,
    ray: Ray,
    range: Interval,
    n: int,
) -> bool {
    exists|t: (i64, i64)| #[trigger]
        call_ensures(*slab, (&range, ray.origin.component(n), ray.direction.component(n)), t)
}

/// The arithmetic of the slab test widens with the range, for `ray`: on
/// each axis it gives an answer for every range; and of two ranges of which
/// one lies within the other, the slab of the inner one leaves of any stretch
/// of numbers no more than the slab of the outer one does.
pub open spec fn widens<F: Fn(&Interval, i64, i64) -> (i64, i64)>(slab: &F, ray: Ray) -> bool {
    &&& forall|range: Interval, n: int| 0 <= n <= 2 ==> #[trigger] answers_for(slab, ray, range, n)
    &&& forall|outer: Interval, inner: Interval, n: int, wide: (i64, i64), tight: (i64, i64), left: Interval|
        #![trigger call_ensures(*slab, (&outer, ray.origin.component(n), ray.direction.component(n)), wide), call_ensures(*slab, (&inner, ray.origin.component(n), ray.direction.component(n)), tight), narrowed(left, tight.0, tight.1)]
        {
            &&& 0 <= n <= 2
            &&& within(inner, outer)
            &&& !is_nan(left.min)
            &&& !is_nan(left.max)
            &&& call_ensures(
                *slab,
                (&outer, ray.origin.component(n), ray.direction.component(n)),
                wide,
            )
            &&& call_ensures(
                *slab,
                (&inner, ray.origin.component(n), ray.direction.component(n)),
                tight,
            )
        } ==> within(narrowed(left, tight.0, tight.1), narrowed(left, wide.0, wide.1))
}

/// A slab leaves more of a longer stretch, and what it leaves of a stretch
/// of numbers is a stretch of numbers.
proof fn lemma_narrowed_grows(short: Interval, long: Interval, t0: i64, t1: i64)
    requires
        within(short, long),
    ensures
        within(narrowed(short, t0, t1), narrowed(long, t0, t1)),
        !is_nan(narrowed(long, t0, t1).min),
        !is_nan(narrowed(long, t0, t1).max),
        !is_nan(narrowed(short, t0, t1).min),
        !is_nan(narrowed(short, t0, t1).max),
{
}

/// Where the slab test can say that the ray misses a box, it can say so of
/// every box within it, over every stretch within the stretch.
proof fn lemma_tighter_box_is_missed<F: Fn(&Interval, i64, i64) -> (i64, i64)>(
    outer: AABB,
    inner: AABB,
    ray: Ray,
    long: Interval,
    short: Interval,
    slab: &F,
    from: int,
)
    requires
        0 <= from <= 3,
        widens(slab, ray),
        within(short, long),
        forall|n: int| 0 <= n <= 2 ==> within(#[trigger] inner.axis(n), outer.axis(n)),
        outer.slab_test(ray, long, slab, from, false),
    ensures
        inner.slab_test(ray, short, slab, from, false),
    decreases 3 - from,
{
    if from < 3 {
        let o = ray.origin.component(from);
        let d = ray.direction.component(from);
        let (w0, w1) = choose|w0: i64, w1: i64|
            {
                &&& #[trigger] call_ensures(*slab, (&outer.axis(from), o, d), (w0, w1))
                &&& if le(narrowed(long, w0, w1).max, narrowed(long, w0, w1).min) {
                    true
                } else {
                    outer.slab_test(ray, narrowed(long, w0, w1), slab, from + 1, false)
                }
            };
        assert(answers_for(slab, ray, inner.axis(from), from));
        let tight = choose|t: (i64, i64)| #[trigger] call_ensures(*slab, (&inner.axis(from), o, d), t);
        assert(call_ensures(*slab, (&inner.axis(from), o, d), tight));
        assert(within(inner.axis(from), outer.axis(from)));
        let wide_left = narrowed(long, w0, w1);
        let mid_left = narrowed(long, tight.0, tight.1);
        let tight_left = narrowed(short, tight.0, tight.1);
        lemma_narrowed_grows(short, long, tight.0, tight.1);
        assert(within(mid_left, wide_left));
        assert(within(tight_left, wide_left));
        assert(call_ensures(*slab, (&inner.axis(from), o, d), (tight.0, tight.1)));
        if le(tight_left.max, tight_left.min) {
        } else {
            assert(!le(wide_left.max, wide_left.min));
            lemma_tighter_box_is_missed(outer, inner, ray, wide_left, tight_left, slab, from + 1);
        }
    }
}

/// The hull of a run holds the box of each surface of the run whose box is
/// of numbers.
proof fn lemma_hull_holds_each<T: Hittable>(bbox: AABB, objects: Seq<T>, start: int, end: int, j: int)
    requires
        is_hull(bbox, objects, start, end),
        start <= j < end,
        of_numbers(bounds(objects[j])),
    ensures
        forall|n: int| 0 <= n <= 2 ==> within(#[trigger] bounds(objects[j]).axis(n), bbox.axis(n)),
{
    assert forall|n: int| 0 <= n <= 2 implies within(
        #[trigger] bounds(objects[j]).axis(n),
        bbox.axis(n),
    ) by {
        assert(is_floor(bbox.axis(n).min, objects, start, end, n));
        assert(is_ceiling(bbox.axis(n).max, objects, start, end, n));
        assert(!is_nan(bounds(objects[j]).axis(n).min));
    }
}

/// The boxes of a tree prune soundly where the box of each surface is sound
/// and the arithmetic of the slab test widens with the range.
pub proof fn lemma_built_tree_prunes_soundly<
    T: Hittable,
    F: Fn(&Interval, i64, i64) -> (i64, i64),
    G: Fn(&Interval) -> i64,
>(node: BVHNode, objects: Seq<T>, start: int, end: int, ray: Ray, slab: &F, size: &G)
    requires
        node.covers(start, end),
        node.built(objects, start, end, size),
        widens(slab, ray),
        forall|j: int| start <= j < end ==> box_is_sound(#[trigger] objects[j], ray, slab),
    ensures
        node.prunes_soundly(objects, ray, slab),
    decreases node,
{
    lemma_covers_range(node, start, end);
    assert forall|interval: Interval| #[trigger]
        node.bbox.slab_test(ray, interval, slab, 0, false) implies scan_outcome(
        objects,
        node.low(),
        node.high(),
        ray,
        interval,
        None,
    ) by {
        assert forall|j: int, c: i64|
            start <= j < end && #[trigger] crossings(objects[j], ray).contains(
                c,
            ) implies !interval.encloses(c) by {
            if !is_nan(interval.min) && !is_nan(interval.max) {
                assert(box_is_sound(objects[j], ray, slab));
                lemma_hull_holds_each(node.bbox, objects, start, end, j);
                lemma_tighter_box_is_missed(
                    node.bbox,
                    bounds(objects[j]),
                    ray,
                    interval,
                    interval,
                    slab,
                    0,
                );
            }
        }
    }
    match (node.left, node.right) {
        (BVHChild::Branch(l), BVHChild::Branch(r)) => {
            let mid = start + (end - start) / 2;
            lemma_built_tree_prunes_soundly(*l, objects, start, mid, ray, slab, size);
            lemma_built_tree_prunes_soundly(*r, objects, mid, end, ray, slab, size);
        },
        _ => {},
    }
}

/// A tree that was built over the surfaces of a list answers as a scan of
/// the list does, where the surfaces are faithful along the ray, the box of
/// each surface is sound, and the arithmetic of the slab test widens with the
/// range: whatever the `hit` of the tree and the `hit` of the list answer to
/// the same query, they both hit or both miss, and where they hit, they hit
/// at the same point of the ray, and with the same record where the
/// parameters are the same code.
pub proof fn lemma_built_tree_agrees_with_scan<
    T: Hittable,
    F: Fn(&Interval, i64, i64) -> (i64, i64),
    G: Fn(&Interval) -> i64,
>(
    node: BVHNode,
    list: HittableList<T>,
    ray: Ray,
    interval: Interval,
    slab: &F,
    size: &G,
    from_tree: Option<HitRecord>,
    from_scan: Option<HitRecord>,
)
    requires
        node.covers(0, list.objects@.len() as int),
        node.built(list.objects@, 0, list.objects@.len() as int, size),
        all_faithful(list.objects@, 0, list.objects@.len() as int, ray),
        widens(slab, ray),
        forall|j: int|
            0 <= j < list.objects@.len() ==> box_is_sound(#[trigger] list.objects@[j], ray, slab),
        call_ensures(
            BVHNode::hit::<T, F>,
            (&node, &list.objects, &ray, &interval, slab),
            from_tree,
        ),
        call_ensures(HittableList::<T>::hit, (&list, &ray, &interval), from_scan),
    ensures
        from_tree is Some == from_scan is Some,
        match (from_tree, from_scan) {
            (Some(a), Some(b)) => rank(a.time) == rank(b.time) && (a.time == b.time ==> a == b),
            _ => true,
        },
{
    lemma_built_tree_prunes_soundly(
        node,
        list.objects@,
        0,
        list.objects@.len() as int,
        ray,
        slab,
        size,
    );
    lemma_tree_agrees_with_scan(node, list, ray, interval, slab, from_tree, from_scan);
}

} // verus!
