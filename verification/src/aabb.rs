//! Axis-aligned bounding boxes.

use vstd::prelude::*;
use crate::interval::Interval;
use crate::ray::Ray;
use crate::scalar::{
    le, less, less_eq, lt, max_of, maximum, min_of, minimum, INFINITY, NEG_INFINITY,
};
use crate::vec3::Vec3;

verus! {

/// A box given by its range on each axis.
#[derive(Clone, Copy, Debug)]
pub struct AABB {
    pub x: Interval,
    pub y: Interval,
    pub z: Interval,
}

/// The box that holds nothing.
pub open spec fn empty() -> AABB {
    AABB { x: crate::interval::empty(), y: crate::interval::empty(), z: crate::interval::empty() }
}

/// The box that holds every point.
pub open spec fn universe() -> AABB {
    AABB {
        x: crate::interval::universe(),
        y: crate::interval::universe(),
        z: crate::interval::universe(),
    }
}

/// The lowest value on each axis among `points`, starting from infinity.
pub open spec fn lowest(points: Seq<Vec3>) -> Vec3
    decreases points.len(),
{
    if points.len() == 0 {
        Vec3 { x: INFINITY, y: INFINITY, z: INFINITY }
    } else {
        let rest = lowest(points.drop_last());
        let p = points.last();
        Vec3 { x: min_of(rest.x, p.x), y: min_of(rest.y, p.y), z: min_of(rest.z, p.z) }
    }
}

/// The highest value on each axis among `points`, starting from minus
/// infinity.
pub open spec fn highest(points: Seq<Vec3>) -> Vec3
    decreases points.len(),
{
    if points.len() == 0 {
        Vec3 { x: NEG_INFINITY, y: NEG_INFINITY, z: NEG_INFINITY }
    } else {
        let rest = highest(points.drop_last());
        let p = points.last();
        Vec3 { x: max_of(rest.x, p.x), y: max_of(rest.y, p.y), z: max_of(rest.z, p.z) }
    }
}

/// What is left of `range` after a slab: the ray is between the two planes
/// of the slab from the smaller to the larger of `t0` and `t1`, and `range` is
/// cut down to that stretch.
pub open spec fn narrowed(range: Interval, t0: i64, t1: i64) -> Interval {
    if lt(t0, t1) {
        Interval {
            min: if lt(range.min, t0) {
                t0
            } else {
                range.min
            },
            max: if lt(t1, range.max) {
                t1
            } else {
                range.max
            },
        }
    } else {
        Interval {
            min: if lt(range.min, t1) {
                t1
            } else {
                range.min
            },
            max: if lt(t0, range.max) {
                t0
            } else {
                range.max
            },
        }
    }
}

/// `range` cut down by one slab.
pub fn narrow(range: &Interval, t0: i64, t1: i64) -> (left: Interval)
    ensures
        left == narrowed(*range, t0, t1),
{
    let mut min: i64 = range.min;
    let mut max: i64 = range.max;
    if less(t0, t1) {
        if less(min, t0) {
            min = t0;
        }
        if less(t1, max) {
            max = t1;
        }
    } else {
        if less(min, t1) {
            min = t1;
        }
        if less(t0, max) {
            max = t0;
        }
    }
    Interval::new(min, max)
}

/// The axis of the largest of three extents; where extents tie for the
/// largest, the first of x, y and z wins. So axis 0 where `sx` is at least
/// both others, else axis 1 where `sy` is at least `sz`, else axis 2.
pub open spec fn longest_of(sx: i64, sy: i64, sz: i64) -> int {
    if le(sy, sx) && le(sz, sx) {
        0
    } else if le(sz, sy) {
        1
    } else {
        2
    }
}

/// The rule of `longest_of`, on extents that are already measured.
pub fn pick_longest(sx: i64, sy: i64, sz: i64) -> (axis: i32)
    ensures
        axis == longest_of(sx, sy, sz),
{
    if less_eq(sy, sx) && less_eq(sz, sx) {
        return 0;
    }
    if less_eq(sz, sy) {
        return 1;
    }
    2
}

impl AABB {
    /// The range on axis `n`; every `n` other than 1 and 2 reads as axis 0.
    pub open spec fn axis(self, n: int) -> Interval {
        if n == 1 {
            self.y
        } else if n == 2 {
            self.z
        } else {
            self.x
        }
    }

    /// The smallest box that holds both `self` and `other`.
    pub open spec fn hull(self, other: AABB) -> AABB {
        AABB { x: self.x.hull(other.x), y: self.y.hull(other.y), z: self.z.hull(other.z) }
    }

    /// The box with `a` and `b` as opposite corners, in either order.
    pub open spec fn spanning(a: Vec3, b: Vec3) -> AABB {
        AABB {
            x: Interval { min: min_of(a.x, b.x), max: max_of(a.x, b.x) },
            y: Interval { min: min_of(a.y, b.y), max: max_of(a.y, b.y) },
            z: Interval { min: min_of(a.z, b.z), max: max_of(a.z, b.z) },
        }
    }

    /// `hit` is an answer of the slab test from axis `from` on: `slab` gives,
    /// for the range of the box on an axis and the ray's origin and direction
    /// on that axis, the two parameters at which the ray meets the planes of
    /// the slab. The test fails at the first axis that leaves nothing of
    /// `range`, and succeeds where all three axes leave something.
    pub open spec fn slab_test<F: Fn(&Interval, i64, i64) -> (i64, i64)>(
        self,
        ray: Ray,
        range: Interval,
        slab: &F,
        from: int,
        hit: bool,
    ) -> bool
        decreases 3 - from,
    {
        if from < 0 || from >= 3 {
            hit
        } else {
            exists|t0: i64, t1: i64|
                {
                    &&& #[trigger] call_ensures(
                        *slab,
                        (&self.axis(from), ray.origin.component(from), ray.direction.component(from)),
                        (t0, t1),
                    )
                    &&& if le(narrowed(range, t0, t1).max, narrowed(range, t0, t1).min) {
                        !hit
                    } else {
                        self.slab_test(ray, narrowed(range, t0, t1), slab, from + 1, hit)
                    }
                }
        }
    }

    /// `axis` is the longest axis of the box as `size` measures its ranges.
    pub open spec fn measures_longest<F: Fn(&Interval) -> i64>(self, size: &F, axis: int) -> bool {
        exists|sx: i64, sy: i64, sz: i64|
            {
                &&& call_ensures(*size, (&self.x,), sx)
                &&& call_ensures(*size, (&self.y,), sy)
                &&& call_ensures(*size, (&self.z,), sz)
                &&& axis == #[trigger] longest_of(sx, sy, sz)
            }
    }

    pub fn new(x: &Interval, y: &Interval, z: &Interval) -> (bbox: Self)
        ensures
            bbox == (AABB { x: *x, y: *y, z: *z }),
    {
        Self { x: *x, y: *y, z: *z }
    }

    pub fn empty() -> (bbox: Self)
        ensures
            bbox == empty(),
    {
        Self { x: Interval::empty(), y: Interval::empty(), z: Interval::empty() }
    }

    pub fn universe() -> (bbox: Self)
        ensures
            bbox == universe(),
    {
        Self { x: Interval::universe(), y: Interval::universe(), z: Interval::universe() }
    }

    pub fn new_from_points(a: &Vec3, b: &Vec3) -> (bbox: Self)
        ensures
            bbox == Self::spanning(*a, *b),
    {
        Self {
            x: Interval::new(minimum(a.x, b.x), maximum(a.x, b.x)),
            y: Interval::new(minimum(a.y, b.y), maximum(a.y, b.y)),
            z: Interval::new(minimum(a.z, b.z), maximum(a.z, b.z)),
        }
    }

    /// The box around a list of points: the extremes of the points on each
    /// axis, from infinity downwards and from minus infinity upwards, taken as
    /// the two corners.
    pub fn new_from_corners(points: &Vec<Vec3>) -> (bbox: Self)
        ensures
            bbox == Self::spanning(lowest(points@), highest(points@)),
    {
        let mut low = Vec3::new(INFINITY, INFINITY, INFINITY);
        let mut high = Vec3::new(NEG_INFINITY, NEG_INFINITY, NEG_INFINITY);
        let mut i: usize = 0;
        while i < points.len()
            invariant
                i <= points@.len(),
                low == lowest(points@.take(i as int)),
                high == highest(points@.take(i as int)),
            decreases points@.len() - i,
        {
            let p: Vec3 = points[i];
            assert(points@.take(i + 1).drop_last() =~= points@.take(i as int));
            low = Vec3::new(minimum(low.x, p.x), minimum(low.y, p.y), minimum(low.z, p.z));
            high = Vec3::new(maximum(high.x, p.x), maximum(high.y, p.y), maximum(high.z, p.z));
            i += 1;
        }
        assert(points@.take(points@.len() as int) =~= points@);
        Self::new_from_points(&low, &high)
    }

    pub fn new_from_children(a: &AABB, b: &AABB) -> (bbox: Self)
        ensures
            bbox == a.hull(*b),
    {
        Self {
            x: Interval::new_from_children(&a.x, &b.x),
            y: Interval::new_from_children(&a.y, &b.y),
            z: Interval::new_from_children(&a.z, &b.z),
        }
    }

    pub fn axis_interval(&self, n: i32) -> (interval: &Interval)
        ensures
            *interval == self.axis(n as int),
    {
        match n {
            1 => &self.y,
            2 => &self.z,
            _ => &self.x,
        }
    }

    /// Whether `ray` passes through the box somewhere within `ray_t`.
    pub fn hit<F: Fn(&Interval, i64, i64) -> (i64, i64)>(
        &self,
        ray: &Ray,
        ray_t: &Interval,
        slab: &F,
    ) -> (hit: bool)
        requires
            forall|interval: &Interval, origin: i64, direction: i64|
                call_requires(*slab, (interval, origin, direction)),
        ensures
            self.slab_test(*ray, *ray_t, slab, 0, hit),
    {
        self.hit_from(ray, ray_t, slab, 0)
    }

    fn hit_from<F: Fn(&Interval, i64, i64) -> (i64, i64)>(
        &self,
        ray: &Ray,
        range: &Interval,
        slab: &F,
        axis: i32,
    ) -> (hit: bool)
        requires
            0 <= axis <= 3,
            forall|interval: &Interval, origin: i64, direction: i64|
                call_requires(*slab, (interval, origin, direction)),
        ensures
            self.slab_test(*ray, *range, slab, axis as int, hit),
        decreases 3 - axis,
    {
        if axis >= 3 {
            return true;
        }
        let ax: &Interval = self.axis_interval(axis);
        let (t0, t1) = slab(ax, ray.origin.index(axis), ray.direction.index(axis));
        let left: Interval = narrow(range, t0, t1);
        if less_eq(left.max, left.min) {
            return false;
        }
        self.hit_from(ray, &left, slab, axis + 1)
    }

    /// The longest axis, the extent of each range being measured by `size`.
    pub fn longest_axis<F: Fn(&Interval) -> i64>(&self, size: &F) -> (axis: i32)
        requires
            forall|interval: &Interval| call_requires(*size, (interval,)),
        ensures
            0 <= axis <= 2,
            self.measures_longest(size, axis as int),
    {
        let sx: i64 = size(&self.x);
        let sy: i64 = size(&self.y);
        let sz: i64 = size(&self.z);
        let axis: i32 = pick_longest(sx, sy, sz);
        assert(axis == longest_of(sx, sy, sz));
        axis
    }
}

impl Default for AABB {
    fn default() -> (bbox: Self)
        ensures
            bbox == empty(),
    {
        Self::empty()
    }
}

} // verus!
