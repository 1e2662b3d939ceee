//! Media of constant density: a boundary filled with something that scatters
//! a ray at a random depth.

use vstd::prelude::*;
use crate::aabb::AABB;
use crate::hittable::{bounds, names_materials, steady, HitRecord, Hittable};
use crate::interval::Interval;
use crate::ray::Ray;
use crate::scalar::{le, less, less_eq, lt, INFINITY, ONE, ZERO};
use crate::vec3::Vec3;

verus! {

/// What the arithmetic of a medium gives for a ray on a stretch inside the
/// boundary: the length of the stretch, the length of the free path that was
/// drawn for the ray, and the parameter and the point at which that path
/// ends.
#[derive(Clone, Copy, Debug)]
pub struct FreePath {
    pub distance_inside: i64,
    pub hit_distance: i64,
    pub time: i64,
    pub point: Vec3,
}

/// A medium inside `boundary`, filled with the material `phase_function`.
///
/// The arithmetic of the medium is given by two functions. `past` gives, for
/// the parameter at which a ray enters the boundary, a parameter just past
/// it, from which the search for the exit starts. `sample` draws a free path
/// for a ray on the stretch between two parameters.
pub struct ConstantMedium<
    B: Hittable,
    P: Fn(i64) -> i64,
    S: Fn(&Ray, i64, i64) -> FreePath,
> {
    boundary: B,
    past: P,
    sample: S,
    phase_function: usize,
}

/// The stretch of the ray inside the medium that a query over `interval` has
/// to consider, the ray entering the boundary at `entry` and leaving it at
/// `exit`: both ends are brought into the interval; a stretch that then ends
/// at or before its start is nothing; and a start behind the ray's origin is
/// moved to the origin.
pub open spec fn stretch_within(interval: Interval, entry: i64, exit: i64) -> Option<(i64, i64)> {
    let from = if lt(entry, interval.min) {
        interval.min
    } else {
        entry
    };
    let to = if lt(interval.max, exit) {
        interval.max
    } else {
        exit
    };
    if le(to, from) {
        None
    } else if lt(from, ZERO) {
        Some((ZERO, to))
    } else {
        Some((from, to))
    }
}

pub fn clip_stretch(interval: &Interval, entry: i64, exit: i64) -> (stretch: Option<(i64, i64)>)
    ensures
        stretch == stretch_within(*interval, entry, exit),
{
    let mut from: i64 = entry;
    let mut to: i64 = exit;
    if less(from, interval.min) {
        from = interval.min;
    }
    if less(interval.max, to) {
        to = interval.max;
    }
    if less_eq(to, from) {
        return None;
    }
    if less(from, ZERO) {
        from = ZERO;
    }
    Some((from, to))
}

/// What becomes of a ray with the free path `path` in a medium of the
/// material `material`: a ray whose free path is longer than the stretch
/// inside the boundary gets through; any other is scattered where its path
/// ends, and the record of that place has the normal along the x axis, counts
/// as seen from outside, and names the material of the medium.
pub open spec fn scattered_at(path: FreePath, material: usize) -> Option<HitRecord> {
    if lt(path.distance_inside, path.hit_distance) {
        None
    } else {
        Some(
            HitRecord {
                point: path.point,
                normal: Vec3 { x: ONE, y: ZERO, z: ZERO },
                material,
                time: path.time,
                u: ZERO,
                v: ZERO,
                front_face: true,
            },
        )
    }
}

/// The range in which the exit is looked for: from `after` onwards.
pub open spec fn onwards(after: i64) -> Interval {
    Interval { min: after, max: INFINITY }
}

impl<B: Hittable, P: Fn(i64) -> i64, S: Fn(&Ray, i64, i64) -> FreePath> ConstantMedium<
    B,
    P,
    S,
> {
    #[verifier::type_invariant]
    spec fn callable(self) -> bool {
        &&& forall|t: i64| call_requires(self.past, (t,))
        &&& forall|ray: &Ray, from: i64, to: i64| call_requires(self.sample, (ray, from, to))
    }

    pub closed spec fn boundary(self) -> B {
        self.boundary
    }

    pub closed spec fn past(self) -> P {
        self.past
    }

    pub closed spec fn sample(self) -> S {
        self.sample
    }

    pub closed spec fn phase_function(self) -> usize {
        self.phase_function
    }

    /// `exit` is an answer of the boundary to the search for the place where
    /// `ray` leaves it, having entered it at `entry`: the search starts at a
    /// parameter that `past` gives for the parameter of the entry.
    pub open spec fn leaves(self, ray: Ray, entry: HitRecord, exit: Option<HitRecord>) -> bool {
        exists|after: i64| #[trigger]
            call_ensures(self.past(), (entry.time,), after) && call_ensures(
                B::hit,
                (&self.boundary(), &ray, &onwards(after)),
                exit,
            )
    }

    /// `found` is an answer of the medium to a query along `ray` over
    /// `interval`. Where the ray never enters the boundary, or never leaves
    /// it, or the stretch between the two is nothing within the interval, the
    /// answer is nothing. Otherwise it is what becomes of the ray with a free
    /// path that `sample` draws for the stretch.
    pub open spec fn answers(self, ray: Ray, interval: Interval, found: Option<HitRecord>) -> bool {
        ||| found is None && call_ensures(
            B::hit,
            (&self.boundary(), &ray, &crate::interval::universe()),
            None,
        )
        ||| exists|entry: HitRecord|
            {
                &&& #[trigger] call_ensures(
                    B::hit,
                    (&self.boundary(), &ray, &crate::interval::universe()),
                    Some(entry),
                )
                &&& found is None
                &&& self.leaves(ray, entry, None)
            }
        ||| exists|entry: HitRecord, exit: HitRecord|
            {
                &&& call_ensures(
                    B::hit,
                    (&self.boundary(), &ray, &crate::interval::universe()),
                    Some(entry),
                )
                &&& #[trigger] self.leaves(ray, entry, Some(exit))
                &&& match stretch_within(interval, entry.time, exit.time) {
                    Some((from, to)) => exists|path: FreePath| #[trigger]
                        call_ensures(self.sample(), (&ray, from, to), path) && found
                            == scattered_at(path, self.phase_function()),
                    None => found is None,
                }
            }
    }

    pub fn new(boundary: B, past: P, sample: S, phase_function: usize) -> (medium: Self)
        requires
            forall|t: i64| call_requires(past, (t,)),
            forall|ray: &Ray, from: i64, to: i64| call_requires(sample, (ray, from, to)),
        ensures
            medium.boundary() == boundary,
            medium.past() == past,
            medium.sample() == sample,
            medium.phase_function() == phase_function,
    {
        ConstantMedium { boundary, past, sample, phase_function }
    }
}

impl<B: Hittable, P: Fn(i64) -> i64, S: Fn(&Ray, i64, i64) -> FreePath> Hittable for ConstantMedium<
    B,
    P,
    S,
> {
    fn hit(&self, ray: &Ray, interval: &Interval) -> (found: Option<HitRecord>)
        ensures
            self.answers(*ray, *interval, found),
            found matches Some(record) ==> {
                &&& record.material == self.phase_function()
                &&& record.normal == (Vec3 { x: ONE, y: ZERO, z: ZERO })
                &&& record.front_face
            },
    {
        proof {
            use_type_invariant(self);
        }
        let entry: HitRecord = match self.boundary.hit(ray, &Interval::universe()) {
            Some(record) => record,
            None => {
                return None;
            },
        };
        let after: i64 = (self.past)(entry.time);
        let beyond = Interval::new(after, INFINITY);
        assert(beyond == onwards(after));
        assert(call_ensures(self.past(), (entry.time,), after));
        let exit: HitRecord = match self.boundary.hit(ray, &beyond) {
            Some(record) => record,
            None => {
                assert(self.leaves(*ray, entry, None));
                return None;
            },
        };
        assert(self.leaves(*ray, entry, Some(exit)));
        match clip_stretch(interval, entry.time, exit.time) {
            Some((from, to)) => {
                let path: FreePath = (self.sample)(ray, from, to);
                assert(call_ensures(self.sample(), (ray, from, to), path));
                if less(path.distance_inside, path.hit_distance) {
                    return None;
                }
                Some(
                    HitRecord {
                        point: path.point,
                        normal: Vec3 { x: ONE, y: ZERO, z: ZERO },
                        material: self.phase_function,
                        time: path.time,
                        u: ZERO,
                        v: ZERO,
                        front_face: true,
                    },
                )
            },
            None => None,
        }
    }

    /// The box of the boundary.
    fn bounding_box(&self) -> (bbox: AABB)
        ensures
            call_ensures(B::bounding_box, (&self.boundary(),), bbox),
    {
        self.boundary.bounding_box()
    }
}

/// Every record of a medium names the material that fills the medium.
pub proof fn lemma_medium_names_its_material<
    B: Hittable,
    P: Fn(i64) -> i64,
    S: Fn(&Ray, i64, i64) -> FreePath,
>(medium: ConstantMedium<B, P, S>, count: int)
    requires
        medium.phase_function() < count,
    ensures
        names_materials(medium, count),
{
}

/// A medium always gives the same box where its boundary does.
pub proof fn lemma_medium_is_steady<
    B: Hittable,
    P: Fn(i64) -> i64,
    S: Fn(&Ray, i64, i64) -> FreePath,
>(medium: ConstantMedium<B, P, S>)
    requires
        steady(medium.boundary()),
    ensures
        steady(medium),
{
    assert forall|bbox: AABB| #[trigger]
        call_ensures(ConstantMedium::<B, P, S>::bounding_box, (&medium,), bbox) implies bbox
        == bounds(medium) by {
        assert(call_ensures(B::bounding_box, (&medium.boundary(),), bbox));
        let chosen = bounds(medium);
        assert(call_ensures(ConstantMedium::<B, P, S>::bounding_box, (&medium,), chosen));
        assert(call_ensures(B::bounding_box, (&medium.boundary(),), chosen));
    }
}

} // verus!
