//! Spheres.

use vstd::prelude::*;
use crate::aabb::AABB;
use crate::hittable::{
    crossings, faithful, lemma_steady, names_materials, nearest_crossing, record_at, steady,
    HitRecord, Hittable, SurfacePoint,
};
use crate::interval::Interval;
use crate::ray::Ray;
use crate::scalar::{less, lt, max_of, maximum, ZERO};
use crate::vec3::Vec3;

verus! {

/// A sphere, still or moving.
///
/// The arithmetic of the sphere is given by two functions. `solve` gives,
/// for a ray, the discriminant of the quadratic of the ray against the sphere
/// and its two roots, the smaller first. `place` gives what is at the root of
/// a ray. `material` names the sphere's material, and the box bounds the
/// sphere for all the moments at which a ray may be cast.
pub struct Sphere<R: Fn(&Ray) -> (i64, i64, i64), P: Fn(&Ray, i64) -> SurfacePoint> {
    solve: R,
    place: P,
    material: usize,
    bbox: AABB,
}

/// The root that a query over `interval` is owed, `near` being the smaller
/// and `far` the larger root of the ray against the sphere: the smaller where
/// it lies strictly inside the interval, else the larger where that one does,
/// else none.
pub open spec fn root_within(interval: Interval, near: i64, far: i64) -> Option<i64> {
    if interval.encloses(near) {
        Some(near)
    } else if interval.encloses(far) {
        Some(far)
    } else {
        None
    }
}

/// The box of a sphere in motion: the hull of its box at the moment zero,
/// between the corners `low0` and `high0`, and of its box at the moment one,
/// between the corners `low1` and `high1`.
pub open spec fn motion_box(low0: Vec3, high0: Vec3, low1: Vec3, high1: Vec3) -> AABB {
    AABB::spanning(low0, high0).hull(AABB::spanning(low1, high1))
}

/// The radius of a sphere: a radius below zero counts as zero.
pub fn clamp_radius(radius: i64) -> (clamped: i64)
    ensures
        clamped == max_of(radius, ZERO),
{
    maximum(radius, ZERO)
}

pub fn nearest_root(interval: &Interval, near: i64, far: i64) -> (root: Option<i64>)
    ensures
        root == root_within(*interval, near, far),
{
    if interval.surrounds(near) {
        Some(near)
    } else if interval.surrounds(far) {
        Some(far)
    } else {
        None
    }
}

impl<R: Fn(&Ray) -> (i64, i64, i64), P: Fn(&Ray, i64) -> SurfacePoint> Sphere<R, P> {
    #[verifier::type_invariant]
    spec fn callable(self) -> bool {
        &&& forall|ray: &Ray| call_requires(self.solve, (ray,))
        &&& forall|ray: &Ray, root: i64| call_requires(self.place, (ray, root))
    }

    pub closed spec fn solve(self) -> R {
        self.solve
    }

    pub closed spec fn place(self) -> P {
        self.place
    }

    pub closed spec fn material(self) -> usize {
        self.material
    }

    pub closed spec fn bbox(self) -> AABB {
        self.bbox
    }

    /// `found` is an answer of the sphere to a query along `ray` over
    /// `interval`, `solve` having given the discriminant and the roots: a
    /// negative discriminant means that the ray passes the sphere by. Otherwise
    /// the answer is the record of the place at the root that the query is
    /// owed, or nothing where it is owed none.
    pub open spec fn answers_with(
        self,
        ray: Ray,
        interval: Interval,
        solved: (i64, i64, i64),
        found: Option<HitRecord>,
    ) -> bool {
        if lt(solved.0, ZERO) {
            found is None
        } else {
            match root_within(interval, solved.1, solved.2) {
                Some(root) => exists|place: SurfacePoint| #[trigger]
                    call_ensures(self.place(), (&ray, root), place) && found == Some(
                        HitRecord::of(place, root, self.material()),
                    ),
                None => found is None,
            }
        }
    }

    /// `found` is an answer of the sphere to a query along `ray` over
    /// `interval`.
    pub open spec fn answers(self, ray: Ray, interval: Interval, found: Option<HitRecord>) -> bool {
        exists|solved: (i64, i64, i64)| #[trigger]
            call_ensures(self.solve(), (&ray,), solved) && self.answers_with(
                ray,
                interval,
                solved,
                found,
            )
    }

    /// For `ray`, `solve` and `place` are functions of their arguments, and
    /// `solve` gives the larger root second.
    pub open spec fn settled(self, ray: Ray) -> bool {
        &&& forall|first: (i64, i64, i64), second: (i64, i64, i64)|
            #![trigger call_ensures(self.solve(), (&ray,), first), call_ensures(self.solve(), (&ray,), second)]
            call_ensures(self.solve(), (&ray,), first) && call_ensures(
                self.solve(),
                (&ray,),
                second,
            ) ==> first == second
        &&& forall|root: i64, first: SurfacePoint, second: SurfacePoint|
            #![trigger call_ensures(self.place(), (&ray, root), first), call_ensures(self.place(), (&ray, root), second)]
            call_ensures(self.place(), (&ray, root), first) && call_ensures(
                self.place(),
                (&ray, root),
                second,
            ) ==> first == second
        &&& forall|solved: (i64, i64, i64)| #[trigger]
            call_ensures(self.solve(), (&ray,), solved) ==> !lt(solved.2, solved.1)
    }

    /// The sphere whose box at the moment zero has the opposite corners
    /// `low0` and `high0`, and at the moment one the opposite corners `low1`
    /// and `high1`. Its box holds both.
    pub fn new(
        solve: R,
        place: P,
        material: usize,
        low0: &Vec3,
        high0: &Vec3,
        low1: &Vec3,
        high1: &Vec3,
    ) -> (sphere: Self)
        requires
            forall|ray: &Ray| call_requires(solve, (ray,)),
            forall|ray: &Ray, root: i64| call_requires(place, (ray, root)),
        ensures
            sphere.solve() == solve,
            sphere.place() == place,
            sphere.material() == material,
            sphere.bbox() == motion_box(*low0, *high0, *low1, *high1),
    {
        let box1 = AABB::new_from_points(low0, high0);
        let box2 = AABB::new_from_points(low1, high1);
        Sphere { solve, place, material, bbox: AABB::new_from_children(&box1, &box2) }
    }
}

impl<R: Fn(&Ray) -> (i64, i64, i64), P: Fn(&Ray, i64) -> SurfacePoint> Hittable for Sphere<R, P> {
    fn hit(&self, ray: &Ray, interval: &Interval) -> (found: Option<HitRecord>)
        ensures
            self.answers(*ray, *interval, found),
    {
        proof {
            use_type_invariant(self);
        }
        let solved: (i64, i64, i64) = (self.solve)(ray);
        assert(call_ensures(self.solve(), (ray,), solved));
        if less(solved.0, ZERO) {
            return None;
        }
        match nearest_root(interval, solved.1, solved.2) {
            Some(root) => {
                let place: SurfacePoint = (self.place)(ray, root);
                assert(call_ensures(self.place(), (ray, root), place));
                Some(HitRecord::at(&place, root, self.material))
            },
            None => None,
        }
    }

    fn bounding_box(&self) -> (bbox: AABB)
        ensures
            bbox == self.bbox(),
    {
        self.bbox
    }
}

/// A sphere always gives the same box.
pub proof fn lemma_sphere_is_steady<R: Fn(&Ray) -> (i64, i64, i64), P: Fn(&Ray, i64) -> SurfacePoint>(
    sphere: Sphere<R, P>,
)
    ensures
        steady(sphere),
{
    lemma_steady(sphere, sphere.bbox());
}

/// Every record of a sphere names the material of the sphere.
pub proof fn lemma_sphere_names_its_material<
    R: Fn(&Ray) -> (i64, i64, i64),
    P: Fn(&Ray, i64) -> SurfacePoint,
>(sphere: Sphere<R, P>, count: int)
    requires
        sphere.material() < count,
    ensures
        names_materials(sphere, count),
{
    assert forall|ray: Ray, interval: Interval, record: HitRecord| #[trigger]
        call_ensures(Sphere::<R, P>::hit, (&sphere, &ray, &interval), Some(record)) implies record.material
        < count by {
        assert(sphere.answers(ray, interval, Some(record)));
    }
}

/// A sphere whose arithmetic is settled for a ray is faithful along it: the
/// containers' guarantees hold of scenes of such spheres.
pub proof fn lemma_sphere_is_faithful<R: Fn(&Ray) -> (i64, i64, i64), P: Fn(&Ray, i64) -> SurfacePoint>(
    sphere: Sphere<R, P>,
    ray: Ray,
)
    requires
        sphere.settled(ray),
    ensures
        faithful(sphere, ray),
{
    assert forall|interval: Interval, found: Option<HitRecord>| #[trigger]
        call_ensures(Sphere::<R, P>::hit, (&sphere, &ray, &interval), found) implies {
        &&& nearest_crossing(crossings(sphere, ray), interval, found)
        &&& found matches Some(record) ==> record == record_at(sphere, ray, record.time)
    } by {
        assert(sphere.answers(ray, interval, found));
        let solved = choose|solved: (i64, i64, i64)| #[trigger]
            call_ensures(sphere.solve(), (&ray,), solved) && sphere.answers_with(
                ray,
                interval,
                solved,
                found,
            );
        assert forall|c: i64| #[trigger] crossings(sphere, ray).contains(c) implies !lt(
            solved.0,
            ZERO,
        ) && (c == solved.1 || c == solved.2) by {
            let (other, told) = choose|other: Interval, told: HitRecord|
                told.time == c && #[trigger] call_ensures(
                    Sphere::<R, P>::hit,
                    (&sphere, &ray, &other),
                    Some(told),
                );
            assert(sphere.answers(ray, other, Some(told)));
            let again = choose|again: (i64, i64, i64)| #[trigger]
                call_ensures(sphere.solve(), (&ray,), again) && sphere.answers_with(
                    ray,
                    other,
                    again,
                    Some(told),
                );
            assert(again == solved);
        }
        match found {
            Some(record) => {
                let t = record.time;
                assert(crossings(sphere, ray).contains(t));
                let chosen = record_at(sphere, ray, t);
                let other = choose|other: Interval| #[trigger]
                    call_ensures(Sphere::<R, P>::hit, (&sphere, &ray, &other), Some(chosen));
                assert(sphere.answers(ray, other, Some(chosen)));
                let again = choose|again: (i64, i64, i64)| #[trigger]
                    call_ensures(sphere.solve(), (&ray,), again) && sphere.answers_with(
                        ray,
                        other,
                        again,
                        Some(chosen),
                    );
                assert(again == solved);
                let here = choose|place: SurfacePoint| #[trigger]
                    call_ensures(sphere.place(), (&ray, t), place) && found == Some(
                        HitRecord::of(place, t, sphere.material()),
                    );
                let there = choose|place: SurfacePoint| #[trigger]
                    call_ensures(
                        sphere.place(),
                        (&ray, root_within(other, solved.1, solved.2).unwrap()),
                        place,
                    ) && Some(chosen) == Some(
                        HitRecord::of(
                            place,
                            root_within(other, solved.1, solved.2).unwrap(),
                            sphere.material(),
                        ),
                    );
                assert(here == there);
            },
            None => {},
        }
    }
}

} // verus!
