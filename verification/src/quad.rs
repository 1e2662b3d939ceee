//! Parallelograms.

use vstd::prelude::*;
use crate::aabb::AABB;
use crate::hittable::{
    crossings, faithful, lemma_steady, names_materials, nearest_crossing, record_at, steady,
    HitRecord, Hittable, SurfacePoint,
};
use crate::hittable_list::HittableList;
use crate::interval::Interval;
use crate::ray::Ray;
use crate::scalar::{
    less, lt, magnitude, magnitude_of, max_of, maximum, min_of, minimum, ONE, TINY, ZERO,
};
use crate::vec3::Vec3;

verus! {

/// A parallelogram.
///
/// The arithmetic of the parallelogram is given by two functions. `plane`
/// gives, for a ray, the dot product of its direction with the normal of the
/// plane, and the parameter at which the ray meets the plane. `place` gives
/// what is at a parameter of a ray, the texture coordinates being the planar
/// coordinates of the point along the two edges.
pub struct Quad<L: Fn(&Ray) -> (i64, i64), P: Fn(&Ray, i64) -> SurfacePoint> {
    plane: L,
    place: P,
    material: usize,
    bbox: AABB,
}

/// The range of the planar coordinates of the points of a parallelogram.
pub open spec fn unit() -> Interval {
    Interval { min: ZERO, max: ONE }
}

/// The box of the parallelogram with the corner `q` and the corners `qu` and
/// `qv` next to it, `quv` lying opposite `q`: the hull of the boxes of its two
/// diagonals.
pub open spec fn corner_box(q: Vec3, qu: Vec3, qv: Vec3, quv: Vec3) -> AABB {
    AABB::spanning(q, quv).hull(AABB::spanning(qu, qv))
}

/// A ray whose direction has the dot product `denom` with the plane's normal
/// runs so nearly along the plane that it counts as missing it.
pub fn nearly_parallel(denom: i64) -> (yes: bool)
    ensures
        yes == lt(magnitude_of(denom), TINY),
{
    less(magnitude(denom), TINY)
}

/// Whether the point with the planar coordinates `a` and `b` lies in the
/// parallelogram, edges included. Where it does, the coordinates become the
/// texture coordinates of the record; where it does not, the record is left
/// as it was.
pub fn is_interior(a: i64, b: i64, record: &mut HitRecord) -> (inside: bool)
    ensures
        inside == (unit().holds(a) && unit().holds(b)),
        inside ==> *final(record) == (HitRecord { u: a, v: b, ..*old(record) }),
        !inside ==> *final(record) == *old(record),
{
    let unit_interval = Interval::new(ZERO, ONE);
    if !unit_interval.contains(a) || !unit_interval.contains(b) {
        return false;
    }
    record.u = a;
    record.v = b;
    true
}

impl<L: Fn(&Ray) -> (i64, i64), P: Fn(&Ray, i64) -> SurfacePoint> Quad<L, P> {
    #[verifier::type_invariant]
    spec fn callable(self) -> bool {
        &&& forall|ray: &Ray| call_requires(self.plane, (ray,))
        &&& forall|ray: &Ray, t: i64| call_requires(self.place, (ray, t))
    }

    pub closed spec fn plane(self) -> L {
        self.plane
    }

    pub closed spec fn place(self) -> P {
        self.place
    }

    pub closed spec fn material(self) -> usize {
        self.material
    }

    pub closed spec fn bbox(self) -> AABB {
        self.bbox
    }

    /// `found` is an answer of the parallelogram to a query along `ray` over
    /// `interval`, `plane` having given `met`: a ray that runs nearly along
    /// the plane misses, and so does one that does not meet the plane
    /// strictly inside the interval, or meets it outside the parallelogram.
    /// Otherwise the answer is the record of the place where the ray meets
    /// the plane.
    pub open spec fn answers_with(
        self,
        ray: Ray,
        interval: Interval,
        met: (i64, i64),
        found: Option<HitRecord>,
    ) -> bool {
        if lt(magnitude_of(met.0), TINY) || !interval.encloses(met.1) {
            found is None
        } else {
            exists|place: SurfacePoint| #[trigger]
                call_ensures(self.place(), (&ray, met.1), place) && found == (if unit().holds(
                    place.u,
                ) && unit().holds(place.v) {
                    Some(HitRecord::of(place, met.1, self.material()))
                } else {
                    None
                })
        }
    }

    /// `found` is an answer of the parallelogram to a query along `ray` over
    /// `interval`.
    pub open spec fn answers(self, ray: Ray, interval: Interval, found: Option<HitRecord>) -> bool {
        exists|met: (i64, i64)| #[trigger]
            call_ensures(self.plane(), (&ray,), met) && self.answers_with(ray, interval, met, found)
    }

    /// For `ray`, `plane` and `place` are functions of their arguments.
    pub open spec fn settled(self, ray: Ray) -> bool {
        &&& forall|first: (i64, i64), second: (i64, i64)|
            #![trigger call_ensures(self.plane(), (&ray,), first), call_ensures(self.plane(), (&ray,), second)]
            call_ensures(self.plane(), (&ray,), first) && call_ensures(
                self.plane(),
                (&ray,),
                second,
            ) ==> first == second
        &&& forall|t: i64, first: SurfacePoint, second: SurfacePoint|
            #![trigger call_ensures(self.place(), (&ray, t), first), call_ensures(self.place(), (&ray, t), second)]
            call_ensures(self.place(), (&ray, t), first) && call_ensures(
                self.place(),
                (&ray, t),
                second,
            ) ==> first == second
    }

    /// The parallelogram with the corner `q`, the corners `qu` and `qv` next
    /// to it, and `quv` opposite `q`.
    pub fn new(
        plane: L,
        place: P,
        material: usize,
        q: &Vec3,
        qu: &Vec3,
        qv: &Vec3,
        quv: &Vec3,
    ) -> (quad: Self)
        requires
            forall|ray: &Ray| call_requires(plane, (ray,)),
            forall|ray: &Ray, t: i64| call_requires(place, (ray, t)),
        ensures
            quad.plane() == plane,
            quad.place() == place,
            quad.material() == material,
            quad.bbox() == corner_box(*q, *qu, *qv, *quv),
    {
        let mut result = Quad { plane, place, material, bbox: AABB::empty() };
        result.set_bounding_box(q, qu, qv, quv);
        result
    }

    /// Sets the box to that of the corners.
    pub fn set_bounding_box(&mut self, q: &Vec3, qu: &Vec3, qv: &Vec3, quv: &Vec3)
        ensures
            final(self).bbox() == corner_box(*q, *qu, *qv, *quv),
            final(self).plane() == old(self).plane(),
            final(self).place() == old(self).place(),
            final(self).material() == old(self).material(),
    {
        proof {
            use_type_invariant(&*self);
        }
        let bbox_diag1 = AABB::new_from_points(q, quv);
        let bbox_diag2 = AABB::new_from_points(qu, qv);
        self.bbox = AABB::new_from_children(&bbox_diag1, &bbox_diag2);
    }
}

impl<L: Fn(&Ray) -> (i64, i64), P: Fn(&Ray, i64) -> SurfacePoint> Hittable for Quad<L, P> {
    fn hit(&self, ray: &Ray, interval: &Interval) -> (found: Option<HitRecord>)
        ensures
            self.answers(*ray, *interval, found),
    {
        proof {
            use_type_invariant(self);
        }
        let met: (i64, i64) = (self.plane)(ray);
        assert(call_ensures(self.plane(), (ray,), met));
        if nearly_parallel(met.0) {
            return None;
        }
        if !interval.surrounds(met.1) {
            return None;
        }
        let place: SurfacePoint = (self.place)(ray, met.1);
        assert(call_ensures(self.place(), (ray, met.1), place));
        let mut record = HitRecord::at(&place, met.1, self.material);
        if !is_interior(place.u, place.v, &mut record) {
            return None;
        }
        Some(record)
    }

    fn bounding_box(&self) -> (bbox: AABB)
        ensures
            bbox == self.bbox(),
    {
        self.bbox
    }
}

/// The corner and the two edges of each of the six faces of the box between
/// the corners `min` and `max`, whose extents along the axes are `sx`, `sy`
/// and `sz`: front, right, back, left, top and bottom.
pub open spec fn box_faces(min: Vec3, max: Vec3, sx: i64, sy: i64, sz: i64) -> Seq<
    (Vec3, Vec3, Vec3),
> {
    let dx = Vec3 { x: sx, y: ZERO, z: ZERO };
    let dy = Vec3 { x: ZERO, y: sy, z: ZERO };
    let dz = Vec3 { x: ZERO, y: ZERO, z: sz };
    seq![
        (Vec3 { x: min.x, y: min.y, z: max.z }, dx, dy),
        (Vec3 { x: max.x, y: min.y, z: max.z }, dz.opposite(), dy),
        (Vec3 { x: max.x, y: min.y, z: min.z }, dx.opposite(), dy),
        (Vec3 { x: min.x, y: min.y, z: min.z }, dz, dy),
        (Vec3 { x: min.x, y: max.y, z: max.z }, dx, dz.opposite()),
        (Vec3 { x: min.x, y: min.y, z: min.z }, dx, dz),
    ]
}

/// `sides` holds the six faces of the box between `min` and `max`, each as
/// `quad` makes it of its corner, its two edges and `material`, the edges
/// being as long as `size` measures the box along the axes.
pub open spec fn is_box<S: Fn(&Interval) -> i64, Q, K: Fn(&Vec3, &Vec3, &Vec3, usize) -> Q>(
    min: Vec3,
    max: Vec3,
    material: usize,
    size: &S,
    quad: &K,
    sides: Seq<Q>,
) -> bool {
    exists|sx: i64, sy: i64, sz: i64|
        {
            &&& call_ensures(*size, (&Interval { min: min.x, max: max.x },), sx)
            &&& call_ensures(*size, (&Interval { min: min.y, max: max.y },), sy)
            &&& call_ensures(*size, (&Interval { min: min.z, max: max.z },), sz)
            &&& sides.len() == 6
            &&& forall|k: int|
                0 <= k < 6 ==> call_ensures(
                    *quad,
                    (
                        &(#[trigger] box_faces(min, max, sx, sy, sz)[k]).0,
                        &box_faces(min, max, sx, sy, sz)[k].1,
                        &box_faces(min, max, sx, sy, sz)[k].2,
                        material,
                    ),
                    sides[k],
                )
        }
}

/// The box with the opposite corners `a` and `b`, in either order: six
/// parallelograms of one material, one for each face. `size` measures the
/// extent of a range, and `quad` makes the parallelogram with a corner, two
/// edges and a material.
pub fn make_box<S: Fn(&Interval) -> i64, Q: Hittable, K: Fn(&Vec3, &Vec3, &Vec3, usize) -> Q>(
    a: &Vec3,
    b: &Vec3,
    material: usize,
    size: &S,
    quad: &K,
) -> (sides: HittableList<Q>)
    requires
        forall|interval: &Interval| call_requires(*size, (interval,)),
        forall|q: &Vec3, u: &Vec3, v: &Vec3, m: usize| call_requires(*quad, (q, u, v, m)),
    ensures
        is_box(
            Vec3 { x: min_of(a.x, b.x), y: min_of(a.y, b.y), z: min_of(a.z, b.z) },
            Vec3 { x: max_of(a.x, b.x), y: max_of(a.y, b.y), z: max_of(a.z, b.z) },
            material,
            size,
            quad,
            sides.objects@,
        ),
{
    let mut sides: HittableList<Q> = HittableList::default();
    let min = Vec3::new(minimum(a.x, b.x), minimum(a.y, b.y), minimum(a.z, b.z));
    let max = Vec3::new(maximum(a.x, b.x), maximum(a.y, b.y), maximum(a.z, b.z));
    let sx: i64 = size(&Interval::new(min.x, max.x));
    let sy: i64 = size(&Interval::new(min.y, max.y));
    let sz: i64 = size(&Interval::new(min.z, max.z));
    let dx = Vec3::new(sx, ZERO, ZERO);
    let dy = Vec3::new(ZERO, sy, ZERO);
    let dz = Vec3::new(ZERO, ZERO, sz);
    let ghost faces = box_faces(min, max, sx, sy, sz);
    sides.add(quad(&Vec3::new(min.x, min.y, max.z), &dx, &dy, material));
    sides.add(quad(&Vec3::new(max.x, min.y, max.z), &dz.neg(), &dy, material));
    sides.add(quad(&Vec3::new(max.x, min.y, min.z), &dx.neg(), &dy, material));
    sides.add(quad(&Vec3::new(min.x, min.y, min.z), &dz, &dy, material));
    sides.add(quad(&Vec3::new(min.x, max.y, max.z), &dx, &dz.neg(), material));
    sides.add(quad(&Vec3::new(min.x, min.y, min.z), &dx, &dz, material));
    assert forall|k: int| 0 <= k < 6 implies call_ensures(
        *quad,
        (&(#[trigger] faces[k]).0, &faces[k].1, &faces[k].2, material),
        sides.objects@[k],
    ) by {
        if k == 0 {
        } else if k == 1 {
        } else if k == 2 {
        } else if k == 3 {
        } else if k == 4 {
        } else {
        }
    }
    sides
}

/// Every record of a parallelogram names the material of the parallelogram.
pub proof fn lemma_quad_names_its_material<
    L: Fn(&Ray) -> (i64, i64),
    P: Fn(&Ray, i64) -> SurfacePoint,
>(quad: Quad<L, P>, count: int)
    requires
        quad.material() < count,
    ensures
        names_materials(quad, count),
{
    assert forall|ray: Ray, interval: Interval, record: HitRecord| #[trigger]
        call_ensures(Quad::<L, P>::hit, (&quad, &ray, &interval), Some(record)) implies record.material
        < count by {
        assert(quad.answers(ray, interval, Some(record)));
    }
}

/// A parallelogram whose arithmetic is settled for a ray is faithful along
/// it: the containers' guarantees hold of scenes of such parallelograms.
pub proof fn lemma_quad_is_faithful<L: Fn(&Ray) -> (i64, i64), P: Fn(&Ray, i64) -> SurfacePoint>(
    quad: Quad<L, P>,
    ray: Ray,
)
    requires
        quad.settled(ray),
    ensures
        faithful(quad, ray),
{
    assert forall|interval: Interval, found: Option<HitRecord>| #[trigger]
        call_ensures(Quad::<L, P>::hit, (&quad, &ray, &interval), found) implies {
        &&& nearest_crossing(crossings(quad, ray), interval, found)
        &&& found matches Some(record) ==> record == record_at(quad, ray, record.time)
    } by {
        assert(quad.answers(ray, interval, found));
        let met = choose|met: (i64, i64)| #[trigger]
            call_ensures(quad.plane(), (&ray,), met) && quad.answers_with(
                ray,
                interval,
                met,
                found,
            );
        assert forall|c: i64| #[trigger] crossings(quad, ray).contains(c) implies c == met.1
            && exists|place: SurfacePoint| #[trigger]
            call_ensures(quad.place(), (&ray, met.1), place) && unit().holds(place.u)
                && unit().holds(place.v) && !lt(magnitude_of(met.0), TINY) by {
            let (other, told) = choose|other: Interval, told: HitRecord|
                told.time == c && #[trigger] call_ensures(
                    Quad::<L, P>::hit,
                    (&quad, &ray, &other),
                    Some(told),
                );
            assert(quad.answers(ray, other, Some(told)));
            let again = choose|again: (i64, i64)| #[trigger]
                call_ensures(quad.plane(), (&ray,), again) && quad.answers_with(
                    ray,
                    other,
                    again,
                    Some(told),
                );
            assert(again == met);
        }
        match found {
            Some(record) => {
                let t = record.time;
                assert(crossings(quad, ray).contains(t));
                let chosen = record_at(quad, ray, t);
                let other = choose|other: Interval| #[trigger]
                    call_ensures(Quad::<L, P>::hit, (&quad, &ray, &other), Some(chosen));
                assert(quad.answers(ray, other, Some(chosen)));
                let again = choose|again: (i64, i64)| #[trigger]
                    call_ensures(quad.plane(), (&ray,), again) && quad.answers_with(
                        ray,
                        other,
                        again,
                        Some(chosen),
                    );
                assert(again == met);
            },
            None => {
                assert forall|c: i64| #[trigger] crossings(quad, ray).contains(c) implies !interval.encloses(
                    c,
                ) by {
                    if interval.encloses(c) {
                        let there = choose|place: SurfacePoint| #[trigger]
                            call_ensures(quad.place(), (&ray, met.1), place) && unit().holds(
                                place.u,
                            ) && unit().holds(place.v) && !lt(magnitude_of(met.0), TINY);
                        let here = choose|place: SurfacePoint| #[trigger]
                            call_ensures(quad.place(), (&ray, met.1), place) && found == (if unit().holds(
                                place.u,
                            ) && unit().holds(place.v) {
                                Some(HitRecord::of(place, met.1, quad.material()))
                            } else {
                                None
                            });
                        assert(here == there);
                    }
                }
            },
        }
    }
}

/// A parallelogram always gives the same box.
pub proof fn lemma_quad_is_steady<L: Fn(&Ray) -> (i64, i64), P: Fn(&Ray, i64) -> SurfacePoint>(
    quad: Quad<L, P>,
)
    ensures
        steady(quad),
{
    lemma_steady(quad, quad.bbox());
}

} // verus!
