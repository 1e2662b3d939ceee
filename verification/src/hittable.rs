//! The surface contract: what a hit is, and which hit a query is owed.

use vstd::prelude::*;
use crate::aabb::AABB;
use crate::interval::Interval;
use crate::ray::Ray;
use crate::scalar::{le, less, lt, ZERO};
use crate::vec3::Vec3;

verus! {

/// What is known of the place where a ray meets a surface. `material` is the
/// index of the surface's material in the scene's table of materials; `time`
/// is the ray parameter of the hit.
#[derive(Clone, Copy, Debug)]
pub struct HitRecord {
    pub point: Vec3,
    pub normal: Vec3,
    pub material: usize,
    pub time: i64,
    pub u: i64,
    pub v: i64,
    pub front_face: bool,
}

/// What the arithmetic of a surface gives for a place on it: the point, the
/// normal that points away from the surface there, the dot product `facing`
/// of the ray's direction with that normal, and the texture coordinates.
#[derive(Clone, Copy, Debug)]
pub struct SurfacePoint {
    pub point: Vec3,
    pub outward_normal: Vec3,
    pub facing: i64,
    pub u: i64,
    pub v: i64,
}

impl HitRecord {
    /// The record of a hit at `place`, at the parameter `time`, on a surface
    /// of the material `material`: the normal is turned against the ray.
    pub open spec fn of(place: SurfacePoint, time: i64, material: usize) -> HitRecord {
        HitRecord {
            point: place.point,
            normal: Self::facing_normal(place.facing, place.outward_normal),
            material,
            time,
            u: place.u,
            v: place.v,
            front_face: lt(place.facing, ZERO),
        }
    }

    pub fn at(place: &SurfacePoint, time: i64, material: usize) -> (record: Self)
        ensures
            record == Self::of(*place, time, material),
    {
        let mut record = HitRecord {
            point: place.point,
            normal: place.outward_normal,
            material,
            time,
            u: place.u,
            v: place.v,
            front_face: false,
        };
        record.set_face_normal(place.facing, &place.outward_normal);
        record
    }

    /// The normal that opposes a ray whose direction has the dot product
    /// `facing` with `outward_normal`.
    pub open spec fn facing_normal(facing: i64, outward_normal: Vec3) -> Vec3 {
        if lt(facing, ZERO) {
            outward_normal
        } else {
            outward_normal.opposite()
        }
    }

    pub fn new(
        point: &Vec3,
        normal: &Vec3,
        material: usize,
        time: i64,
        u: i64,
        v: i64,
        front_face: bool,
    ) -> (record: Self)
        ensures
            record == (HitRecord {
                point: *point,
                normal: *normal,
                material,
                time,
                u,
                v,
                front_face,
            }),
    {
        Self { point: *point, normal: *normal, material, time, u, v, front_face }
    }

    /// Orients the normal against the incoming ray. `facing` is the dot
    /// product of the ray's direction with `outward_normal`: where it is
    /// negative the ray comes from outside and the outward normal stands;
    /// otherwise the normal is flipped.
    pub fn set_face_normal(&mut self, facing: i64, outward_normal: &Vec3)
        ensures
            final(self).front_face == lt(facing, ZERO),
            final(self).normal == Self::facing_normal(facing, *outward_normal),
            final(self).point == old(self).point,
            final(self).material == old(self).material,
            final(self).time == old(self).time,
            final(self).u == old(self).u,
            final(self).v == old(self).v,
    {
        self.front_face = less(facing, ZERO);
        self.normal = if self.front_face {
            *outward_normal
        } else {
            outward_normal.neg()
        };
    }
}

impl Default for HitRecord {
    fn default() -> (record: Self)
        ensures
            record == (HitRecord {
                point: Vec3 { x: ZERO, y: ZERO, z: ZERO },
                normal: Vec3 { x: ZERO, y: ZERO, z: ZERO },
                material: 0,
                time: ZERO,
                u: ZERO,
                v: ZERO,
                front_face: false,
            }),
    {
        Self {
            point: Vec3 { x: ZERO, y: ZERO, z: ZERO },
            normal: Vec3 { x: ZERO, y: ZERO, z: ZERO },
            material: 0,
            time: ZERO,
            u: ZERO,
            v: ZERO,
            front_face: false,
        }
    }
}

/// `found` is what a query over `interval` is owed by a surface that `ray`
/// meets at the parameters `crossings`: the nearest crossing strictly inside
/// the interval, or nothing where no crossing lies inside.
pub open spec fn nearest_crossing(
    crossings: Set<i64>,
    interval: Interval,
    found: Option<HitRecord>,
) -> bool {
    match found {
        Some(record) => {
            &&& crossings.contains(record.time)
            &&& interval.encloses(record.time)
            &&& forall|c: i64| #[trigger]
                crossings.contains(c) && interval.encloses(c) ==> le(record.time, c)
        },
        None => forall|c: i64| #[trigger] crossings.contains(c) ==> !interval.encloses(c),
    }
}

/// A surface that rays can hit.
///
/// `hit` reports the nearest place, strictly inside `interval`, at which the
/// ray meets the surface, if there is one; `bounding_box` gives a box within
/// which the surface lies. The trait itself promises nothing of either. What
/// the containers of this crate prove, they prove of surfaces that are
/// `faithful` and `steady`; those two predicates say what a surface has to do
/// for the proofs to apply to it.
pub trait Hittable {
    fn hit(&self, ray: &Ray, interval: &Interval) -> Option<HitRecord>;

    fn bounding_box(&self) -> AABB;
}

/// The parameters at which `ray` meets `object`: those that `hit` reports for
/// some interval.
pub open spec fn crossings<T: Hittable>(object: T, ray: Ray) -> Set<i64> {
    Set::new(
        |t: i64|
            exists|interval: Interval, record: HitRecord|
                record.time == t && #[trigger] call_ensures(
                    T::hit,
                    (&object, &ray, &interval),
                    Some(record),
                ),
    )
}

/// The record that `hit` reports for the crossing at parameter `t`.
pub open spec fn record_at<T: Hittable>(object: T, ray: Ray, t: i64) -> HitRecord {
    choose|record: HitRecord|
        record.time == t && exists|interval: Interval| #[trigger]
            call_ensures(T::hit, (&object, &ray, &interval), Some(record))
}

/// The box that `bounding_box` gives.
pub open spec fn bounds<T: Hittable>(object: T) -> AABB {
    choose|bbox: AABB| call_ensures(T::bounding_box, (&object,), bbox)
}

/// `object` answers every query along `ray` with its nearest crossing strictly
/// inside the interval of the query, or with nothing where no crossing lies
/// inside, and reports one record for each crossing.
pub open spec fn faithful<T: Hittable>(object: T, ray: Ray) -> bool {
    forall|interval: Interval, found: Option<HitRecord>| #[trigger]
        call_ensures(T::hit, (&object, &ray, &interval), found) ==> {
            &&& nearest_crossing(crossings(object, ray), interval, found)
            &&& found matches Some(record) ==> record == record_at(object, ray, record.time)
        }
}

/// `object` always gives the same box.
pub open spec fn steady<T: Hittable>(object: T) -> bool {
    forall|bbox: AABB| #[trigger]
        call_ensures(T::bounding_box, (&object,), bbox) ==> bbox == bounds(object)
}

/// A surface whose `bounding_box` can only give `bbox` is steady.
pub proof fn lemma_steady<T: Hittable>(object: T, bbox: AABB)
    requires
        forall|given: AABB| #[trigger]
            call_ensures(T::bounding_box, (&object,), given) ==> given == bbox,
    ensures
        steady(object),
{
}

/// Every surface of `objects[start..end]` is faithful along `ray`.
pub open spec fn all_faithful<T: Hittable>(objects: Seq<T>, start: int, end: int, ray: Ray) -> bool {
    forall|j: int| start <= j < end ==> faithful(#[trigger] objects[j], ray)
}

/// Every surface of `objects[start..end]` is steady.
pub open spec fn all_steady<T: Hittable>(objects: Seq<T>, start: int, end: int) -> bool {
    forall|j: int| start <= j < end ==> steady(#[trigger] objects[j])
}

/// Every record that `world` reports names one of the first `count`
/// materials of a table.
pub open spec fn names_materials<W: Hittable>(world: W, count: int) -> bool {
    forall|ray: Ray, interval: Interval, record: HitRecord| #[trigger]
        call_ensures(W::hit, (&world, &ray, &interval), Some(record)) ==> record.material < count
}

/// A surface moved by an offset.
///
/// The arithmetic of the move is given by two functions. `offset_ray` moves
/// a ray back by the offset, into the space of the surface; `restore` moves a
/// point forward by it. `bbox` is the box of the surface, moved forward.
pub struct Translate<T: Hittable, I: Fn(&Ray) -> Ray, O: Fn(&Vec3) -> Vec3> {
    object: T,
    offset_ray: I,
    restore: O,
    bbox: AABB,
}

impl<T: Hittable, I: Fn(&Ray) -> Ray, O: Fn(&Vec3) -> Vec3> Translate<T, I, O> {
    #[verifier::type_invariant]
    spec fn callable(self) -> bool {
        &&& forall|ray: &Ray| call_requires(self.offset_ray, (ray,))
        &&& forall|point: &Vec3| call_requires(self.restore, (point,))
    }

    pub closed spec fn object(self) -> T {
        self.object
    }

    pub closed spec fn offset_ray(self) -> I {
        self.offset_ray
    }

    pub closed spec fn restore(self) -> O {
        self.restore
    }

    pub closed spec fn bbox(self) -> AABB {
        self.bbox
    }

    /// `found` is what becomes of the answer `inner` of the surface: a miss
    /// stays a miss, and of a hit only the point changes, which `restore`
    /// moves.
    pub open spec fn restores(self, inner: Option<HitRecord>, found: Option<HitRecord>) -> bool {
        match inner {
            Some(record) => exists|point: Vec3| #[trigger]
                call_ensures(self.restore(), (&record.point,), point) && found == Some(
                    HitRecord { point, ..record },
                ),
            None => found is None,
        }
    }

    /// `found` is an answer of the moved surface to a query along `ray` over
    /// `interval`: the surface is asked along the ray that `offset_ray`
    /// gives, over the same interval.
    pub open spec fn answers(self, ray: Ray, interval: Interval, found: Option<HitRecord>) -> bool {
        exists|moved: Ray, inner: Option<HitRecord>|
            {
                &&& call_ensures(self.offset_ray(), (&ray,), moved)
                &&& #[trigger] call_ensures(T::hit, (&self.object(), &moved, &interval), inner)
                &&& self.restores(inner, found)
            }
    }

    pub fn new(object: T, offset_ray: I, restore: O, bbox: AABB) -> (moved: Self)
        requires
            forall|ray: &Ray| call_requires(offset_ray, (ray,)),
            forall|point: &Vec3| call_requires(restore, (point,)),
        ensures
            moved.object() == object,
            moved.offset_ray() == offset_ray,
            moved.restore() == restore,
            moved.bbox() == bbox,
    {
        Translate { object, offset_ray, restore, bbox }
    }
}

impl<T: Hittable, I: Fn(&Ray) -> Ray, O: Fn(&Vec3) -> Vec3> Hittable for Translate<T, I, O> {
    fn hit(&self, ray: &Ray, interval: &Interval) -> (found: Option<HitRecord>)
        ensures
            self.answers(*ray, *interval, found),
    {
        proof {
            use_type_invariant(self);
        }
        let offset_ray: Ray = (self.offset_ray)(ray);
        assert(call_ensures(self.offset_ray(), (ray,), offset_ray));
        let inner: Option<HitRecord> = self.object.hit(&offset_ray, interval);
        assert(call_ensures(T::hit, (&self.object(), &offset_ray, interval), inner));
        match inner {
            Some(record) => {
                let point: Vec3 = (self.restore)(&record.point);
                assert(call_ensures(self.restore(), (&record.point,), point));
                Some(HitRecord { point, ..record })
            },
            None => None,
        }
    }

    fn bounding_box(&self) -> (bbox: AABB)
        ensures
            bbox == self.bbox(),
    {
        self.bbox
    }
}

/// A moved surface names the materials that the surface names.
pub proof fn lemma_translate_names_materials<T: Hittable, I: Fn(&Ray) -> Ray, O: Fn(&Vec3) -> Vec3>(
    moved: Translate<T, I, O>,
    count: int,
)
    requires
        names_materials(moved.object(), count),
    ensures
        names_materials(moved, count),
{
    assert forall|ray: Ray, interval: Interval, record: HitRecord| #[trigger]
        call_ensures(Translate::<T, I, O>::hit, (&moved, &ray, &interval), Some(record)) implies record.material
        < count by {
        assert(moved.answers(ray, interval, Some(record)));
    }
}

/// A moved surface always gives the same box.
pub proof fn lemma_translate_is_steady<T: Hittable, I: Fn(&Ray) -> Ray, O: Fn(&Vec3) -> Vec3>(
    moved: Translate<T, I, O>,
)
    ensures
        steady(moved),
{
    lemma_steady(moved, moved.bbox());
}

/// A moved surface is faithful along a ray where the arithmetic of the move
/// is a function of its arguments, and the surface is faithful along what
/// `offset_ray` makes of the ray.
pub proof fn lemma_translate_is_faithful<T: Hittable, I: Fn(&Ray) -> Ray, O: Fn(&Vec3) -> Vec3>(
    moved: Translate<T, I, O>,
    ray: Ray,
    inner_ray: Ray,
)
    requires
        forall|other: Ray| #[trigger]
            call_ensures(moved.offset_ray(), (&ray,), other) ==> other == inner_ray,
        forall|point: Vec3, first: Vec3, second: Vec3|
            #![trigger call_ensures(moved.restore(), (&point,), first), call_ensures(moved.restore(), (&point,), second)]
            call_ensures(moved.restore(), (&point,), first) && call_ensures(
                moved.restore(),
                (&point,),
                second,
            ) ==> first == second,
        faithful(moved.object(), inner_ray),
    ensures
        faithful(moved, ray),
{
    let object = moved.object();
    assert forall|interval: Interval, found: Option<HitRecord>| #[trigger]
        call_ensures(Translate::<T, I, O>::hit, (&moved, &ray, &interval), found) implies {
        &&& nearest_crossing(crossings(moved, ray), interval, found)
        &&& found matches Some(record) ==> record == record_at(moved, ray, record.time)
    } by {
        assert(moved.answers(ray, interval, found));
        let (shifted, inner) = choose|shifted: Ray, inner: Option<HitRecord>|
            {
                &&& call_ensures(moved.offset_ray(), (&ray,), shifted)
                &&& #[trigger] call_ensures(T::hit, (&object, &shifted, &interval), inner)
                &&& moved.restores(inner, found)
            };
        assert(shifted == inner_ray);
        assert(nearest_crossing(crossings(object, inner_ray), interval, inner));
        assert forall|c: i64| #[trigger] crossings(moved, ray).contains(c) implies crossings(
            object,
            inner_ray,
        ).contains(c) by {
            let (other, told) = choose|other: Interval, told: HitRecord|
                told.time == c && #[trigger] call_ensures(
                    Translate::<T, I, O>::hit,
                    (&moved, &ray, &other),
                    Some(told),
                );
            assert(moved.answers(ray, other, Some(told)));
            let (again, within) = choose|again: Ray, within: Option<HitRecord>|
                {
                    &&& call_ensures(moved.offset_ray(), (&ray,), again)
                    &&& #[trigger] call_ensures(T::hit, (&object, &again, &other), within)
                    &&& moved.restores(within, Some(told))
                };
            assert(again == inner_ray);
            assert(within is Some && within.unwrap().time == c);
        }
        match found {
            Some(record) => {
                let t = record.time;
                assert(crossings(moved, ray).contains(t));
                let chosen = record_at(moved, ray, t);
                let other = choose|other: Interval| #[trigger]
                    call_ensures(Translate::<T, I, O>::hit, (&moved, &ray, &other), Some(chosen));
                assert(moved.answers(ray, other, Some(chosen)));
                let (again, within) = choose|again: Ray, within: Option<HitRecord>|
                    {
                        &&& call_ensures(moved.offset_ray(), (&ray,), again)
                        &&& #[trigger] call_ensures(T::hit, (&object, &again, &other), within)
                        &&& moved.restores(within, Some(chosen))
                    };
                assert(again == inner_ray);
                assert(within == Some(record_at(object, inner_ray, t)));
                assert(inner == Some(record_at(object, inner_ray, t)));
            },
            None => {},
        }
    }
}

/// A surface turned about the vertical axis.
///
/// The arithmetic of the turn is given by two functions. `turn_ray` turns a
/// ray into the space of the surface; `turn_back` turns a vector back into
/// the space of the scene. The box is the box around the corners of the
/// surface's box, turned back.
pub struct RotateY<T: Hittable, I: Fn(&Ray) -> Ray, O: Fn(&Vec3) -> Vec3> {
    object: T,
    turn_ray: I,
    turn_back: O,
    bbox: AABB,
}

impl<T: Hittable, I: Fn(&Ray) -> Ray, O: Fn(&Vec3) -> Vec3> RotateY<T, I, O> {
    #[verifier::type_invariant]
    spec fn callable(self) -> bool {
        &&& forall|ray: &Ray| call_requires(self.turn_ray, (ray,))
        &&& forall|v: &Vec3| call_requires(self.turn_back, (v,))
    }

    pub closed spec fn object(self) -> T {
        self.object
    }

    pub closed spec fn turn_ray(self) -> I {
        self.turn_ray
    }

    pub closed spec fn turn_back(self) -> O {
        self.turn_back
    }

    pub closed spec fn bbox(self) -> AABB {
        self.bbox
    }

    /// `found` is what becomes of the answer `inner` of the surface: a miss
    /// stays a miss, and of a hit the point and the normal change, which
    /// `turn_back` turns.
    pub open spec fn turns_back(self, inner: Option<HitRecord>, found: Option<HitRecord>) -> bool {
        match inner {
            Some(record) => exists|point: Vec3, normal: Vec3|
                {
                    &&& call_ensures(self.turn_back(), (&record.point,), point)
                    &&& call_ensures(self.turn_back(), (&record.normal,), normal)
                    &&& found == Some(#[trigger] with_place(record, point, normal))
                },
            None => found is None,
        }
    }

    /// `found` is an answer of the turned surface to a query along `ray` over
    /// `interval`: the surface is asked along the ray that `turn_ray` gives,
    /// over the same interval.
    pub open spec fn answers(self, ray: Ray, interval: Interval, found: Option<HitRecord>) -> bool {
        exists|turned: Ray, inner: Option<HitRecord>|
            {
                &&& call_ensures(self.turn_ray(), (&ray,), turned)
                &&& #[trigger] call_ensures(T::hit, (&self.object(), &turned, &interval), inner)
                &&& self.turns_back(inner, found)
            }
    }

    /// The turned surface; `corners` are the eight corners of the surface's
    /// box, turned back.
    pub fn new(object: T, turn_ray: I, turn_back: O, corners: &Vec<Vec3>) -> (turned: Self)
        requires
            forall|ray: &Ray| call_requires(turn_ray, (ray,)),
            forall|v: &Vec3| call_requires(turn_back, (v,)),
        ensures
            turned.object() == object,
            turned.turn_ray() == turn_ray,
            turned.turn_back() == turn_back,
            turned.bbox() == AABB::spanning(
                crate::aabb::lowest(corners@),
                crate::aabb::highest(corners@),
            ),
    {
        let bbox = AABB::new_from_corners(corners);
        RotateY { object, turn_ray, turn_back, bbox }
    }
}

/// `record` with another point and normal.
pub open spec fn with_place(record: HitRecord, point: Vec3, normal: Vec3) -> HitRecord {
    HitRecord { point, normal, ..record }
}

impl<T: Hittable, I: Fn(&Ray) -> Ray, O: Fn(&Vec3) -> Vec3> Hittable for RotateY<T, I, O> {
    fn hit(&self, ray: &Ray, interval: &Interval) -> (found: Option<HitRecord>)
        ensures
            self.answers(*ray, *interval, found),
    {
        proof {
            use_type_invariant(self);
        }
        let rotated_ray: Ray = (self.turn_ray)(ray);
        assert(call_ensures(self.turn_ray(), (ray,), rotated_ray));
        let inner: Option<HitRecord> = self.object.hit(&rotated_ray, interval);
        assert(call_ensures(T::hit, (&self.object(), &rotated_ray, interval), inner));
        match inner {
            Some(record) => {
                let point: Vec3 = (self.turn_back)(&record.point);
                let normal: Vec3 = (self.turn_back)(&record.normal);
                assert(call_ensures(self.turn_back(), (&record.point,), point));
                assert(call_ensures(self.turn_back(), (&record.normal,), normal));
                let found = HitRecord { point, normal, ..record };
                assert(found == with_place(record, point, normal));
                Some(found)
            },
            None => None,
        }
    }

    fn bounding_box(&self) -> (bbox: AABB)
        ensures
            bbox == self.bbox(),
    {
        self.bbox
    }
}

/// A turned surface names the materials that the surface names.
pub proof fn lemma_rotate_names_materials<T: Hittable, I: Fn(&Ray) -> Ray, O: Fn(&Vec3) -> Vec3>(
    turned: RotateY<T, I, O>,
    count: int,
)
    requires
        names_materials(turned.object(), count),
    ensures
        names_materials(turned, count),
{
    assert forall|ray: Ray, interval: Interval, record: HitRecord| #[trigger]
        call_ensures(RotateY::<T, I, O>::hit, (&turned, &ray, &interval), Some(record)) implies record.material
        < count by {
        assert(turned.answers(ray, interval, Some(record)));
    }
}

/// A turned surface always gives the same box.
pub proof fn lemma_rotate_is_steady<T: Hittable, I: Fn(&Ray) -> Ray, O: Fn(&Vec3) -> Vec3>(
    turned: RotateY<T, I, O>,
)
    ensures
        steady(turned),
{
    lemma_steady(turned, turned.bbox());
}

/// A turned surface is faithful along a ray where the arithmetic of the turn
/// is a function of its arguments, and the surface is faithful along what
/// `turn_ray` makes of the ray.
pub proof fn lemma_rotate_is_faithful<T: Hittable, I: Fn(&Ray) -> Ray, O: Fn(&Vec3) -> Vec3>(
    turned: RotateY<T, I, O>,
    ray: Ray,
    inner_ray: Ray,
)
    requires
        forall|other: Ray| #[trigger]
            call_ensures(turned.turn_ray(), (&ray,), other) ==> other == inner_ray,
        forall|v: Vec3, first: Vec3, second: Vec3|
            #![trigger call_ensures(turned.turn_back(), (&v,), first), call_ensures(turned.turn_back(), (&v,), second)]
            call_ensures(turned.turn_back(), (&v,), first) && call_ensures(
                turned.turn_back(),
                (&v,),
                second,
            ) ==> first == second,
        faithful(turned.object(), inner_ray),
    ensures
        faithful(turned, ray),
{
    let object = turned.object();
    assert forall|interval: Interval, found: Option<HitRecord>| #[trigger]
        call_ensures(RotateY::<T, I, O>::hit, (&turned, &ray, &interval), found) implies {
        &&& nearest_crossing(crossings(turned, ray), interval, found)
        &&& found matches Some(record) ==> record == record_at(turned, ray, record.time)
    } by {
        assert(turned.answers(ray, interval, found));
        let (rotated, inner) = choose|rotated: Ray, inner: Option<HitRecord>|
            {
                &&& call_ensures(turned.turn_ray(), (&ray,), rotated)
                &&& #[trigger] call_ensures(T::hit, (&object, &rotated, &interval), inner)
                &&& turned.turns_back(inner, found)
            };
        assert(rotated == inner_ray);
        assert(nearest_crossing(crossings(object, inner_ray), interval, inner));
        assert forall|c: i64| #[trigger] crossings(turned, ray).contains(c) implies crossings(
            object,
            inner_ray,
        ).contains(c) by {
            let (other, told) = choose|other: Interval, told: HitRecord|
                told.time == c && #[trigger] call_ensures(
                    RotateY::<T, I, O>::hit,
                    (&turned, &ray, &other),
                    Some(told),
                );
            assert(turned.answers(ray, other, Some(told)));
            let (again, within) = choose|again: Ray, within: Option<HitRecord>|
                {
                    &&& call_ensures(turned.turn_ray(), (&ray,), again)
                    &&& #[trigger] call_ensures(T::hit, (&object, &again, &other), within)
                    &&& turned.turns_back(within, Some(told))
                };
            assert(again == inner_ray);
            assert(within is Some && within.unwrap().time == c);
        }
        match found {
            Some(record) => {
                let t = record.time;
                assert(crossings(turned, ray).contains(t));
                let chosen = record_at(turned, ray, t);
                let other = choose|other: Interval| #[trigger]
                    call_ensures(RotateY::<T, I, O>::hit, (&turned, &ray, &other), Some(chosen));
                assert(turned.answers(ray, other, Some(chosen)));
                let (again, within) = choose|again: Ray, within: Option<HitRecord>|
                    {
                        &&& call_ensures(turned.turn_ray(), (&ray,), again)
                        &&& #[trigger] call_ensures(T::hit, (&object, &again, &other), within)
                        &&& turned.turns_back(within, Some(chosen))
                    };
                assert(again == inner_ray);
                assert(within == Some(record_at(object, inner_ray, t)));
                assert(inner == Some(record_at(object, inner_ray, t)));
            },
            None => {},
        }
    }
}

} // verus!
