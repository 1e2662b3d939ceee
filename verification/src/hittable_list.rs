//! The aggregate: a list of surfaces that answers by scanning its members.

use vstd::prelude::*;
use crate::aabb::AABB;
use crate::hittable::{
    all_faithful, faithful, lemma_steady, names_materials, steady, HitRecord, Hittable,
};
use crate::interval::Interval;
use crate::ray::Ray;
use crate::scan::{
    lemma_scan_is_faithful, lemma_scan_step, nearer_than, replaced_by, scan_outcome, scanned,
};

verus! {

/// Surfaces in the order in which they were added, with a box that has grown
/// with every addition. Clearing the list, or changing `objects` directly,
/// leaves the box as it was.
pub struct HittableList<T> {
    pub objects: Vec<T>,
    pub bbox: AABB,
}

impl<T: Hittable> HittableList<T> {
    /// A list of one surface.
    pub fn new(object: T) -> (list: Self)
        ensures
            list.objects@ == seq![object],
            exists|object_box: AABB| #[trigger]
                call_ensures(T::bounding_box, (&object,), object_box) && list.bbox
                    == crate::aabb::empty().hull(object_box),
    {
        let mut list = HittableList { objects: Vec::new(), bbox: AABB::empty() };
        list.add(object);
        list
    }

    /// Removes every surface. The box is not reset.
    pub fn clear(&mut self)
        ensures
            final(self).objects@ == Seq::<T>::empty(),
            final(self).bbox == old(self).bbox,
    {
        self.objects.clear();
    }

    /// Appends a surface and widens the box by the box of that surface.
    pub fn add(&mut self, object: T)
        ensures
            final(self).objects@ == old(self).objects@.push(object),
            exists|object_box: AABB| #[trigger]
                call_ensures(T::bounding_box, (&object,), object_box) && final(self).bbox == old(
                    self,
                ).bbox.hull(object_box),
    {
        let object_box: AABB = object.bounding_box();
        self.bbox = AABB::new_from_children(&self.bbox, &object_box);
        self.objects.push(object);
    }
}

impl<T: Hittable> Default for HittableList<T> {
    fn default() -> (list: Self)
        ensures
            list.objects@ == Seq::<T>::empty(),
            list.bbox == crate::aabb::empty(),
    {
        HittableList { objects: Vec::new(), bbox: AABB::empty() }
    }
}

impl<T: Hittable> Hittable for HittableList<T> {
    /// Scans the members in order. Each member is asked for a hit nearer than
    /// the best so far, so a later member replaces an earlier one only with a
    /// strictly nearer hit.
    ///
    /// Where the members are faithful along the ray, the answer is the
    /// nearest crossing of any member, in the record of the first member that
    /// is crossed there.
    fn hit(&self, ray: &Ray, interval: &Interval) -> (found: Option<HitRecord>)
        ensures
            scanned(self.objects@, *ray, *interval, found),
            all_faithful(self.objects@, 0, self.objects@.len() as int, *ray) ==> scan_outcome(
                self.objects@,
                0,
                self.objects@.len() as int,
                *ray,
                *interval,
                found,
            ),
    {
        let mut best: Option<HitRecord> = None;
        let mut closest_so_far: i64 = interval.max;
        let mut i: usize = 0;
        while i < self.objects.len()
            invariant
                i <= self.objects@.len(),
                scanned(self.objects@.take(i as int), *ray, *interval, best),
                all_faithful(self.objects@, 0, self.objects@.len() as int, *ray) ==> scan_outcome(
                    self.objects@,
                    0,
                    i as int,
                    *ray,
                    *interval,
                    best,
                ),
                closest_so_far == (match best {
                    Some(record) => record.time,
                    None => interval.max,
                }),
            decreases self.objects@.len() - i,
        {
            let narrowed = Interval::new(interval.min, closest_so_far);
            let answer: Option<HitRecord> = self.objects[i].hit(ray, &narrowed);
            proof {
                let longer = self.objects@.take(i + 1);
                assert(longer.drop_last() =~= self.objects@.take(i as int));
                assert(longer.last() == self.objects@[i as int]);
                assert(narrowed == nearer_than(*interval, best));
                assert(call_ensures(
                    T::hit,
                    (&longer.last(), ray, &nearer_than(*interval, best)),
                    answer,
                ));
                assert(scanned(longer, *ray, *interval, replaced_by(best, answer)));
                if all_faithful(self.objects@, 0, self.objects@.len() as int, *ray) {
                    assert(faithful(self.objects@[i as int], *ray));
                    lemma_scan_step(self.objects@, i as int, *ray, *interval, best, answer);
                }
            }
            match answer {
                Some(record) => {
                    closest_so_far = record.time;
                    best = Some(record);
                },
                None => {},
            }
            i += 1;
        }
        assert(self.objects@.take(i as int) =~= self.objects@);
        best
    }

    /// The box as the additions have built it up.
    fn bounding_box(&self) -> (bbox: AABB)
        ensures
            bbox == self.bbox,
    {
        self.bbox
    }
}

/// A list of faithful surfaces is itself a faithful surface, so lists may
/// hold lists.
pub proof fn lemma_list_is_faithful<T: Hittable>(list: HittableList<T>, ray: Ray)
    requires
        all_faithful(list.objects@, 0, list.objects@.len() as int, ray),
    ensures
        faithful(list, ray),
{
    lemma_scan_is_faithful(list, list.objects@, 0, list.objects@.len() as int, ray);
}

/// What a scan comes to is what one of the surfaces answered.
proof fn lemma_scanned_names_materials<T: Hittable>(
    objects: Seq<T>,
    ray: Ray,
    interval: Interval,
    best: Option<HitRecord>,
    count: int,
)
    requires
        scanned(objects, ray, interval, best),
        forall|j: int| 0 <= j < objects.len() ==> names_materials(#[trigger] objects[j], count),
    ensures
        best matches Some(record) ==> record.material < count,
    decreases objects.len(),
{
    if objects.len() > 0 {
        let (before, answer) = choose|before: Option<HitRecord>, answer: Option<HitRecord>|
            {
                &&& scanned(objects.drop_last(), ray, interval, before)
                &&& #[trigger] call_ensures(
                    T::hit,
                    (&objects.last(), &ray, &nearer_than(interval, before)),
                    answer,
                )
                &&& best == replaced_by(before, answer)
            };
        assert(names_materials(objects[objects.len() - 1], count));
        assert forall|j: int| 0 <= j < objects.drop_last().len() implies names_materials(
            #[trigger] objects.drop_last()[j],
            count,
        ) by {
            assert(objects.drop_last()[j] == objects[j]);
        }
        lemma_scanned_names_materials(objects.drop_last(), ray, interval, before, count);
    }
}

/// A list names the materials that its members name.
pub proof fn lemma_list_names_materials<T: Hittable>(list: HittableList<T>, count: int)
    requires
        forall|j: int|
            0 <= j < list.objects@.len() ==> names_materials(#[trigger] list.objects@[j], count),
    ensures
        names_materials(list, count),
{
    assert forall|ray: Ray, interval: Interval, record: HitRecord| #[trigger]
        call_ensures(HittableList::<T>::hit, (&list, &ray, &interval), Some(record)) implies record.material
        < count by {
        lemma_scanned_names_materials(list.objects@, ray, interval, Some(record), count);
    }
}

/// A list always gives the same box.
pub proof fn lemma_list_is_steady<T: Hittable>(list: HittableList<T>)
    ensures
        steady(list),
{
    lemma_steady(list, list.bbox);
}

} // verus!
