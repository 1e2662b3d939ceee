//! Scanning: what it means to ask a run of surfaces one after the other
//! for the nearest hit, and why the order of asking does not change the
//! answer.

use vstd::prelude::*;
use crate::hittable::{crossings, faithful, nearest_crossing, record_at, HitRecord, Hittable};
use crate::interval::Interval;
use crate::ray::Ray;
use crate::scalar::{le, lt, rank};

verus! {

/// `interval`, cut down to what is nearer than the best hit so far.
pub open spec fn nearer_than(interval: Interval, best: Option<HitRecord>) -> Interval {
    Interval {
        min: interval.min,
        max: match best {
            Some(record) => record.time,
            None => interval.max,
        },
    }
}

/// The later of two answers, the earlier one standing where the later is a
/// miss.
pub open spec fn replaced_by(earlier: Option<HitRecord>, later: Option<HitRecord>) -> Option<
    HitRecord,
> {
    match later {
        Some(_) => later,
        None => earlier,
    }
}

/// `best` is what a scan of `objects` in order can come to: each surface is
/// asked for a hit nearer than the best so far, and the best so far is
/// replaced by whatever hit that surface answers.
pub open spec fn scanned<T: Hittable>(
    objects: Seq<T>,
    ray: Ray,
    interval: Interval,
    best: Option<HitRecord>,
) -> bool
    decreases objects.len(),
{
    if objects.len() == 0 {
        best is None
    } else {
        exists|before: Option<HitRecord>, answer: Option<HitRecord>|
            {
                &&& scanned(objects.drop_last(), ray, interval, before)
                &&& #[trigger] call_ensures(
                    T::hit,
                    (&objects.last(), &ray, &nearer_than(interval, before)),
                    answer,
                )
                &&& best == replaced_by(before, answer)
            }
    }
}

/// Member `w` of `objects[start..end]` owns the nearest crossing, at
/// parameter `t`: no member has a crossing inside `interval` that is nearer,
/// and no member before `w` has one that is as near.
pub open spec fn wins<T: Hittable>(
    objects: Seq<T>,
    start: int,
    end: int,
    ray: Ray,
    interval: Interval,
    w: int,
    t: i64,
) -> bool {
    &&& start <= w < end
    &&& crossings(objects[w], ray).contains(t)
    &&& interval.encloses(t)
    &&& forall|j: int, c: i64|
        start <= j < end && #[trigger] crossings(objects[j], ray).contains(c) && interval.encloses(
            c,
        ) ==> le(t, c) && (j < w ==> lt(t, c))
}

/// `found` is the answer of a scan of `objects[start..end]` in order: the
/// record that the winning member gives for its nearest crossing, or nothing
/// where no member has a crossing inside `interval`.
pub open spec fn scan_outcome<T: Hittable>(
    objects: Seq<T>,
    start: int,
    end: int,
    ray: Ray,
    interval: Interval,
    found: Option<HitRecord>,
) -> bool {
    match found {
        Some(record) => exists|w: int| #[trigger]
            wins(objects, start, end, ray, interval, w, record.time) && record
                == record_at(objects[w], ray, record.time),
        None => forall|j: int, c: i64|
            start <= j < end && #[trigger] crossings(objects[j], ray).contains(c)
                ==> !interval.encloses(c),
    }
}

/// Two answers to the same scan agree: both hit or both miss, and where they
/// hit, they hit at the same point of the ray, and records for the same
/// parameter are the same record.
pub proof fn lemma_scan_outcome_agrees<T: Hittable>(
    objects: Seq<T>,
    start: int,
    end: int,
    ray: Ray,
    interval: Interval,
    first: Option<HitRecord>,
    second: Option<HitRecord>,
)
    requires
        scan_outcome(objects, start, end, ray, interval, first),
        scan_outcome(objects, start, end, ray, interval, second),
    ensures
        first is Some == second is Some,
        match (first, second) {
            (Some(a), Some(b)) => rank(a.time) == rank(b.time) && (a.time == b.time ==> a == b),
            _ => true,
        },
{
    match (first, second) {
        (Some(a), Some(b)) => {
            let w1 = choose|w: int|
                wins(objects, start, end, ray, interval, w, a.time) && a == record_at(
                    objects[w],
                    ray,
                    a.time,
                );
            let w2 = choose|w: int|
                wins(objects, start, end, ray, interval, w, b.time) && b == record_at(
                    objects[w],
                    ray,
                    b.time,
                );
            assert(wins(objects, start, end, ray, interval, w1, a.time));
            assert(wins(objects, start, end, ray, interval, w2, b.time));
            assert(crossings(objects[w1], ray).contains(a.time));
            assert(crossings(objects[w2], ray).contains(b.time));
            assert(le(a.time, b.time) && le(b.time, a.time));
            if w1 < w2 {
                assert(lt(b.time, a.time));
            }
            if w2 < w1 {
                assert(lt(a.time, b.time));
            }
            assert(w1 == w2);
        },
        (Some(a), None) => {
            let w1 = choose|w: int| wins(objects, start, end, ray, interval, w, a.time);
            assert(crossings(objects[w1], ray).contains(a.time));
        },
        (None, Some(b)) => {
            let w2 = choose|w: int| wins(objects, start, end, ray, interval, w, b.time);
            assert(crossings(objects[w2], ray).contains(b.time));
        },
        (None, None) => {},
    }
}

/// A surface that answers every query along a ray as a scan of
/// `objects[start..end]` would, those surfaces being asked faithfully, is
/// itself faithful along the ray.
pub proof fn lemma_scan_is_faithful<H: Hittable, T: Hittable>(
    surface: H,
    objects: Seq<T>,
    start: int,
    end: int,
    ray: Ray,
)
    requires
        forall|interval: Interval, found: Option<HitRecord>| #[trigger]
            call_ensures(H::hit, (&surface, &ray, &interval), found) ==> scan_outcome(
                objects,
                start,
                end,
                ray,
                interval,
                found,
            ),
    ensures
        faithful(surface, ray),
{
    assert forall|interval: Interval, found: Option<HitRecord>| #[trigger]
        call_ensures(H::hit, (&surface, &ray, &interval), found) implies {
        &&& nearest_crossing(crossings(surface, ray), interval, found)
        &&& found matches Some(record) ==> record == record_at(surface, ray, record.time)
    } by {
        assert(scan_outcome(objects, start, end, ray, interval, found));
        match found {
            Some(record) => {
                let t = record.time;
                let w = choose|w: int|
                    wins(objects, start, end, ray, interval, w, t) && record == record_at(
                        objects[w],
                        ray,
                        t,
                    );
                assert(wins(objects, start, end, ray, interval, w, t));
                assert(crossings(surface, ray).contains(t));
                assert forall|c: i64| #[trigger]
                    crossings(surface, ray).contains(c) && interval.encloses(c) implies le(t, c) by {
                    let (other, told) = choose|other: Interval, told: HitRecord|
                        told.time == c && #[trigger] call_ensures(
                            H::hit,
                            (&surface, &ray, &other),
                            Some(told),
                        );
                    assert(scan_outcome(objects, start, end, ray, other, Some(told)));
                    let v = choose|v: int| wins(objects, start, end, ray, other, v, c);
                    assert(crossings(objects[v], ray).contains(c));
                }
                let chosen = record_at(surface, ray, t);
                let other = choose|other: Interval| #[trigger]
                    call_ensures(H::hit, (&surface, &ray, &other), Some(chosen));
                assert(scan_outcome(objects, start, end, ray, other, Some(chosen)));
                let v = choose|v: int|
                    wins(objects, start, end, ray, other, v, t) && chosen == record_at(objects[v], ray, t);
                assert(wins(objects, start, end, ray, other, v, t));
                assert(crossings(objects[v], ray).contains(t));
                assert(crossings(objects[w], ray).contains(t));
                if v < w {
                    assert(lt(t, t));
                }
                if w < v {
                    assert(lt(t, t));
                }
            },
            None => {
                assert forall|c: i64| #[trigger]
                    crossings(surface, ray).contains(c) implies !interval.encloses(c) by {
                    let (other, told) = choose|other: Interval, told: HitRecord|
                        told.time == c && #[trigger] call_ensures(
                            H::hit,
                            (&surface, &ray, &other),
                            Some(told),
                        );
                    assert(scan_outcome(objects, start, end, ray, other, Some(told)));
                    let v = choose|v: int| wins(objects, start, end, ray, other, v, c);
                    assert(crossings(objects[v], ray).contains(c));
                }
            },
        }
    }
}

/// What one more member does to a scan: a hit nearer than the best so far
/// takes its place, a miss leaves it.
pub(crate) proof fn lemma_scan_step<T: Hittable>(
    objects: Seq<T>,
    i: int,
    ray: Ray,
    interval: Interval,
    best: Option<HitRecord>,
    answer: Option<HitRecord>,
)
    requires
        0 <= i < objects.len(),
        scan_outcome(objects, 0, i, ray, interval, best),
        nearest_crossing(
            crossings(objects[i], ray),
            nearer_than(interval, best),
            answer,
        ),
        answer matches Some(record) ==> record == record_at(objects[i], ray, record.time),
    ensures
        scan_outcome(
            objects,
            0,
            i + 1,
            ray,
            interval,
            replaced_by(best, answer),
        ),
{
    let narrowed = nearer_than(interval, best);
    match answer {
        Some(record) => {
            let t = record.time;
            match best {
                Some(previous) => {
                    let w0 = choose|w: int| wins(objects, 0, i, ray, interval, w, previous.time);
                    assert(wins(objects, 0, i, ray, interval, w0, previous.time));
                    assert(lt(t, previous.time));
                    assert forall|j: int, c: i64|
                        0 <= j < i + 1 && #[trigger] crossings(objects[j], ray).contains(c)
                            && interval.encloses(c) implies le(t, c) && (j < i ==> lt(t, c)) by {
                        if j < i {
                            assert(le(previous.time, c));
                        } else {
                            if narrowed.encloses(c) {
                                assert(le(t, c));
                            }
                        }
                    }
                },
                None => {
                    assert(narrowed == interval);
                    assert forall|j: int, c: i64|
                        0 <= j < i + 1 && #[trigger] crossings(objects[j], ray).contains(c)
                            && interval.encloses(c) implies le(t, c) && (j < i ==> lt(t, c)) by {
                        if j < i {
                            assert(!interval.encloses(c));
                        }
                    }
                },
            }
            assert(wins(objects, 0, i + 1, ray, interval, i, t));
        },
        None => {
            match best {
                Some(previous) => {
                    let w0 = choose|w: int|
                        wins(objects, 0, i, ray, interval, w, previous.time) && previous
                            == record_at(objects[w], ray, previous.time);
                    assert(wins(objects, 0, i, ray, interval, w0, previous.time));
                    assert forall|j: int, c: i64|
                        0 <= j < i + 1 && #[trigger] crossings(objects[j], ray).contains(c)
                            && interval.encloses(c) implies le(previous.time, c) && (j < w0 ==> lt(
                        previous.time,
                        c,
                    )) by {
                        if j == i {
                            assert(!narrowed.encloses(c));
                        }
                    }
                    assert(wins(objects, 0, i + 1, ray, interval, w0, previous.time));
                },
                None => {
                    assert(narrowed == interval);
                    assert forall|j: int, c: i64|
                        0 <= j < i + 1 && #[trigger] crossings(objects[j], ray).contains(
                            c,
                        ) implies !interval.encloses(c) by {
                        if j == i {
                            assert(!narrowed.encloses(c));
                        }
                    }
                },
            }
        },
    }
}

/// What one surface answers is the outcome of a scan of that surface alone.
pub(crate) proof fn lemma_single<T: Hittable>(
    objects: Seq<T>,
    i: int,
    ray: Ray,
    interval: Interval,
    answer: Option<HitRecord>,
)
    requires
        0 <= i < objects.len(),
        nearest_crossing(crossings(objects[i], ray), interval, answer),
        answer matches Some(record) ==> record == record_at(objects[i], ray, record.time),
    ensures
        scan_outcome(objects, i, i + 1, ray, interval, answer),
{
    match answer {
        Some(record) => {
            assert(wins(objects, i, i + 1, ray, interval, i, record.time));
        },
        None => {},
    }
}

/// A surface that is asked again for something nearer than its own answer
/// has nothing to add.
pub(crate) proof fn lemma_asked_twice<T: Hittable>(
    objects: Seq<T>,
    i: int,
    ray: Ray,
    interval: Interval,
    first: Option<HitRecord>,
    second: Option<HitRecord>,
)
    requires
        scan_outcome(objects, i, i + 1, ray, interval, first),
        scan_outcome(
            objects,
            i,
            i + 1,
            ray,
            nearer_than(interval, first),
            second,
        ),
    ensures
        second is None,
{
    let narrowed = nearer_than(interval, first);
    match second {
        Some(again) => {
            let next = i + 1;
            let w = choose|w: int| wins(objects, i, next, ray, narrowed, w, again.time);
            assert(crossings(objects[w], ray).contains(again.time));
            match first {
                Some(record) => {
                    let w0 = choose|w: int| wins(objects, i, next, ray, interval, w, record.time);
                    assert(wins(objects, i, next, ray, interval, w0, record.time));
                    assert(interval.encloses(again.time));
                    assert(le(record.time, again.time));
                },
                None => {
                    assert(narrowed == interval);
                },
            }
        },
        None => {},
    }
}

/// The outcome of a scan of `objects[start..mid]`, followed by a scan of
/// `objects[mid..end]` for something nearer, is the outcome of one scan of
/// `objects[start..end]`.
pub(crate) proof fn lemma_two_runs<T: Hittable>(
    objects: Seq<T>,
    start: int,
    mid: int,
    end: int,
    ray: Ray,
    interval: Interval,
    first: Option<HitRecord>,
    second: Option<HitRecord>,
)
    requires
        start <= mid <= end,
        scan_outcome(objects, start, mid, ray, interval, first),
        scan_outcome(
            objects,
            mid,
            end,
            ray,
            nearer_than(interval, first),
            second,
        ),
    ensures
        scan_outcome(
            objects,
            start,
            end,
            ray,
            interval,
            replaced_by(first, second),
        ),
{
    let narrowed = nearer_than(interval, first);
    match second {
        Some(nearer) => {
            let t = nearer.time;
            let w = choose|w: int|
                wins(objects, mid, end, ray, narrowed, w, t) && nearer == record_at(objects[w], ray,
                    t,
                );
            assert(wins(objects, mid, end, ray, narrowed, w, t));
            match first {
                Some(record) => {
                    let w0 = choose|w: int| wins(objects, start, mid, ray, interval, w, record.time);
                    assert(wins(objects, start, mid, ray, interval, w0, record.time));
                    assert(lt(t, record.time));
                    assert forall|j: int, c: i64|
                        start <= j < end && #[trigger] crossings(objects[j], ray).contains(c)
                            && interval.encloses(c) implies le(t, c) && (j < w ==> lt(t, c)) by {
                        if j < mid {
                            assert(le(record.time, c));
                        } else {
                            if narrowed.encloses(c) {
                                assert(le(t, c) && (j < w ==> lt(t, c)));
                            }
                        }
                    }
                },
                None => {
                    assert(narrowed == interval);
                    assert forall|j: int, c: i64|
                        start <= j < end && #[trigger] crossings(objects[j], ray).contains(c)
                            && interval.encloses(c) implies le(t, c) && (j < w ==> lt(t, c)) by {
                        if j < mid {
                            assert(!interval.encloses(c));
                        }
                    }
                },
            }
            assert(wins(objects, start, end, ray, interval, w, t));
        },
        None => {
            match first {
                Some(record) => {
                    let w0 = choose|w: int|
                        wins(objects, start, mid, ray, interval, w, record.time) && record
                            == record_at(objects[w], ray, record.time);
                    assert(wins(objects, start, mid, ray, interval, w0, record.time));
                    assert forall|j: int, c: i64|
                        start <= j < end && #[trigger] crossings(objects[j], ray).contains(c)
                            && interval.encloses(c) implies le(record.time, c) && (j < w0 ==> lt(
                        record.time,
                        c,
                    )) by {
                        if j >= mid {
                            assert(!narrowed.encloses(c));
                        }
                    }
                    assert(wins(objects, start, end, ray, interval, w0, record.time));
                },
                None => {
                    assert(narrowed == interval);
                    assert forall|j: int, c: i64|
                        start <= j < end && #[trigger] crossings(objects[j], ray).contains(
                            c,
                        ) implies !interval.encloses(c) by {
                        if j >= mid {
                            assert(!narrowed.encloses(c));
                        }
                    }
                },
            }
        },
    }
}

} // verus!
