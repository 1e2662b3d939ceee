use ray_tracing::aabb::{narrow, pick_longest, AABB};
use ray_tracing::interval::Interval;
use ray_tracing::ray::Ray;
use ray_tracing::scalar::{from_bits, to_bits, INFINITY, NEG_INFINITY};
use ray_tracing::vec3::Vec3;

fn enc(x: f64) -> i64 {
    from_bits(x.to_bits())
}

fn dec(code: i64) -> f64 {
    f64::from_bits(to_bits(code))
}

fn point(x: f64, y: f64, z: f64) -> Vec3 {
    Vec3::new(enc(x), enc(y), enc(z))
}

fn range(min: f64, max: f64) -> Interval {
    Interval::new(enc(min), enc(max))
}

fn size(interval: &Interval) -> i64 {
    enc(dec(interval.max) - dec(interval.min))
}

fn slab(ax: &Interval, origin: i64, direction: i64) -> (i64, i64) {
    let adinv = 1.0 / dec(direction);
    let t0 = (dec(ax.min) - dec(origin)) * adinv;
    let t1 = (dec(ax.max) - dec(origin)) * adinv;
    (enc(t0), enc(t1))
}

fn unit_box() -> AABB {
    AABB::new_from_points(&point(0.0, 0.0, 0.0), &point(1.0, 1.0, 1.0))
}

#[test]
fn ray_through_the_unit_box() {
    let ray = Ray::new(&point(0.5, 0.5, -5.0), &point(0.0, 0.0, 1.0), None);
    assert!(unit_box().hit(&ray, &range(0.0, f64::INFINITY), &slab));
}

#[test]
fn ray_beside_the_unit_box() {
    let ray = Ray::new(&point(0.5, 0.5, -5.0), &point(1.0, 0.0, 0.0), None);
    assert!(!unit_box().hit(&ray, &range(0.0, f64::INFINITY), &slab));
}

#[test]
fn box_behind_the_range_of_the_ray() {
    let ray = Ray::new(&point(0.5, 0.5, -5.0), &point(0.0, 0.0, 1.0), None);
    assert!(!unit_box().hit(&ray, &range(0.0, 4.5), &slab));
    assert!(unit_box().hit(&ray, &range(0.0, 5.5), &slab));
    assert!(!unit_box().hit(&ray, &range(6.0, 9.0), &slab));
    assert!(!unit_box().hit(&ray, &range(0.0, 5.0), &slab));
}

#[test]
fn ranges_are_taken_between_their_ends() {
    let ray = Ray::new(&point(0.5, 0.5, -5.0), &point(0.0, 0.0, 1.0), None);
    let reversed = AABB::new(&range(1.0, 0.0), &range(1.0, 0.0), &range(1.0, 0.0));
    assert!(reversed.hit(&ray, &range(0.0, f64::INFINITY), &slab));
    assert!(!reversed.hit(&ray, &range(0.0, 4.5), &slab));
    assert!(AABB::empty().hit(&ray, &range(0.0, f64::INFINITY), &slab));
    assert!(AABB::universe().hit(&ray, &range(0.0, f64::INFINITY), &slab));
}

#[test]
fn an_empty_range_of_the_ray_hits_nothing() {
    let ray = Ray::new(&point(0.5, 0.5, -5.0), &point(0.0, 0.0, 1.0), None);
    assert!(!unit_box().hit(&ray, &range(5.5, 5.5), &slab));
    assert!(!unit_box().hit(&ray, &range(6.0, 5.0), &slab));
    assert!(!AABB::universe().hit(&ray, &Interval::empty(), &slab));
}

#[test]
fn narrowing_by_a_slab() {
    let left = narrow(&range(0.0, 10.0), enc(2.0), enc(5.0));
    assert_eq!((dec(left.min), dec(left.max)), (2.0, 5.0));
    let left = narrow(&range(0.0, 10.0), enc(5.0), enc(2.0));
    assert_eq!((dec(left.min), dec(left.max)), (2.0, 5.0));
    let left = narrow(&range(3.0, 4.0), enc(2.0), enc(5.0));
    assert_eq!((dec(left.min), dec(left.max)), (3.0, 4.0));
    let left = narrow(&range(0.0, 10.0), enc(f64::NEG_INFINITY), enc(f64::INFINITY));
    assert_eq!((dec(left.min), dec(left.max)), (0.0, 10.0));
    let left = narrow(&range(0.0, 10.0), enc(f64::NAN), enc(5.0));
    assert_eq!((dec(left.min), dec(left.max)), (5.0, 10.0));
}

#[test]
fn corners_in_any_order() {
    let a = AABB::new_from_points(&point(1.0, 5.0, -2.0), &point(-1.0, 7.0, -3.0));
    assert_eq!((dec(a.x.min), dec(a.x.max)), (-1.0, 1.0));
    assert_eq!((dec(a.y.min), dec(a.y.max)), (5.0, 7.0));
    assert_eq!((dec(a.z.min), dec(a.z.max)), (-3.0, -2.0));
}

#[test]
fn box_of_ranges() {
    let a = AABB::new(&range(0.0, 1.0), &range(2.0, 3.0), &range(4.0, 5.0));
    assert_eq!(dec(a.x.max), 1.0);
    assert_eq!(dec(a.y.min), 2.0);
    assert_eq!(dec(a.z.max), 5.0);
}

#[test]
fn hull_of_two_boxes() {
    let a = AABB::new_from_points(&point(0.0, 0.0, 0.0), &point(1.0, 1.0, 1.0));
    let b = AABB::new_from_points(&point(0.5, -2.0, 3.0), &point(0.75, 0.5, 4.0));
    let c = AABB::new_from_children(&a, &b);
    assert_eq!((dec(c.x.min), dec(c.x.max)), (0.0, 1.0));
    assert_eq!((dec(c.y.min), dec(c.y.max)), (-2.0, 1.0));
    assert_eq!((dec(c.z.min), dec(c.z.max)), (0.0, 4.0));
    let d = AABB::new_from_children(&AABB::empty(), &b);
    assert_eq!((dec(d.x.min), dec(d.x.max)), (0.5, 0.75));
    assert_eq!((dec(d.z.min), dec(d.z.max)), (3.0, 4.0));
}

#[test]
fn empty_and_universe_boxes() {
    let e = AABB::empty();
    assert_eq!((e.x.min, e.x.max), (INFINITY, NEG_INFINITY));
    assert_eq!((e.z.min, e.z.max), (INFINITY, NEG_INFINITY));
    let u = AABB::universe();
    assert_eq!((u.y.min, u.y.max), (NEG_INFINITY, INFINITY));
}

#[test]
fn axis_by_number() {
    let a = AABB::new(&range(0.0, 1.0), &range(2.0, 3.0), &range(4.0, 5.0));
    assert_eq!(dec(a.axis_interval(0).min), 0.0);
    assert_eq!(dec(a.axis_interval(1).min), 2.0);
    assert_eq!(dec(a.axis_interval(2).min), 4.0);
    assert_eq!(dec(a.axis_interval(3).min), 0.0);
    assert_eq!(dec(a.axis_interval(-1).min), 0.0);
}

#[test]
fn longest_axis_of_a_box() {
    let a = AABB::new(&range(0.0, 3.0), &range(0.0, 2.0), &range(0.0, 1.0));
    assert_eq!(a.longest_axis(&size), 0);
    let a = AABB::new(&range(0.0, 1.0), &range(0.0, 3.0), &range(0.0, 2.0));
    assert_eq!(a.longest_axis(&size), 1);
    let a = AABB::new(&range(0.0, 1.0), &range(0.0, 2.0), &range(0.0, 3.0));
    assert_eq!(a.longest_axis(&size), 2);
}

#[test]
fn longest_axis_on_ties() {
    assert_eq!(pick_longest(enc(1.0), enc(1.0), enc(1.0)), 0);
    assert_eq!(pick_longest(enc(2.0), enc(2.0), enc(1.0)), 0);
    assert_eq!(pick_longest(enc(2.0), enc(1.0), enc(2.0)), 0);
    assert_eq!(pick_longest(enc(1.0), enc(2.0), enc(2.0)), 1);
    assert_eq!(pick_longest(enc(3.0), enc(1.0), enc(2.0)), 0);
    assert_eq!(pick_longest(enc(1.0), enc(3.0), enc(2.0)), 1);
    assert_eq!(pick_longest(enc(1.0), enc(2.0), enc(3.0)), 2);
    assert_eq!(pick_longest(enc(f64::NAN), enc(1.0), enc(2.0)), 2);
    let tied = AABB::new(&range(0.0, 2.0), &range(0.0, 2.0), &range(0.0, 1.0));
    assert_eq!(tied.longest_axis(&size), 0);
    let cube = AABB::new(&range(0.0, 1.0), &range(2.0, 3.0), &range(-1.0, 0.0));
    assert_eq!(cube.longest_axis(&size), 0);
    let flat = AABB::new(&range(0.0, 1.0), &range(0.0, 2.0), &range(0.0, 2.0));
    assert_eq!(flat.longest_axis(&size), 1);
}

#[test]
fn box_around_points() {
    let points = vec![point(1.0, -1.0, 0.0), point(-2.0, 4.0, 0.5), point(0.0, 0.0, -3.0)];
    let a = AABB::new_from_corners(&points);
    assert_eq!((dec(a.x.min), dec(a.x.max)), (-2.0, 1.0));
    assert_eq!((dec(a.y.min), dec(a.y.max)), (-1.0, 4.0));
    assert_eq!((dec(a.z.min), dec(a.z.max)), (-3.0, 0.5));
    let none: Vec<Vec3> = Vec::new();
    let e = AABB::new_from_corners(&none);
    assert_eq!((e.x.min, e.x.max), (NEG_INFINITY, INFINITY));
}
