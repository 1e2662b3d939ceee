use ray_tracing::ray::Ray;
use ray_tracing::scalar::{from_bits, to_bits};
use ray_tracing::vec3::{in_unit_ball, in_unit_disk, random_on_hemisphere, Vec3};

fn enc(x: f64) -> i64 {
    from_bits(x.to_bits())
}

fn dec(code: i64) -> f64 {
    f64::from_bits(to_bits(code))
}

fn point(x: f64, y: f64, z: f64) -> Vec3 {
    Vec3::new(enc(x), enc(y), enc(z))
}

fn arr(v: &Vec3) -> [f64; 3] {
    [dec(v.x), dec(v.y), dec(v.z)]
}

#[test]
fn components_of_a_vector() {
    let v = point(1.0, -2.0, 3.5);
    assert_eq!((dec(v.x()), dec(v.y()), dec(v.z())), (1.0, -2.0, 3.5));
    assert_eq!(dec(v.index(0)), 1.0);
    assert_eq!(dec(v.index(1)), -2.0);
    assert_eq!(dec(v.index(2)), 3.5);
    assert_eq!(arr(&Vec3::default()), [0.0, 0.0, 0.0]);
}

#[test]
fn vectors_near_zero() {
    assert!(point(0.0, 0.0, 0.0).near_zero());
    assert!(point(9.9e-9, -9.9e-9, -0.0).near_zero());
    assert!(!point(1.0e-8, 0.0, 0.0).near_zero());
    assert!(!point(0.0, -1.0e-8, 0.0).near_zero());
    assert!(!point(0.0, 0.0, 1.0).near_zero());
    assert!(!point(f64::NAN, 0.0, 0.0).near_zero());
}

#[test]
fn opposite_of_a_vector() {
    let v = point(1.0, -2.0, 0.0).neg();
    assert_eq!(dec(v.x), -1.0);
    assert_eq!(dec(v.y), 2.0);
    assert!(dec(v.z) == 0.0 && dec(v.z).is_sign_negative());
    let w = point(f64::INFINITY, f64::MIN_POSITIVE, -0.0).neg();
    assert_eq!(dec(w.x), f64::NEG_INFINITY);
    assert_eq!(dec(w.y), -f64::MIN_POSITIVE);
    assert!(dec(w.z).is_sign_positive());
}

#[test]
fn samples_of_the_unit_ball() {
    assert!(in_unit_ball(enc(0.5)));
    assert!(in_unit_ball(enc(1.0)));
    assert!(!in_unit_ball(enc(1.0000001)));
    assert!(!in_unit_ball(enc(1.0e-160)));
    assert!(in_unit_ball(enc(1.1e-160)));
    assert!(!in_unit_ball(enc(0.0)));
    assert!(!in_unit_ball(enc(f64::NAN)));
}

#[test]
fn samples_of_the_unit_disk() {
    assert!(in_unit_disk(enc(0.0)));
    assert!(in_unit_disk(enc(0.999)));
    assert!(!in_unit_disk(enc(1.0)));
    assert!(!in_unit_disk(enc(2.0)));
    assert!(!in_unit_disk(enc(f64::NAN)));
}

#[test]
fn side_of_a_normal() {
    let v = point(0.0, 1.0, 0.0);
    assert_eq!(arr(&random_on_hemisphere(&v, enc(0.5))), [0.0, 1.0, 0.0]);
    assert_eq!(arr(&random_on_hemisphere(&v, enc(-0.5))), [-0.0, -1.0, -0.0]);
    assert_eq!(dec(random_on_hemisphere(&v, enc(0.0)).y), -1.0);
}

#[test]
fn ray_without_a_time_is_cast_at_zero() {
    let ray = Ray::new(&point(1.0, 2.0, 3.0), &point(0.0, 0.0, -1.0), None);
    assert_eq!(arr(ray.origin()), [1.0, 2.0, 3.0]);
    assert_eq!(arr(ray.direction()), [0.0, 0.0, -1.0]);
    assert_eq!(dec(ray.time()), 0.0);
    let timed = Ray::new(&point(1.0, 2.0, 3.0), &point(0.0, 0.0, -1.0), Some(enc(0.75)));
    assert_eq!(dec(timed.time()), 0.75);
    let none = Ray::default();
    assert_eq!(arr(none.origin()), [0.0, 0.0, 0.0]);
    assert_eq!(dec(none.time()), 0.0);
}
