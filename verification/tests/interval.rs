use ray_tracing::interval::Interval;
use ray_tracing::scalar::{from_bits, to_bits, INFINITY, NEG_INFINITY};

fn enc(x: f64) -> i64 {
    from_bits(x.to_bits())
}

fn dec(code: i64) -> f64 {
    f64::from_bits(to_bits(code))
}

fn range(min: f64, max: f64) -> Interval {
    Interval::new(enc(min), enc(max))
}

#[test]
fn union_of_overlapping_ranges() {
    let merged = Interval::new_from_children(&range(1.0, 3.0), &range(2.0, 5.0));
    assert_eq!(dec(merged.min), 1.0);
    assert_eq!(dec(merged.max), 5.0);
}

#[test]
fn union_with_the_empty_range() {
    let merged = Interval::new_from_children(&Interval::empty(), &range(2.0, 5.0));
    assert_eq!(dec(merged.min), 2.0);
    assert_eq!(dec(merged.max), 5.0);
    let merged = Interval::new_from_children(&range(2.0, 5.0), &Interval::default());
    assert_eq!(dec(merged.min), 2.0);
    assert_eq!(dec(merged.max), 5.0);
}

#[test]
fn union_of_disjoint_ranges_spans_the_gap() {
    let merged = Interval::new_from_children(&range(4.0, 5.0), &range(-2.0, -1.0));
    assert_eq!(dec(merged.min), -2.0);
    assert_eq!(dec(merged.max), 5.0);
}

#[test]
fn empty_and_universe() {
    let empty = Interval::empty();
    assert_eq!(empty.min, INFINITY);
    assert_eq!(empty.max, NEG_INFINITY);
    let default = Interval::default();
    assert_eq!(default.min, INFINITY);
    assert_eq!(default.max, NEG_INFINITY);
    let universe = Interval::universe();
    assert_eq!(universe.min, NEG_INFINITY);
    assert_eq!(universe.max, INFINITY);
    assert!(!empty.contains(enc(0.0)));
    assert!(universe.contains(enc(0.0)));
    assert!(universe.surrounds(enc(1.0e300)));
    assert!(universe.contains(INFINITY));
    assert!(!universe.surrounds(INFINITY));
}

#[test]
fn contains_includes_the_ends() {
    let r = range(1.0, 3.0);
    assert!(r.contains(enc(1.0)));
    assert!(r.contains(enc(2.0)));
    assert!(r.contains(enc(3.0)));
    assert!(!r.contains(enc(0.999)));
    assert!(!r.contains(enc(3.5)));
    assert!(!r.contains(enc(f64::NAN)));
}

#[test]
fn surrounds_leaves_the_ends_out() {
    let r = range(1.0, 3.0);
    assert!(!r.surrounds(enc(1.0)));
    assert!(r.surrounds(enc(2.0)));
    assert!(!r.surrounds(enc(3.0)));
    assert!(!r.surrounds(enc(f64::NAN)));
}

#[test]
fn the_sign_of_zero_does_not_matter() {
    let r = range(0.0, 1.0);
    assert!(r.contains(enc(-0.0)));
    assert!(!r.surrounds(enc(-0.0)));
    let r = range(-0.0, 1.0);
    assert!(r.contains(enc(0.0)));
}

#[test]
fn clamp_brings_into_the_range() {
    let r = range(0.0, 0.999);
    assert_eq!(dec(r.clamp(enc(-0.5))), 0.0);
    assert_eq!(dec(r.clamp(enc(0.25))), 0.25);
    assert_eq!(dec(r.clamp(enc(7.0))), 0.999);
    assert_eq!(dec(r.clamp(enc(0.999))), 0.999);
    assert!(dec(r.clamp(enc(f64::NAN))).is_nan());
}
