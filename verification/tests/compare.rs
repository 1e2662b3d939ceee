use ray_tracing::aabb::AABB;
use ray_tracing::bvh::BVHNode;
use ray_tracing::hittable::{HitRecord, Hittable};
use ray_tracing::interval::Interval;
use ray_tracing::ray::Ray;
use ray_tracing::scalar::from_bits;
use ray_tracing::vec3::Vec3;
use std::cmp::Ordering;

fn enc(x: f64) -> i64 {
    from_bits(x.to_bits())
}

/// A surface that is nothing but its box.
struct Boxed(AABB);

impl Hittable for Boxed {
    fn hit(&self, _ray: &Ray, _interval: &Interval) -> Option<HitRecord> {
        None
    }

    fn bounding_box(&self) -> AABB {
        self.0
    }
}

fn boxed(low: [f64; 3], high: [f64; 3]) -> Boxed {
    Boxed(AABB::new_from_points(
        &Vec3::new(enc(low[0]), enc(low[1]), enc(low[2])),
        &Vec3::new(enc(high[0]), enc(high[1]), enc(high[2])),
    ))
}

#[test]
fn surfaces_compare_by_the_lower_end_of_their_boxes() {
    let a = boxed([-1.0, 4.0, -1.0], [1.0, 6.0, 1.0]);
    let b = boxed([2.0, 0.0, -1.0], [4.0, 2.0, 9.0]);
    assert_eq!(BVHNode::box_compare(&a, &b, 0), Ordering::Less);
    assert_eq!(BVHNode::box_compare(&a, &b, 1), Ordering::Greater);
    assert_eq!(BVHNode::box_compare(&a, &b, 2), Ordering::Equal);
    assert_eq!(BVHNode::box_compare(&b, &a, 0), Ordering::Greater);
    assert_eq!(BVHNode::box_compare(&a, &b, 7), Ordering::Less);
}

#[test]
fn zeros_of_different_sign_are_told_apart_in_sorting() {
    let a = boxed([-0.0, 0.0, 0.0], [1.0, 1.0, 1.0]);
    let b = boxed([0.0, 0.0, 0.0], [1.0, 1.0, 1.0]);
    assert_eq!(BVHNode::box_compare(&a, &b, 0), Ordering::Less);
    assert_eq!(BVHNode::box_compare(&a, &b, 1), Ordering::Equal);
}
