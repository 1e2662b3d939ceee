use ray_tracing::aabb::AABB;
use ray_tracing::bvh::{BVHChild, BVHNode, BVH};
use ray_tracing::hittable::{HitRecord, Hittable, SurfacePoint};
use ray_tracing::hittable_list::HittableList;
use ray_tracing::interval::Interval;
use ray_tracing::ray::Ray;
use ray_tracing::scalar::{from_bits, to_bits, INFINITY, NEG_INFINITY};
use ray_tracing::sphere::Sphere;
use ray_tracing::vec3::Vec3;

fn enc(x: f64) -> i64 {
    from_bits(x.to_bits())
}

fn dec(code: i64) -> f64 {
    f64::from_bits(to_bits(code))
}

fn point(x: f64, y: f64, z: f64) -> Vec3 {
    Vec3::new(enc(x), enc(y), enc(z))
}

fn range(min: f64, max: f64) -> Interval {
    Interval::new(enc(min), enc(max))
}

fn forward() -> Interval {
    range(0.001, f64::INFINITY)
}

fn arr(v: &Vec3) -> [f64; 3] {
    [dec(v.x), dec(v.y), dec(v.z)]
}

fn dot(a: [f64; 3], b: [f64; 3]) -> f64 {
    a[0] * b[0] + a[1] * b[1] + a[2] * b[2]
}

fn size(interval: &Interval) -> i64 {
    enc(dec(interval.max) - dec(interval.min))
}

fn slab(ax: &Interval, origin: i64, direction: i64) -> (i64, i64) {
    let adinv = 1.0 / dec(direction);
    let t0 = (dec(ax.min) - dec(origin)) * adinv;
    let t1 = (dec(ax.max) - dec(origin)) * adinv;
    (enc(t0), enc(t1))
}

fn ball(
    center: [f64; 3],
    radius: f64,
    material: usize,
) -> Sphere<impl Fn(&Ray) -> (i64, i64, i64), impl Fn(&Ray, i64) -> SurfacePoint> {
    let solve = move |ray: &Ray| -> (i64, i64, i64) {
        let o = arr(&ray.origin);
        let d = arr(&ray.direction);
        let oc = [center[0] - o[0], center[1] - o[1], center[2] - o[2]];
        let a = dot(d, d);
        let h = dot(d, oc);
        let c = dot(oc, oc) - radius * radius;
        let discriminant = h * h - a * c;
        let root = discriminant.sqrt();
        (enc(discriminant), enc((h - root) / a), enc((h + root) / a))
    };
    let place = move |ray: &Ray, root: i64| -> SurfacePoint {
        let o = arr(&ray.origin);
        let d = arr(&ray.direction);
        let t = dec(root);
        let p = [o[0] + t * d[0], o[1] + t * d[1], o[2] + t * d[2]];
        let n = [
            (p[0] - center[0]) / radius,
            (p[1] - center[1]) / radius,
            (p[2] - center[2]) / radius,
        ];
        SurfacePoint {
            point: point(p[0], p[1], p[2]),
            outward_normal: point(n[0], n[1], n[2]),
            facing: enc(dot(d, n)),
            u: enc(0.0),
            v: enc(0.0),
        }
    };
    let low = point(center[0] - radius, center[1] - radius, center[2] - radius);
    let high = point(center[0] + radius, center[1] + radius, center[2] + radius);
    Sphere::new(solve, place, material, &low, &high, &low, &high)
}

fn down_z() -> Ray {
    Ray::new(&point(0.0, 0.0, 0.0), &point(0.0, 0.0, -1.0), None)
}

#[test]
fn empty_list_is_never_hit() {
    let mut list = HittableList::new(ball([0.0, 0.0, -3.0], 1.0, 0));
    list.clear();
    assert!(list.hit(&down_z(), &forward()).is_none());
}

#[test]
fn list_reports_the_nearest_member() {
    let mut list = HittableList::default();
    list.add(ball([0.0, 0.0, -10.0], 1.0, 0));
    list.add(ball([0.0, 0.0, -4.0], 1.0, 1));
    list.add(ball([0.0, 0.0, -7.0], 1.0, 2));
    let found = list.hit(&down_z(), &forward()).unwrap();
    assert_eq!(dec(found.time), 3.0);
    assert_eq!(found.material, 1);
}

#[test]
fn list_keeps_the_first_of_equals() {
    let mut list = HittableList::default();
    list.add(ball([0.0, 0.0, -4.0], 1.0, 0));
    list.add(ball([0.0, 0.0, -4.0], 1.0, 1));
    let found = list.hit(&down_z(), &forward()).unwrap();
    assert_eq!(dec(found.time), 3.0);
    assert_eq!(found.material, 0);
}

#[test]
fn list_keeps_to_the_interval() {
    let mut list = HittableList::default();
    list.add(ball([0.0, 0.0, -4.0], 1.0, 0));
    list.add(ball([0.0, 0.0, -10.0], 1.0, 1));
    let found = list.hit(&down_z(), &range(6.0, 100.0)).unwrap();
    assert_eq!(dec(found.time), 9.0);
    assert_eq!(found.material, 1);
    assert!(list.hit(&down_z(), &range(0.001, 3.0)).is_none());
    assert!(list.hit(&down_z(), &range(11.0, 100.0)).is_none());
}

#[test]
fn list_box_grows_with_each_addition() {
    let mut list = HittableList::default();
    assert_eq!((list.bbox.x.min, list.bbox.x.max), (INFINITY, NEG_INFINITY));
    assert_eq!(list.objects.len(), 0);
    list.add(ball([0.0, 0.0, -4.0], 1.0, 0));
    assert_eq!((dec(list.bbox.z.min), dec(list.bbox.z.max)), (-5.0, -3.0));
    list.add(ball([2.0, 0.0, 4.0], 0.5, 0));
    let bbox = list.bounding_box();
    assert_eq!((dec(bbox.x.min), dec(bbox.x.max)), (-1.0, 2.5));
    assert_eq!((dec(bbox.y.min), dec(bbox.y.max)), (-1.0, 1.0));
    assert_eq!((dec(bbox.z.min), dec(bbox.z.max)), (-5.0, 4.5));
    assert_eq!(list.objects.len(), 2);
}

#[test]
fn clearing_a_list_leaves_its_box() {
    let mut list = HittableList::new(ball([0.0, 0.0, -4.0], 1.0, 0));
    assert_eq!(list.objects.len(), 1);
    list.clear();
    assert_eq!(list.objects.len(), 0);
    assert_eq!((dec(list.bbox.z.min), dec(list.bbox.z.max)), (-5.0, -3.0));
}

#[test]
fn list_in_a_list() {
    let mut inner = HittableList::default();
    inner.add(ball([0.0, 0.0, -10.0], 1.0, 0));
    inner.add(ball([0.0, 0.0, -4.0], 1.0, 1));
    let outer = HittableList::new(inner);
    let found = outer.hit(&down_z(), &forward()).unwrap();
    assert_eq!(dec(found.time), 3.0);
    assert_eq!(found.material, 1);
    assert_eq!(dec(outer.bounding_box().z.min), -11.0);
}

#[test]
fn tree_over_one_surface() {
    let mut objects = vec![ball([0.0, 0.0, -4.0], 1.0, 3)];
    let node = BVHNode::new(&mut objects, 0, 1, &size);
    assert!(matches!(node.left, BVHChild::Leaf(0)));
    assert!(matches!(node.right, BVHChild::Leaf(0)));
    let bbox = node.bounding_box();
    assert_eq!((dec(bbox.z.min), dec(bbox.z.max)), (-5.0, -3.0));
    let found = node.hit(&objects, &down_z(), &forward(), &slab).unwrap();
    assert_eq!(dec(found.time), 3.0);
    assert_eq!(found.material, 3);
}

#[test]
fn tree_over_two_surfaces() {
    let mut objects = vec![ball([0.0, 0.0, -4.0], 1.0, 0), ball([0.0, 0.0, -8.0], 1.0, 1)];
    let node = BVHNode::new(&mut objects, 0, 2, &size);
    assert!(matches!(node.left, BVHChild::Leaf(0)));
    assert!(matches!(node.right, BVHChild::Leaf(1)));
    assert_eq!(objects[0].bounding_box().z.min, enc(-5.0));
    assert_eq!((dec(node.bbox.z.min), dec(node.bbox.z.max)), (-9.0, -3.0));
    let found = node.hit(&objects, &down_z(), &forward(), &slab).unwrap();
    assert_eq!(dec(found.time), 3.0);
    let found = node.hit(&objects, &down_z(), &range(5.5, 100.0), &slab).unwrap();
    assert_eq!(dec(found.time), 7.0);
    assert_eq!(found.material, 1);
}

fn spread_along_x() -> Vec<Sphere<impl Fn(&Ray) -> (i64, i64, i64), impl Fn(&Ray, i64) -> SurfacePoint>> {
    let mut objects = Vec::new();
    for (material, x) in [12.0, 6.0, 0.0, 9.0, 3.0].into_iter().enumerate() {
        objects.push(ball([x, 0.0, -5.0], 1.0, material));
    }
    objects
}

#[test]
fn tree_over_five_surfaces_is_a_median_split() {
    let mut objects = spread_along_x();
    let node = BVHNode::new(&mut objects, 0, 5, &size);
    let order: Vec<f64> = objects.iter().map(|o| dec(o.bounding_box().x.min)).collect();
    assert_eq!(order, vec![-1.0, 2.0, 5.0, 8.0, 11.0]);
    assert_eq!((dec(node.bbox.x.min), dec(node.bbox.x.max)), (-1.0, 13.0));
    match (&node.left, &node.right) {
        (BVHChild::Branch(left), BVHChild::Branch(right)) => {
            assert!(matches!(left.left, BVHChild::Leaf(0)));
            assert!(matches!(left.right, BVHChild::Leaf(1)));
            assert_eq!((dec(left.bbox.x.min), dec(left.bbox.x.max)), (-1.0, 4.0));
            assert_eq!((dec(right.bbox.x.min), dec(right.bbox.x.max)), (5.0, 13.0));
            match (&right.left, &right.right) {
                (BVHChild::Branch(single), BVHChild::Branch(pair)) => {
                    assert!(matches!(single.left, BVHChild::Leaf(2)));
                    assert!(matches!(single.right, BVHChild::Leaf(2)));
                    assert!(matches!(pair.left, BVHChild::Leaf(3)));
                    assert!(matches!(pair.right, BVHChild::Leaf(4)));
                }
                _ => panic!("the upper half of five is cut again"),
            }
        }
        _ => panic!("five surfaces are cut in two"),
    }
}

#[test]
fn tree_over_a_part_of_a_vector_leaves_the_rest() {
    let mut objects = spread_along_x();
    let node = BVHNode::new(&mut objects, 1, 4, &size);
    let order: Vec<f64> = objects.iter().map(|o| dec(o.bounding_box().x.min)).collect();
    assert_eq!(order, vec![11.0, -1.0, 5.0, 8.0, 2.0]);
    assert_eq!((dec(node.bbox.x.min), dec(node.bbox.x.max)), (-1.0, 10.0));
    match (&node.left, &node.right) {
        (BVHChild::Branch(left), BVHChild::Branch(right)) => {
            assert!(matches!(left.left, BVHChild::Leaf(1)));
            assert!(matches!(left.right, BVHChild::Leaf(1)));
            assert!(matches!(right.left, BVHChild::Leaf(2)));
            assert!(matches!(right.right, BVHChild::Leaf(3)));
        }
        _ => panic!("three surfaces are cut in two"),
    }
}

#[test]
fn tree_splits_along_the_longest_axis() {
    let mut objects = vec![
        ball([0.0, 9.0, -5.0], 1.0, 0),
        ball([1.0, 3.0, -5.0], 1.0, 1),
        ball([2.0, 6.0, -5.0], 1.0, 2),
        ball([3.0, 0.0, -5.0], 1.0, 3),
    ];
    BVHNode::new(&mut objects, 0, 4, &size);
    let order: Vec<f64> = objects.iter().map(|o| dec(o.bounding_box().y.min)).collect();
    assert_eq!(order, vec![-1.0, 2.0, 5.0, 8.0]);
}

#[test]
fn tree_from_a_list() {
    let mut list = HittableList::default();
    for (material, z) in [-9.0, -3.0, -6.0].into_iter().enumerate() {
        list.add(ball([0.0, 0.0, z], 1.0, material));
    }
    let before = list.bounding_box();
    let node = BVHNode::new_from_hittable_list(&mut list, &size);
    assert_eq!(list.objects.len(), 3);
    assert_eq!(list.bounding_box().z.min, before.z.min);
    let order: Vec<f64> = list.objects.iter().map(|o| dec(o.bounding_box().z.min)).collect();
    assert_eq!(order, vec![-10.0, -7.0, -4.0]);
    let found = node.hit(&list.objects, &down_z(), &forward(), &slab).unwrap();
    assert_eq!(dec(found.time), 2.0);
    assert_eq!(found.material, 1);
}

#[test]
fn tree_and_scan_agree() {
    let mut list = HittableList::default();
    let mut seed: u64 = 12345;
    let mut next = move || -> f64 {
        seed = seed.wrapping_mul(6364136223846793005).wrapping_add(1442695040888963407);
        ((seed >> 11) as f64) / ((1u64 << 53) as f64)
    };
    for material in 0..40 {
        let center = [next() * 20.0 - 10.0, next() * 20.0 - 10.0, -5.0 - next() * 20.0];
        list.add(ball(center, 0.3 + next(), material));
    }
    let node = BVHNode::new_from_hittable_list(&mut list, &size);
    let mut hits = 0;
    for _ in 0..400 {
        let ray = Ray::new(
            &point(0.0, 0.0, 0.0),
            &point(next() * 2.0 - 1.0, next() * 2.0 - 1.0, -1.0),
            None,
        );
        let scanned = list.hit(&ray, &forward());
        let pruned = node.hit(&list.objects, &ray, &forward(), &slab);
        assert_eq!(scanned.is_some(), pruned.is_some());
        if let (Some(a), Some(b)) = (scanned, pruned) {
            hits += 1;
            assert_eq!(a.time, b.time);
            assert_eq!(a.material, b.material);
            assert_eq!(arr(&a.point), arr(&b.point));
        }
    }
    assert!(hits > 5);
}

#[test]
fn tree_keeps_the_first_of_equals() {
    let mut list = HittableList::default();
    list.add(ball([0.0, 0.0, -4.0], 1.0, 0));
    list.add(ball([0.0, 0.0, -4.0], 1.0, 1));
    list.add(ball([0.0, 0.0, -4.0], 1.0, 2));
    let node = BVHNode::new_from_hittable_list(&mut list, &size);
    let scanned = list.hit(&down_z(), &forward()).unwrap();
    let pruned = node.hit(&list.objects, &down_z(), &forward(), &slab).unwrap();
    assert_eq!(scanned.material, pruned.material);
    let record: HitRecord = pruned;
    assert_eq!(dec(record.time), 3.0);
}

#[test]
fn tree_as_a_surface() {
    let mut list = HittableList::default();
    for (material, z) in [-9.0, -3.0, -6.0, -12.0].into_iter().enumerate() {
        list.add(ball([0.0, 0.0, z], 1.0, material));
    }
    let tree = BVH::new(list, &size, slab);
    let found = tree.hit(&down_z(), &forward()).unwrap();
    assert_eq!(dec(found.time), 2.0);
    assert_eq!(found.material, 1);
    let found = tree.hit(&down_z(), &range(4.5, 100.0)).unwrap();
    assert_eq!(dec(found.time), 5.0);
    assert_eq!(found.material, 2);
    assert!(tree.hit(&down_z(), &range(0.001, 2.0)).is_none());
    let bbox = tree.bounding_box();
    assert_eq!((dec(bbox.z.min), dec(bbox.z.max)), (-13.0, -2.0));
    assert_eq!((dec(bbox.x.min), dec(bbox.x.max)), (-1.0, 1.0));
}

#[test]
fn tree_in_a_list_beside_a_surface() {
    let mut far = HittableList::default();
    far.add(ball([0.0, 0.0, -20.0], 1.0, 0));
    far.add(ball([0.0, 0.0, -30.0], 1.0, 1));
    far.add(ball([0.0, 0.0, -25.0], 1.0, 2));
    let mut world = HittableList::new(BVH::new(far, &size, slab));
    let found = world.hit(&down_z(), &forward()).unwrap();
    assert_eq!(dec(found.time), 19.0);
    assert_eq!(found.material, 0);
    let mut near = HittableList::default();
    near.add(ball([0.0, 0.0, -5.0], 1.0, 7));
    world.add(BVH::new(near, &size, slab));
    let found = world.hit(&down_z(), &forward()).unwrap();
    assert_eq!(dec(found.time), 4.0);
    assert_eq!(found.material, 7);
    assert_eq!(dec(world.bounding_box().z.min), -31.0);
}
