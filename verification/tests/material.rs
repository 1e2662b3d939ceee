use ray_tracing::hittable::HitRecord;
use ray_tracing::material::{
    Dielectric, DiffuseLight, Isotropic, Lambertian, Material, Metal, Refraction,
};
use ray_tracing::ray::Ray;
use ray_tracing::scalar::{from_bits, to_bits};
use ray_tracing::texture::SolidColor;
use ray_tracing::vec3::Vec3;
use std::cell::Cell;

fn enc(x: f64) -> i64 {
    from_bits(x.to_bits())
}

fn dec(code: i64) -> f64 {
    f64::from_bits(to_bits(code))
}

fn point(x: f64, y: f64, z: f64) -> Vec3 {
    Vec3::new(enc(x), enc(y), enc(z))
}

fn arr(v: &Vec3) -> [f64; 3] {
    [dec(v.x), dec(v.y), dec(v.z)]
}

fn ray_in() -> Ray {
    Ray::new(&point(0.0, 0.0, 0.0), &point(0.0, 0.0, -1.0), Some(enc(0.25)))
}

fn record(front_face: bool) -> HitRecord {
    HitRecord::new(
        &point(0.0, 0.0, -4.0),
        &point(0.0, 0.0, 1.0),
        0,
        enc(4.0),
        enc(0.5),
        enc(0.5),
        front_face,
    )
}

#[test]
fn matte_surface_scatters_off_the_normal() {
    let diffuse = |normal: &Vec3| -> Vec3 { point(dec(normal.x) + 0.5, dec(normal.y), dec(normal.z)) };
    let material = Lambertian::new(&point(0.8, 0.6, 0.4), diffuse);
    let (attenuation, scattered) = material.scatter(&ray_in(), &record(true)).unwrap();
    assert_eq!(arr(&attenuation), [0.8, 0.6, 0.4]);
    assert_eq!(arr(&scattered.origin), [0.0, 0.0, -4.0]);
    assert_eq!(arr(&scattered.direction), [0.5, 0.0, 1.0]);
    assert_eq!(dec(scattered.time), 0.25);
    assert_eq!(arr(&material.emmited(0, 0, &point(0.0, 0.0, 0.0))), [0.0, 0.0, 0.0]);
}

#[test]
fn matte_surface_falls_back_on_the_normal() {
    let vanishing = |_normal: &Vec3| -> Vec3 { point(1.0e-9, -1.0e-9, 0.0) };
    let material = Lambertian::new_from_texture(SolidColor::new(enc(0.1), enc(0.2), enc(0.3)), vanishing);
    let (attenuation, scattered) = material.scatter(&ray_in(), &record(true)).unwrap();
    assert_eq!(arr(&attenuation), [0.1, 0.2, 0.3]);
    assert_eq!(arr(&scattered.direction), [0.0, 0.0, 1.0]);
    let barely = |_normal: &Vec3| -> Vec3 { point(1.0e-9, 1.0e-8, 0.0) };
    let material = Lambertian::new(&point(0.1, 0.2, 0.3), barely);
    let (_, scattered) = material.scatter(&ray_in(), &record(true)).unwrap();
    assert_eq!(arr(&scattered.direction), [1.0e-9, 1.0e-8, 0.0]);
}

#[test]
fn mirror_reflects_away_from_the_surface() {
    let bounce = |direction: &Vec3, normal: &Vec3, fuzz: i64| -> (Vec3, i64) {
        let d = arr(direction);
        let n = arr(normal);
        let along = d[0] * n[0] + d[1] * n[1] + d[2] * n[2];
        let r = [d[0] - 2.0 * along * n[0], d[1] - 2.0 * along * n[1], d[2] - 2.0 * along * n[2] + dec(fuzz)];
        (point(r[0], r[1], r[2]), enc(r[0] * n[0] + r[1] * n[1] + r[2] * n[2]))
    };
    let material = Metal::new(point(0.7, 0.6, 0.5), enc(0.5), bounce);
    let (attenuation, scattered) = material.scatter(&ray_in(), &record(true)).unwrap();
    assert_eq!(arr(&attenuation), [0.7, 0.6, 0.5]);
    assert_eq!(arr(&scattered.direction), [0.0, 0.0, 1.5]);
    assert_eq!(arr(&scattered.origin), [0.0, 0.0, -4.0]);
    assert_eq!(dec(scattered.time), 0.25);
}

#[test]
fn fuzz_above_one_counts_as_one() {
    let bounce = |_direction: &Vec3, _normal: &Vec3, fuzz: i64| -> (Vec3, i64) {
        (point(dec(fuzz), 0.0, 0.0), enc(1.0))
    };
    let material = Metal::new(point(1.0, 1.0, 1.0), enc(3.0), bounce);
    let (_, scattered) = material.scatter(&ray_in(), &record(true)).unwrap();
    assert_eq!(dec(scattered.direction.x), 1.0);
    let material = Metal::new(point(1.0, 1.0, 1.0), enc(0.25), bounce);
    let (_, scattered) = material.scatter(&ray_in(), &record(true)).unwrap();
    assert_eq!(dec(scattered.direction.x), 0.25);
}

#[test]
fn mirror_absorbs_what_goes_into_the_surface() {
    let inward = |_direction: &Vec3, _normal: &Vec3, _fuzz: i64| -> (Vec3, i64) {
        (point(0.0, 0.0, -1.0), enc(-1.0))
    };
    assert!(Metal::new(point(1.0, 1.0, 1.0), enc(0.0), inward).scatter(&ray_in(), &record(true)).is_none());
    let along = |_direction: &Vec3, _normal: &Vec3, _fuzz: i64| -> (Vec3, i64) {
        (point(1.0, 0.0, 0.0), enc(0.0))
    };
    assert!(Metal::new(point(1.0, 1.0, 1.0), enc(0.0), along).scatter(&ray_in(), &record(true)).is_none());
}

fn optics_of(bend: f64, reflectance: f64) -> impl Fn(&Vec3, &Vec3, i64) -> Refraction {
    move |_direction: &Vec3, _normal: &Vec3, index: i64| -> Refraction {
        Refraction {
            bend: enc(bend),
            reflectance: enc(reflectance),
            reflected: point(0.0, 0.0, 1.0),
            refracted: point(0.0, 0.0, dec(index)),
        }
    }
}

#[test]
fn glass_reflects_where_it_cannot_refract() {
    let drawn = Cell::new(0);
    let draw = || -> i64 {
        drawn.set(drawn.get() + 1);
        enc(0.999)
    };
    let material = Dielectric::new(enc(1.5), enc(2.0 / 3.0), optics_of(1.25, 0.0), draw);
    let (attenuation, scattered) = material.scatter(&ray_in(), &record(false)).unwrap();
    assert_eq!(arr(&attenuation), [1.0, 1.0, 1.0]);
    assert_eq!(arr(&scattered.direction), [0.0, 0.0, 1.0]);
    assert_eq!(arr(&scattered.origin), [0.0, 0.0, -4.0]);
    assert_eq!(dec(scattered.time), 0.25);
    assert_eq!(drawn.get(), 0);
}

#[test]
fn glass_reflects_by_chance() {
    let low = || -> i64 { enc(0.1) };
    let material = Dielectric::new(enc(1.5), enc(2.0 / 3.0), optics_of(0.5, 0.2), low);
    let (_, scattered) = material.scatter(&ray_in(), &record(true)).unwrap();
    assert_eq!(arr(&scattered.direction), [0.0, 0.0, 1.0]);
    let high = || -> i64 { enc(0.2) };
    let material = Dielectric::new(enc(1.5), enc(2.0 / 3.0), optics_of(0.5, 0.2), high);
    let (_, scattered) = material.scatter(&ray_in(), &record(true)).unwrap();
    assert_eq!(arr(&scattered.direction), [0.0, 0.0, 2.0 / 3.0]);
}

#[test]
fn glass_is_entered_and_left_with_inverse_ratios() {
    let never = || -> i64 { enc(0.999) };
    let material = Dielectric::new(enc(1.5), enc(2.0 / 3.0), optics_of(1.0, 0.0), never);
    let (_, entering) = material.scatter(&ray_in(), &record(true)).unwrap();
    assert_eq!(dec(entering.direction.z), 2.0 / 3.0);
    let (_, leaving) = material.scatter(&ray_in(), &record(false)).unwrap();
    assert_eq!(dec(leaving.direction.z), 1.5);
    assert_eq!(arr(&material.emmited(0, 0, &point(0.0, 0.0, 0.0))), [0.0, 0.0, 0.0]);
}

#[test]
fn light_shines_and_scatters_nothing() {
    let light = DiffuseLight::new(&point(4.0, 4.0, 2.0));
    assert!(light.scatter(&ray_in(), &record(true)).is_none());
    assert_eq!(arr(&light.emmited(enc(0.1), enc(0.2), &point(1.0, 1.0, 1.0))), [4.0, 4.0, 2.0]);
    let other = DiffuseLight::new_from_texture(SolidColor::new(enc(1.0), enc(2.0), enc(3.0)));
    assert_eq!(arr(&other.emmited(0, 0, &point(0.0, 0.0, 0.0))), [1.0, 2.0, 3.0]);
}

#[test]
fn filling_scatters_in_any_direction() {
    let any = || -> Vec3 { point(0.0, -1.0, 0.0) };
    let material = Isotropic::new(&point(0.9, 0.9, 0.9), any);
    let (attenuation, scattered) = material.scatter(&ray_in(), &record(true)).unwrap();
    assert_eq!(arr(&attenuation), [0.9, 0.9, 0.9]);
    assert_eq!(arr(&scattered.direction), [0.0, -1.0, 0.0]);
    assert_eq!(arr(&scattered.origin), [0.0, 0.0, -4.0]);
    assert_eq!(dec(scattered.time), 0.25);
    let other = Isotropic::new_from_texture(SolidColor::new(enc(0.5), enc(0.5), enc(0.5)), any);
    let (attenuation, _) = other.scatter(&ray_in(), &record(true)).unwrap();
    assert_eq!(arr(&attenuation), [0.5, 0.5, 0.5]);
}

/// A material that says nothing of its own.
struct Dull;

impl Material for Dull {}

#[test]
fn a_material_absorbs_and_is_dark_unless_it_says_otherwise() {
    assert!(Dull.scatter(&ray_in(), &record(true)).is_none());
    let light = Dull.emmited(enc(0.5), enc(0.5), &point(1.0, 2.0, 3.0));
    assert_eq!((light.x, light.y, light.z), (0, 0, 0));
}
