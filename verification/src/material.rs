//! Materials: what becomes of a ray at a hit.

use vstd::prelude::*;
use crate::hittable::HitRecord;
use crate::ray::Ray;
use crate::scalar::{less, lt, min_of, minimum, ONE, ZERO};
use crate::texture::{SolidColor, Texture};
use crate::vec3::Vec3;

verus! {

/// A material scatters a ray that hits it, or absorbs it, and may give off
/// light of its own.
pub trait Material {
    /// The colour factor and the new ray of a scattered ray, or nothing
    /// where the ray is absorbed. A material that says nothing else absorbs
    /// every ray.
    fn scatter(&self, _ray_in: &Ray, _record: &HitRecord) -> (scattered: Option<(Vec3, Ray)>)
        default_ensures
            scattered is None,
    {
        None
    }

    /// The light that the material gives off at a place. A material that
    /// says nothing else gives off none.
    fn emmited(&self, _u: i64, _v: i64, _p: &Vec3) -> (light: Vec3)
        default_ensures
            light == black(),
    {
        Vec3::new(ZERO, ZERO, ZERO)
    }
}

/// The colour of no light.
pub open spec fn black() -> Vec3 {
    Vec3 { x: ZERO, y: ZERO, z: ZERO }
}

/// The colour factor that takes nothing away.
pub open spec fn white() -> Vec3 {
    Vec3 { x: ONE, y: ONE, z: ONE }
}

/// The ray that leaves the place of `record` in `direction`, at the moment
/// at which `ray_in` was cast.
pub open spec fn leaving(ray_in: Ray, record: HitRecord, direction: Vec3) -> Ray {
    Ray { origin: record.point, direction, time: ray_in.time }
}

/// A matte surface. `diffuse` gives a direction for the scattered ray: the
/// normal, offset by a random unit vector.
pub struct Lambertian<X: Texture, D: Fn(&Vec3) -> Vec3> {
    texture: X,
    diffuse: D,
}

impl<X: Texture, D: Fn(&Vec3) -> Vec3> Lambertian<X, D> {
    #[verifier::type_invariant]
    spec fn callable(self) -> bool {
        forall|normal: &Vec3| call_requires(self.diffuse, (normal,))
    }

    pub closed spec fn texture(self) -> X {
        self.texture
    }

    pub closed spec fn diffuse(self) -> D {
        self.diffuse
    }

    /// `scattered` is what the material can make of a ray: it always
    /// scatters, in a direction that `diffuse` gives, or along the normal
    /// where that direction vanishes, and with the colour of the texture at
    /// the place of the hit as factor.
    pub open spec fn scatters(self, ray_in: Ray, record: HitRecord, scattered: Option<(Vec3, Ray)>) -> bool {
        exists|direction: Vec3, attenuation: Vec3|
            #![trigger call_ensures(self.diffuse(), (&record.normal,), direction), call_ensures(X::value, (&self.texture(), record.u, record.v, &record.point), attenuation)]
            {
                &&& call_ensures(self.diffuse(), (&record.normal,), direction)
                &&& call_ensures(
                    X::value,
                    (&self.texture(), record.u, record.v, &record.point),
                    attenuation,
                )
                &&& scattered == Some(
                    (
                        attenuation,
                        leaving(
                            ray_in,
                            record,
                            if direction.vanishes() {
                                record.normal
                            } else {
                                direction
                            },
                        ),
                    ),
                )
            }
    }

    pub fn new_from_texture(texture: X, diffuse: D) -> (material: Self)
        requires
            forall|normal: &Vec3| call_requires(diffuse, (normal,)),
        ensures
            material.texture() == texture,
            material.diffuse() == diffuse,
    {
        Lambertian { texture, diffuse }
    }
}

impl<D: Fn(&Vec3) -> Vec3> Lambertian<SolidColor, D> {
    /// A matte surface of one colour.
    pub fn new(albedo: &Vec3, diffuse: D) -> (material: Self)
        requires
            forall|normal: &Vec3| call_requires(diffuse, (normal,)),
        ensures
            material.texture().albedo == *albedo,
            material.diffuse() == diffuse,
    {
        Self::new_from_texture(SolidColor::new_from_color(albedo), diffuse)
    }
}

impl<X: Texture, D: Fn(&Vec3) -> Vec3> Material for Lambertian<X, D> {
    fn scatter(&self, ray_in: &Ray, record: &HitRecord) -> (scattered: Option<(Vec3, Ray)>)
        ensures
            self.scatters(*ray_in, *record, scattered),
    {
        proof {
            use_type_invariant(self);
        }
        let mut scatter_direction: Vec3 = (self.diffuse)(&record.normal);
        assert(call_ensures(self.diffuse(), (&record.normal,), scatter_direction));
        if scatter_direction.near_zero() {
            scatter_direction = record.normal;
        }
        let scattered = Ray::new(&record.point, &scatter_direction, Some(ray_in.time()));
        let attenuation: Vec3 = self.texture.value(record.u, record.v, &record.point);
        assert(call_ensures(
            X::value,
            (&self.texture(), record.u, record.v, &record.point),
            attenuation,
        ));
        Some((attenuation, scattered))
    }

    fn emmited(&self, _u: i64, _v: i64, _p: &Vec3) -> (light: Vec3)
        ensures
            light == black(),
    {
        Vec3::new(ZERO, ZERO, ZERO)
    }
}

/// A mirror, more or less blurred. `bounce` gives, for the direction of the
/// incoming ray, the normal and the fuzz, the direction of the reflected ray
/// and the dot product of that direction with the normal.
pub struct Metal<B: Fn(&Vec3, &Vec3, i64) -> (Vec3, i64)> {
    albedo: Vec3,
    fuzz: i64,
    bounce: B,
}

impl<B: Fn(&Vec3, &Vec3, i64) -> (Vec3, i64)> Metal<B> {
    #[verifier::type_invariant]
    spec fn callable(self) -> bool {
        forall|direction: &Vec3, normal: &Vec3, fuzz: i64|
            call_requires(self.bounce, (direction, normal, fuzz))
    }

    pub closed spec fn albedo(self) -> Vec3 {
        self.albedo
    }

    pub closed spec fn fuzz(self) -> i64 {
        self.fuzz
    }

    pub closed spec fn bounce(self) -> B {
        self.bounce
    }

    /// `scattered` is what the material can make of a ray: the ray goes on in
    /// a direction that `bounce` gives, with the albedo as factor, where that
    /// direction points away from the surface, and is absorbed where it does
    /// not.
    pub open spec fn scatters(self, ray_in: Ray, record: HitRecord, scattered: Option<(Vec3, Ray)>) -> bool {
        exists|direction: Vec3, facing: i64|
            {
                &&& #[trigger] call_ensures(
                    self.bounce(),
                    (&ray_in.direction, &record.normal, self.fuzz()),
                    (direction, facing),
                )
                &&& scattered == (if lt(ZERO, facing) {
                    Some((self.albedo(), leaving(ray_in, record, direction)))
                } else {
                    None
                })
            }
    }

    /// A mirror of the colour `albedo`; a fuzz above one counts as one.
    pub fn new(albedo: Vec3, fuzz: i64, bounce: B) -> (material: Self)
        requires
            forall|direction: &Vec3, normal: &Vec3, fuzz: i64|
                call_requires(bounce, (direction, normal, fuzz)),
        ensures
            material.albedo() == albedo,
            material.fuzz() == min_of(fuzz, ONE),
            material.bounce() == bounce,
    {
        Metal { albedo, fuzz: minimum(fuzz, ONE), bounce }
    }
}

impl<B: Fn(&Vec3, &Vec3, i64) -> (Vec3, i64)> Material for Metal<B> {
    fn scatter(&self, ray_in: &Ray, record: &HitRecord) -> (scattered: Option<(Vec3, Ray)>)
        ensures
            self.scatters(*ray_in, *record, scattered),
    {
        proof {
            use_type_invariant(self);
        }
        let (reflected, facing) = (self.bounce)(ray_in.direction(), &record.normal, self.fuzz);
        assert(call_ensures(
            self.bounce(),
            (&ray_in.direction, &record.normal, self.fuzz()),
            (reflected, facing),
        ));
        let scattered = Ray::new(&record.point, &reflected, Some(ray_in.time()));
        if less(ZERO, facing) {
            Some((self.albedo, scattered))
        } else {
            None
        }
    }

    fn emmited(&self, _u: i64, _v: i64, _p: &Vec3) -> (light: Vec3)
        ensures
            light == black(),
    {
        Vec3::new(ZERO, ZERO, ZERO)
    }
}

/// What the arithmetic of a clear material gives for a ray at a hit: `bend`
/// is the sine of the angle of incidence, multiplied by the ratio of the
/// refraction indices; `reflectance` is the share of the light that is
/// reflected; the two directions are those of the reflected and of the
/// refracted ray.
#[derive(Clone, Copy, Debug)]
pub struct Refraction {
    pub bend: i64,
    pub reflectance: i64,
    pub reflected: Vec3,
    pub refracted: Vec3,
}

/// A clear material such as glass. `optics` gives the arithmetic of a hit,
/// for the direction of the ray, the normal and the ratio of the refraction
/// indices; `draw` draws a number at random from the unit range, its upper
/// end left out.
pub struct Dielectric<O: Fn(&Vec3, &Vec3, i64) -> Refraction, W: Fn() -> i64> {
    refraction_index: i64,
    inverse_index: i64,
    optics: O,
    draw: W,
}

impl<O: Fn(&Vec3, &Vec3, i64) -> Refraction, W: Fn() -> i64> Dielectric<O, W> {
    #[verifier::type_invariant]
    spec fn callable(self) -> bool {
        &&& forall|direction: &Vec3, normal: &Vec3, index: i64|
            call_requires(self.optics, (direction, normal, index))
        &&& call_requires(self.draw, ())
    }

    pub closed spec fn refraction_index(self) -> i64 {
        self.refraction_index
    }

    pub closed spec fn inverse_index(self) -> i64 {
        self.inverse_index
    }

    pub closed spec fn optics(self) -> O {
        self.optics
    }

    pub closed spec fn draw(self) -> W {
        self.draw
    }

    /// The ratio of the refraction indices at a hit: the inverse of the
    /// material's index where the ray comes from outside, and the index
    /// itself where it comes from inside.
    pub open spec fn ratio(self, record: HitRecord) -> i64 {
        if record.front_face {
            self.inverse_index()
        } else {
            self.refraction_index()
        }
    }

    /// `direction` is a direction in which the ray can go on: the reflected
    /// one where the ray cannot be refracted, because `bend` exceeds one, or
    /// where a number drawn at random falls below the reflectance; and the
    /// refracted one otherwise.
    pub open spec fn chooses(self, optics: Refraction, direction: Vec3) -> bool {
        if lt(ONE, optics.bend) {
            direction == optics.reflected
        } else {
            exists|drawn: i64| #[trigger]
                call_ensures(self.draw(), (), drawn) && direction == (if lt(
                    drawn,
                    optics.reflectance,
                ) {
                    optics.reflected
                } else {
                    optics.refracted
                })
        }
    }

    /// `scattered` is what the material can make of a ray: it always
    /// scatters, takes nothing away, and sends the ray on in a direction that
    /// it chooses between reflection and refraction.
    pub open spec fn scatters(self, ray_in: Ray, record: HitRecord, scattered: Option<(Vec3, Ray)>) -> bool {
        exists|optics: Refraction, direction: Vec3|
            {
                &&& call_ensures(
                    self.optics(),
                    (&ray_in.direction, &record.normal, self.ratio(record)),
                    optics,
                )
                &&& #[trigger] self.chooses(optics, direction)
                &&& scattered == Some((white(), leaving(ray_in, record, direction)))
            }
    }

    /// A clear material with the given refraction index and its inverse.
    pub fn new(refraction_index: i64, inverse_index: i64, optics: O, draw: W) -> (material: Self)
        requires
            forall|direction: &Vec3, normal: &Vec3, index: i64|
                call_requires(optics, (direction, normal, index)),
            call_requires(draw, ()),
        ensures
            material.refraction_index() == refraction_index,
            material.inverse_index() == inverse_index,
            material.optics() == optics,
            material.draw() == draw,
    {
        Dielectric { refraction_index, inverse_index, optics, draw }
    }
}

impl<O: Fn(&Vec3, &Vec3, i64) -> Refraction, W: Fn() -> i64> Material for Dielectric<O, W> {
    fn scatter(&self, ray_in: &Ray, record: &HitRecord) -> (scattered: Option<(Vec3, Ray)>)
        ensures
            self.scatters(*ray_in, *record, scattered),
    {
        proof {
            use_type_invariant(self);
        }
        let attenuation = Vec3::new(ONE, ONE, ONE);
        let refraction_index: i64 = if record.front_face {
            self.inverse_index
        } else {
            self.refraction_index
        };
        let optics: Refraction = (self.optics)(ray_in.direction(), &record.normal, refraction_index);
        assert(call_ensures(
            self.optics(),
            (&ray_in.direction, &record.normal, self.ratio(*record)),
            optics,
        ));
        let cannot_refract: bool = less(ONE, optics.bend);
        let direction: Vec3 = if cannot_refract {
            optics.reflected
        } else {
            let drawn: i64 = (self.draw)();
            assert(call_ensures(self.draw(), (), drawn));
            if less(drawn, optics.reflectance) {
                optics.reflected
            } else {
                optics.refracted
            }
        };
        assert(self.chooses(optics, direction));
        let scattered = Ray::new(&record.point, &direction, Some(ray_in.time()));
        Some((attenuation, scattered))
    }

    fn emmited(&self, _u: i64, _v: i64, _p: &Vec3) -> (light: Vec3)
        ensures
            light == black(),
    {
        Vec3::new(ZERO, ZERO, ZERO)
    }
}

/// A surface that gives off light and scatters none.
pub struct DiffuseLight<X: Texture> {
    pub texture: X,
}

impl<X: Texture> DiffuseLight<X> {
    pub fn new_from_texture(texture: X) -> (material: Self)
        ensures
            material.texture == texture,
    {
        DiffuseLight { texture }
    }
}

impl DiffuseLight<SolidColor> {
    /// A light of one colour.
    pub fn new(albedo: &Vec3) -> (material: Self)
        ensures
            material.texture.albedo == *albedo,
    {
        Self::new_from_texture(SolidColor::new_from_color(albedo))
    }
}

impl<X: Texture> Material for DiffuseLight<X> {
    fn scatter(&self, _ray_in: &Ray, _record: &HitRecord) -> (scattered: Option<(Vec3, Ray)>)
        ensures
            scattered is None,
    {
        None
    }

    fn emmited(&self, u: i64, v: i64, p: &Vec3) -> (light: Vec3)
        ensures
            call_ensures(X::value, (&self.texture, u, v, p), light),
    {
        self.texture.value(u, v, p)
    }
}

/// What fills a medium: it scatters a ray in any direction alike. `any`
/// draws a direction at random.
pub struct Isotropic<X: Texture, D: Fn() -> Vec3> {
    texture: X,
    any: D,
}

impl<X: Texture, D: Fn() -> Vec3> Isotropic<X, D> {
    #[verifier::type_invariant]
    spec fn callable(self) -> bool {
        call_requires(self.any, ())
    }

    pub closed spec fn texture(self) -> X {
        self.texture
    }

    pub closed spec fn any(self) -> D {
        self.any
    }

    /// `scattered` is what the material can make of a ray: it always
    /// scatters, in a direction that `any` gives, with the colour of the
    /// texture at the place of the hit as factor.
    pub open spec fn scatters(self, ray_in: Ray, record: HitRecord, scattered: Option<(Vec3, Ray)>) -> bool {
        exists|direction: Vec3, attenuation: Vec3|
            #![trigger call_ensures(self.any(), (), direction), call_ensures(X::value, (&self.texture(), record.u, record.v, &record.point), attenuation)]
            {
                &&& call_ensures(self.any(), (), direction)
                &&& call_ensures(
                    X::value,
                    (&self.texture(), record.u, record.v, &record.point),
                    attenuation,
                )
                &&& scattered == Some((attenuation, leaving(ray_in, record, direction)))
            }
    }

    pub fn new_from_texture(texture: X, any: D) -> (material: Self)
        requires
            call_requires(any, ()),
        ensures
            material.texture() == texture,
            material.any() == any,
    {
        Isotropic { texture, any }
    }
}

impl<D: Fn() -> Vec3> Isotropic<SolidColor, D> {
    /// A filling of one colour.
    pub fn new(albedo: &Vec3, any: D) -> (material: Self)
        requires
            call_requires(any, ()),
        ensures
            material.texture().albedo == *albedo,
            material.any() == any,
    {
        Self::new_from_texture(SolidColor::new_from_color(albedo), any)
    }
}

impl<X: Texture, D: Fn() -> Vec3> Material for Isotropic<X, D> {
    fn scatter(&self, ray_in: &Ray, record: &HitRecord) -> (scattered: Option<(Vec3, Ray)>)
        ensures
            self.scatters(*ray_in, *record, scattered),
    {
        proof {
            use_type_invariant(self);
        }
        let direction: Vec3 = (self.any)();
        assert(call_ensures(self.any(), (), direction));
        let scattered = Ray::new(&record.point, &direction, Some(ray_in.time()));
        let attenuation: Vec3 = self.texture.value(record.u, record.v, &record.point);
        assert(call_ensures(
            X::value,
            (&self.texture(), record.u, record.v, &record.point),
            attenuation,
        ));
        Some((attenuation, scattered))
    }

    fn emmited(&self, _u: i64, _v: i64, _p: &Vec3) -> (light: Vec3)
        ensures
            light == black(),
    {
        Vec3::new(ZERO, ZERO, ZERO)
    }
}

} // verus!
