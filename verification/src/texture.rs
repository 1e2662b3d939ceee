//! Textures: the colour of a surface at a place on it.

use vstd::prelude::*;
use crate::perlin::{Perlin, POINT_COUNT};
use crate::quad::unit;
use crate::rtw_image::RTWImage;
use crate::scalar::{magnitude_of, ONE, ZERO};
use crate::interval::Interval;
use crate::vec3::Vec3;

verus! {

/// A colour for each place on a surface, the place being given by its
/// texture coordinates and its point in space.
pub trait Texture {
    fn value(&self, u: i64, v: i64, p: &Vec3) -> Vec3;
}

/// One colour everywhere.
#[derive(Clone, Copy, Debug)]
pub struct SolidColor {
    pub albedo: Vec3,
}

impl SolidColor {
    pub fn new(red: i64, green: i64, blue: i64) -> (texture: Self)
        ensures
            texture.albedo == (Vec3 { x: red, y: green, z: blue }),
    {
        Self::new_from_color(&Vec3::new(red, green, blue))
    }

    pub fn new_from_color(albedo: &Vec3) -> (texture: Self)
        ensures
            texture.albedo == *albedo,
    {
        Self { albedo: *albedo }
    }
}

impl Default for SolidColor {
    fn default() -> (texture: Self)
        ensures
            texture.albedo == (Vec3 { x: ZERO, y: ZERO, z: ZERO }),
    {
        Self { albedo: Vec3 { x: ZERO, y: ZERO, z: ZERO } }
    }
}

impl Texture for SolidColor {
    fn value(&self, _u: i64, _v: i64, _p: &Vec3) -> (color: Vec3)
        ensures
            color == self.albedo,
    {
        self.albedo
    }
}

/// Whether the cell of a checker pattern is an even one: the cell is named by
/// the floors of the three scaled coordinates of a point, and cells alternate
/// along every axis.
pub fn checker_is_even(x_floor: i32, y_floor: i32, z_floor: i32) -> (even: bool)
    ensures
        even == ((x_floor + y_floor + z_floor) % 2 == 0),
{
    let sum: i64 = x_floor as i64 + y_floor as i64 + z_floor as i64;
    sum % 2 == 0
}

/// Two textures in alternating cells of space. `cell` gives the cell of a
/// point: the floors of its coordinates, scaled to the size of the cells.
pub struct CheckerTexture<E: Texture, O: Texture, F: Fn(&Vec3) -> (i32, i32, i32)> {
    cell: F,
    even: E,
    odd: O,
}

impl<E: Texture, O: Texture, F: Fn(&Vec3) -> (i32, i32, i32)> CheckerTexture<E, O, F> {
    #[verifier::type_invariant]
    spec fn callable(self) -> bool {
        forall|p: &Vec3| call_requires(self.cell, (p,))
    }

    pub closed spec fn cell(self) -> F {
        self.cell
    }

    pub closed spec fn even(self) -> E {
        self.even
    }

    pub closed spec fn odd(self) -> O {
        self.odd
    }

    /// `color` is a colour of the pattern at a place: what the even texture
    /// gives there where the cell of the point is even, and what the odd one
    /// gives where it is not.
    pub open spec fn colors(self, u: i64, v: i64, p: Vec3, color: Vec3) -> bool {
        exists|x: i32, y: i32, z: i32|
            {
                &&& #[trigger] call_ensures(self.cell(), (&p,), (x, y, z))
                &&& if (x + y + z) % 2 == 0 {
                    call_ensures(E::value, (&self.even(), u, v, &p), color)
                } else {
                    call_ensures(O::value, (&self.odd(), u, v, &p), color)
                }
            }
    }

    pub fn new_from_textures(cell: F, even: E, odd: O) -> (texture: Self)
        requires
            forall|p: &Vec3| call_requires(cell, (p,)),
        ensures
            texture.cell() == cell,
            texture.even() == even,
            texture.odd() == odd,
    {
        CheckerTexture { cell, even, odd }
    }
}

impl<F: Fn(&Vec3) -> (i32, i32, i32)> CheckerTexture<SolidColor, SolidColor, F> {
    /// The pattern of two colours.
    pub fn new(cell: F, c1: &Vec3, c2: &Vec3) -> (texture: Self)
        requires
            forall|p: &Vec3| call_requires(cell, (p,)),
        ensures
            texture.cell() == cell,
            texture.even().albedo == *c1,
            texture.odd().albedo == *c2,
    {
        Self::new_from_textures(
            cell,
            SolidColor::new_from_color(c1),
            SolidColor::new_from_color(c2),
        )
    }
}

impl<E: Texture, O: Texture, F: Fn(&Vec3) -> (i32, i32, i32)> Texture for CheckerTexture<E, O, F> {
    fn value(&self, u: i64, v: i64, p: &Vec3) -> (color: Vec3)
        ensures
            self.colors(u, v, *p, color),
    {
        proof {
            use_type_invariant(self);
        }
        let (x_floor, y_floor, z_floor) = (self.cell)(p);
        assert(call_ensures(self.cell(), (p,), (x_floor, y_floor, z_floor)));
        if checker_is_even(x_floor, y_floor, z_floor) {
            return self.even.value(u, v, p);
        }
        self.odd.value(u, v, p)
    }
}

/// The colour that stands in for a missing image: magenta.
pub open spec fn missing() -> Vec3 {
    Vec3 { x: ONE, y: ZERO, z: ONE }
}

/// An image wrapped around a surface. `locate` gives, for texture
/// coordinates within the unit range and the width and height of the image,
/// the column and row of a pixel; `tint` gives the colour of three bytes.
pub struct ImageTexture<L: Fn(i64, i64, i32, i32) -> (i32, i32), C: Fn(u8, u8, u8) -> Vec3> {
    image: RTWImage,
    locate: L,
    tint: C,
}

impl<L: Fn(i64, i64, i32, i32) -> (i32, i32), C: Fn(u8, u8, u8) -> Vec3> ImageTexture<L, C> {
    #[verifier::type_invariant]
    spec fn usable(self) -> bool {
        &&& self.image.well_formed()
        &&& forall|u: i64, v: i64, w: i32, h: i32| call_requires(self.locate, (u, v, w, h))
        &&& forall|r: u8, g: u8, b: u8| call_requires(self.tint, (r, g, b))
    }

    pub closed spec fn image(self) -> RTWImage {
        self.image
    }

    pub closed spec fn locate(self) -> L {
        self.locate
    }

    pub closed spec fn tint(self) -> C {
        self.tint
    }

    /// `color` is a colour of the texture at the coordinates `u` and `v`:
    /// magenta where there is no image; otherwise the colour that `tint`
    /// gives for the bytes of the pixel nearest to the column and row that
    /// `locate` gives for the coordinates, each brought into the unit
    /// range.
    pub open spec fn colors(self, u: i64, v: i64, color: Vec3) -> bool {
        let image = self.image();
        if image.bdata@.len() == 0 {
            color == missing()
        } else {
            exists|i: i32, j: i32|
                {
                    &&& #[trigger] call_ensures(
                        self.locate(),
                        (
                            unit().nearest_to(u),
                            unit().nearest_to(v),
                            image.image_width,
                            image.image_height,
                        ),
                        (i, j),
                    )
                    &&& call_ensures(
                        self.tint(),
                        (
                            image.bdata@[image.offset_of(i as int, j as int)],
                            image.bdata@[image.offset_of(i as int, j as int) + 1],
                            image.bdata@[image.offset_of(i as int, j as int) + 2],
                        ),
                        color,
                    )
                }
        }
    }

    pub fn new(image: RTWImage, locate: L, tint: C) -> (texture: Self)
        requires
            image.well_formed(),
            forall|u: i64, v: i64, w: i32, h: i32| call_requires(locate, (u, v, w, h)),
            forall|r: u8, g: u8, b: u8| call_requires(tint, (r, g, b)),
        ensures
            texture.image() == image,
            texture.locate() == locate,
            texture.tint() == tint,
    {
        ImageTexture { image, locate, tint }
    }
}

impl<L: Fn(i64, i64, i32, i32) -> (i32, i32), C: Fn(u8, u8, u8) -> Vec3> Texture for ImageTexture<
    L,
    C,
> {
    fn value(&self, u: i64, v: i64, _p: &Vec3) -> (color: Vec3)
        ensures
            self.colors(u, v, color),
    {
        proof {
            use_type_invariant(self);
        }
        let unit_interval = Interval::new(ZERO, ONE);
        let cu: i64 = unit_interval.clamp(u);
        let cv: i64 = unit_interval.clamp(v);
        match self.image.pixel_at(cu, cv, &self.locate) {
            Some((r, g, b)) => {
                let color = (self.tint)(r, g, b);
                proof {
                    let image = self.image();
                    let (i, j) = choose|i: i32, j: i32|
                        {
                            &&& #[trigger] call_ensures(
                                self.locate(),
                                (cu, cv, image.image_width, image.image_height),
                                (i, j),
                            )
                            &&& Some((r, g, b)) == Some(
                                (
                                    image.bdata@[image.offset_of(i as int, j as int)],
                                    image.bdata@[image.offset_of(i as int, j as int) + 1],
                                    image.bdata@[image.offset_of(i as int, j as int) + 2],
                                ),
                            )
                        };
                    assert(call_ensures(
                        self.locate(),
                        (
                            unit().nearest_to(u),
                            unit().nearest_to(v),
                            image.image_width,
                            image.image_height,
                        ),
                        (i, j),
                    ));
                    assert(call_ensures(self.tint(), (r, g, b), color));
                }
                color
            },
            None => Vec3::new(ONE, ZERO, ONE),
        }
    }
}

/// The number of octaves of the turbulence of a noise texture.
pub const OCTAVES: i32 = 7;

/// Turbulent noise. `cell`, `blend`, `fold` and `next` are the arithmetic of
/// the noise and of its turbulence; `shade` makes a colour of a point and of
/// the turbulence there.
pub struct NoiseTexture<
    C: Fn(&Vec3) -> (usize, usize, usize),
    B: Fn(&Vec<Vec3>, &Vec3) -> i64,
    F: Fn(i64, i64, i64) -> i64,
    N: Fn(i64, &Vec3) -> (i64, Vec3),
    S: Fn(&Vec3, i64) -> Vec3,
> {
    noise: Perlin,
    cell: C,
    blend: B,
    fold: F,
    next: N,
    shade: S,
}

impl<
    C: Fn(&Vec3) -> (usize, usize, usize),
    B: Fn(&Vec<Vec3>, &Vec3) -> i64,
    F: Fn(i64, i64, i64) -> i64,
    N: Fn(i64, &Vec3) -> (i64, Vec3),
    S: Fn(&Vec3, i64) -> Vec3,
> NoiseTexture<C, B, F, N, S> {
    #[verifier::type_invariant]
    spec fn usable(self) -> bool {
        &&& self.noise.well_formed()
        &&& forall|q: &Vec3| call_requires(self.cell, (q,))
        &&& forall|c: &Vec<Vec3>, q: &Vec3| call_requires(self.blend, (c, q))
        &&& forall|accum: i64, weight: i64, octave: i64|
            call_requires(self.fold, (accum, weight, octave))
        &&& forall|weight: i64, q: &Vec3| call_requires(self.next, (weight, q))
        &&& forall|q: &Vec3, turbulence: i64| call_requires(self.shade, (q, turbulence))
    }

    pub closed spec fn noise(self) -> Perlin {
        self.noise
    }

    pub closed spec fn cell(self) -> C {
        self.cell
    }

    pub closed spec fn blend(self) -> B {
        self.blend
    }

    pub closed spec fn fold(self) -> F {
        self.fold
    }

    pub closed spec fn next(self) -> N {
        self.next
    }

    pub closed spec fn shade(self) -> S {
        self.shade
    }

    /// `color` is a colour of the texture at `p`: what `shade` makes of `p`
    /// and of the turbulence of seven octaves there.
    pub open spec fn colors(self, p: Vec3, color: Vec3) -> bool {
        exists|accum: i64, weight: i64, at: Vec3|
            #![trigger self.noise().octaves(&self.cell(), &self.blend(), &self.fold(), &self.next(), p, OCTAVES as int, accum, weight, at)]
            {
                &&& self.noise().octaves(
                    &self.cell(),
                    &self.blend(),
                    &self.fold(),
                    &self.next(),
                    p,
                    OCTAVES as int,
                    accum,
                    weight,
                    at,
                )
                &&& call_ensures(self.shade(), (&p, magnitude_of(accum)), color)
            }
    }

    /// The texture over a lattice with the gradients `rand_vec` and freshly
    /// shuffled tables.
    pub fn new(rand_vec: Vec<Vec3>, cell: C, blend: B, fold: F, next: N, shade: S) -> (texture: Self)
        requires
            rand_vec@.len() == POINT_COUNT,
            forall|q: &Vec3| call_requires(cell, (q,)),
            forall|c: &Vec<Vec3>, q: &Vec3| call_requires(blend, (c, q)),
            forall|accum: i64, weight: i64, octave: i64|
                call_requires(fold, (accum, weight, octave)),
            forall|weight: i64, q: &Vec3| call_requires(next, (weight, q)),
            forall|q: &Vec3, turbulence: i64| call_requires(shade, (q, turbulence)),
        ensures
            texture.noise().well_formed(),
            texture.noise().rand_vec@ == rand_vec@,
            texture.cell() == cell,
            texture.blend() == blend,
            texture.fold() == fold,
            texture.next() == next,
            texture.shade() == shade,
    {
        NoiseTexture { noise: Perlin::new(rand_vec), cell, blend, fold, next, shade }
    }
}

impl<
    C: Fn(&Vec3) -> (usize, usize, usize),
    B: Fn(&Vec<Vec3>, &Vec3) -> i64,
    F: Fn(i64, i64, i64) -> i64,
    N: Fn(i64, &Vec3) -> (i64, Vec3),
    S: Fn(&Vec3, i64) -> Vec3,
> Texture for NoiseTexture<C, B, F, N, S> {
    fn value(&self, _u: i64, _v: i64, p: &Vec3) -> (color: Vec3)
        ensures
            self.colors(*p, color),
    {
        proof {
            use_type_invariant(self);
        }
        let turbulence: i64 = self.noise.turb(
            p,
            OCTAVES,
            &self.cell,
            &self.blend,
            &self.fold,
            &self.next,
        );
        let color: Vec3 = (self.shade)(p, turbulence);
        proof {
            let (accum, weight, at) = choose|accum: i64, weight: i64, at: Vec3| #[trigger]
                self.noise.octaves(
                    &self.cell,
                    &self.blend,
                    &self.fold,
                    &self.next,
                    *p,
                    OCTAVES as int,
                    accum,
                    weight,
                    at,
                ) && turbulence == magnitude_of(accum);
            assert(self.noise().octaves(
                &self.cell(),
                &self.blend(),
                &self.fold(),
                &self.next(),
                *p,
                OCTAVES as int,
                accum,
                weight,
                at,
            ));
            assert(call_ensures(self.shade(), (p, magnitude_of(accum)), color));
        }
        color
    }
}

} // verus!
