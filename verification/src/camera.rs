//! The camera: where rays start, what colour comes back along them, and
//! the image as text.

use vstd::prelude::*;
use crate::color::{header, pixel_line, write_color, write_header};
use crate::hittable::{names_materials, HitRecord, Hittable};
use crate::interval::Interval;
use crate::material::{black, Material};
use crate::ray::Ray;
use crate::scalar::{le, less_eq, INFINITY, ONE, ZERO};
use crate::vec3::Vec3;

verus! {

/// Code of `0.001`: hits nearer than this to a ray's origin are taken for the
/// surface that the ray has just left, and passed over.
pub const SHADOW_EPSILON: i64 = 0x3F50_624D_D2F1_A9FC;

/// Code of `90`.
pub const NINETY: i64 = 0x4056_8000_0000_0000;

/// Code of `10`.
pub const TEN: i64 = 0x4024_0000_0000_0000;

/// Code of `0.1`.
pub const TENTH: i64 = 0x3FB9_9999_9999_999A;

/// Code of `-1`.
pub const MINUS_ONE: i64 = -0x3FF0_0000_0000_0001;

/// What the arithmetic derives from the settings of a camera before an image
/// is rendered: the share of one sample in a pixel, the place of the first
/// pixel and the steps from pixel to pixel, the three axes of the camera, and
/// the two radii of the defocus disk.
#[derive(Clone, Copy, Debug)]
pub struct Frame {
    pub pixel_samples_scale: i64,
    pub pixel00_loc: Vec3,
    pub pixel_delta_u: Vec3,
    pub pixel_delta_v: Vec3,
    pub u: Vec3,
    pub v: Vec3,
    pub w: Vec3,
    pub defocus_disk_u: Vec3,
    pub defocus_disk_v: Vec3,
}

/// A camera: its settings, which the caller makes, and below them what
/// `initialize` derives from the settings.
#[derive(Clone, Copy, Debug)]
pub struct Camera {
    pub aspect_ratio: i64,
    pub image_width: i32,
    pub samples_per_pixel: i32,
    pub max_depth: i32,
    pub vertical_view_angle: i64,
    pub look_from: Vec3,
    pub look_at: Vec3,
    pub view_up: Vec3,
    pub defocus_angle: i64,
    pub focus_distance: i64,
    pub image_height: i32,
    pub pixel_samples_scale: i64,
    pub center: Vec3,
    pub pixel00_loc: Vec3,
    pub pixel_delta_u: Vec3,
    pub pixel_delta_v: Vec3,
    pub u: Vec3,
    pub v: Vec3,
    pub w: Vec3,
    pub defocus_disk_u: Vec3,
    pub defocus_disk_v: Vec3,
}

/// The arithmetic of a camera and of the light that it gathers.
pub trait Optics {
    /// The height of the image: its width, divided by the aspect ratio and
    /// cut off to a whole number.
    fn image_height(&self, camera: &Camera) -> i32;

    /// What is derived from the settings of a camera whose image has its
    /// height and which stands at its place.
    fn frame(&self, camera: &Camera) -> Frame;

    /// A point drawn at random in the pixel at column `i` of row `j`.
    fn pixel_sample(&self, camera: &Camera, i: i32, j: i32) -> Vec3;

    /// A point drawn at random on the defocus disk.
    fn defocus_disk_sample(&self, camera: &Camera) -> Vec3;

    /// The direction from `origin` to `target`.
    fn direction(&self, origin: &Vec3, target: &Vec3) -> Vec3;

    /// A moment drawn at random within the time of a frame.
    fn ray_time(&self) -> i64;

    /// The colour of the background along a ray.
    fn background(&self, ray: &Ray) -> Vec3;

    /// The colour `color`, dimmed by `factor`.
    fn multiply(&self, factor: &Vec3, color: &Vec3) -> Vec3;

    /// The sum of a sum of samples and one more sample.
    fn accumulate(&self, sum: &Vec3, sample: &Vec3) -> Vec3;

    /// The three channels of a pixel, as whole numbers from 0 to 255, of the
    /// sum of its samples.
    fn develop(&self, camera: &Camera, sum: &Vec3) -> (i32, i32, i32);
}

/// The range in which hits count: from the shadow epsilon outwards.
pub open spec fn beyond_origin() -> Interval {
    Interval { min: SHADOW_EPSILON, max: INFINITY }
}

/// `color` is a colour that can come back along `ray` from `world` with
/// a budget of `depth` bounces. With no budget left it is black. Otherwise
/// the world is asked for the nearest hit beyond the shadow epsilon: a ray
/// that misses brings back the colour of the background; at a hit, the
/// material that the record names in `materials` decides whether the ray goes
/// on, with what factor and along which ray; a ray that does not go on brings
/// back black, and one that does brings back, dimmed by the factor, a colour
/// that comes back along the new ray with one bounce less.
pub open spec fn is_color<W: Hittable, M: Material, O: Optics>(
    world: W,
    materials: Seq<M>,
    optics: O,
    ray: Ray,
    depth: int,
    color: Vec3,
) -> bool
    decreases depth,
{
    if depth <= 0 {
        color == black()
    } else {
        ||| call_ensures(W::hit, (&world, &ray, &beyond_origin()), None) && call_ensures(
            O::background,
            (&optics, &ray),
            color,
        )
        ||| color == black() && exists|record: HitRecord|
            call_ensures(W::hit, (&world, &ray, &beyond_origin()), Some(record))
                && #[trigger] call_ensures(M::scatter, (&materials[record.material as int], &ray, &record), None)
        ||| exists|record: HitRecord, attenuation: Vec3, next: Ray, inner: Vec3|
            #![trigger call_ensures(M::scatter, (&materials[record.material as int], &ray, &record), Some((attenuation, next))), call_ensures(O::multiply, (&optics, &attenuation, &inner), color)]
            {
                &&& call_ensures(W::hit, (&world, &ray, &beyond_origin()), Some(record))
                &&& call_ensures(M::scatter, (&materials[record.material as int], &ray, &record), Some((attenuation, next)))
                &&& is_color(world, materials, optics, next, depth - 1, inner)
                &&& call_ensures(O::multiply, (&optics, &attenuation, &inner), color)
            }
    }
}

/// The lines of `pixels`, one line to the pixel.
pub open spec fn lines(pixels: Seq<(i32, i32, i32)>) -> Seq<u8>
    decreases pixels.len(),
{
    if pixels.len() == 0 {
        Seq::<u8>::empty()
    } else {
        lines(pixels.drop_last()) + pixel_line(
            pixels.last().0 as int,
            pixels.last().1 as int,
            pixels.last().2 as int,
        )
    }
}

/// The number of pixels of an image; an image with a side below one has none.
pub open spec fn pixel_count(width: int, height: int) -> int {
    if width <= 0 || height <= 0 {
        0
    } else {
        width * height
    }
}

impl Camera {
    /// The camera with an image of the height `height`, or of the height one
    /// where `height` is less.
    pub open spec fn sized(self, height: i32) -> Camera {
        Camera {
            image_height: if height < 1 {
                1
            } else {
                height
            },
            ..self
        }
    }

    /// The camera at its place: where it looks from.
    pub open spec fn centered(self) -> Camera {
        Camera { center: self.look_from, ..self }
    }

    /// The camera with what the arithmetic derives from its settings.
    pub open spec fn with_frame(self, frame: Frame) -> Camera {
        Camera {
            pixel_samples_scale: frame.pixel_samples_scale,
            pixel00_loc: frame.pixel00_loc,
            pixel_delta_u: frame.pixel_delta_u,
            pixel_delta_v: frame.pixel_delta_v,
            u: frame.u,
            v: frame.v,
            w: frame.w,
            defocus_disk_u: frame.defocus_disk_u,
            defocus_disk_v: frame.defocus_disk_v,
            ..self
        }
    }

    /// `ready` is the camera as `initialize` can leave it: the settings are
    /// what they were, the image is as high as `optics` makes it, and at least
    /// one pixel high, the camera stands where it looks from, and the rest is
    /// what `optics` derives for that height and place.
    pub open spec fn initialized<O: Optics>(self, optics: O, ready: Camera) -> bool {
        exists|height: i32, frame: Frame|
            #![trigger call_ensures(O::image_height, (&optics, &self), height), call_ensures(O::frame, (&optics, &self.sized(height).centered()), frame)]
            {
                &&& call_ensures(O::image_height, (&optics, &self), height)
                &&& call_ensures(O::frame, (&optics, &self.sized(height).centered()), frame)
                &&& ready == self.sized(height).centered().with_frame(frame)
            }
    }

    /// `ray` is a ray that the camera can cast for the pixel at column `i`
    /// of row `j`: it starts at the place of the camera, or, where the
    /// defocus angle is above zero, at a point drawn on the defocus disk; it
    /// goes from there in the direction of a point drawn in the pixel; and it
    /// is cast at a moment drawn at random.
    pub open spec fn casts<O: Optics>(self, optics: O, i: i32, j: i32, ray: Ray) -> bool {
        exists|target: Vec3|
            {
                &&& #[trigger] call_ensures(O::pixel_sample, (&optics, &self, i, j), target)
                &&& if le(self.defocus_angle, ZERO) {
                    ray.origin == self.center
                } else {
                    call_ensures(O::defocus_disk_sample, (&optics, &self), ray.origin)
                }
                &&& call_ensures(O::direction, (&optics, &ray.origin, &target), ray.direction)
                &&& call_ensures(O::ray_time, (&optics,), ray.time)
            }
    }

    /// `sum` is a sum of `count` samples of the pixel at column `i` of row
    /// `j`: starting from black, the colour that comes back along each ray
    /// that the camera casts for the pixel is added to the sum so far.
    pub open spec fn sums<W: Hittable, M: Material, O: Optics>(
        self,
        world: W,
        materials: Seq<M>,
        optics: O,
        i: i32,
        j: i32,
        count: int,
        sum: Vec3,
    ) -> bool
        decreases count,
    {
        if count <= 0 {
            sum == black()
        } else {
            exists|before: Vec3, ray: Ray, color: Vec3|
                #![trigger self.casts(optics, i, j, ray), call_ensures(O::accumulate, (&optics, &before, &color), sum)]
                {
                    &&& self.sums(world, materials, optics, i, j, count - 1, before)
                    &&& self.casts(optics, i, j, ray)
                    &&& is_color(world, materials, optics, ray, self.max_depth as int, color)
                    &&& call_ensures(O::accumulate, (&optics, &before, &color), sum)
                }
        }
    }

    /// `rgb` are channels that the pixel at column `i` of row `j` can have:
    /// what `optics` develops from a sum of as many samples as the camera
    /// takes for a pixel.
    pub open spec fn shades<W: Hittable, M: Material, O: Optics>(
        self,
        world: W,
        materials: Seq<M>,
        optics: O,
        i: i32,
        j: i32,
        rgb: (i32, i32, i32),
    ) -> bool {
        exists|sum: Vec3|
            self.sums(world, materials, optics, i, j, self.samples_per_pixel as int, sum)
                && #[trigger] call_ensures(O::develop, (&optics, &self, &sum), rgb)
    }

    /// `pixels` holds, row after row from the top and from left to right
    /// within a row, channels that the pixels of the image can have.
    pub open spec fn paints<W: Hittable, M: Material, O: Optics>(
        self,
        world: W,
        materials: Seq<M>,
        optics: O,
        pixels: Seq<(i32, i32, i32)>,
    ) -> bool {
        forall|k: int|
            0 <= k < pixels.len() ==> self.shades(
                world,
                materials,
                optics,
                (k % (self.image_width as int)) as i32,
                (k / (self.image_width as int)) as i32,
                #[trigger] pixels[k],
            )
    }

    /// Derives the height of the image, the place of the camera and its
    /// frame from the settings: the image is at least one pixel high, and the
    /// camera stands where it looks from.
    pub fn initialize<O: Optics>(&mut self, optics: &O)
        ensures
            old(self).initialized(*optics, *final(self)),
            final(self).image_height >= 1,
            final(self).center == old(self).look_from,
            final(self).aspect_ratio == old(self).aspect_ratio,
            final(self).image_width == old(self).image_width,
            final(self).samples_per_pixel == old(self).samples_per_pixel,
            final(self).max_depth == old(self).max_depth,
            final(self).vertical_view_angle == old(self).vertical_view_angle,
            final(self).look_from == old(self).look_from,
            final(self).look_at == old(self).look_at,
            final(self).view_up == old(self).view_up,
            final(self).defocus_angle == old(self).defocus_angle,
            final(self).focus_distance == old(self).focus_distance,
    {
        let height: i32 = optics.image_height(self);
        self.image_height = if height < 1 {
            1
        } else {
            height
        };
        self.center = self.look_from;
        let frame: Frame = optics.frame(self);
        self.pixel_samples_scale = frame.pixel_samples_scale;
        self.pixel00_loc = frame.pixel00_loc;
        self.pixel_delta_u = frame.pixel_delta_u;
        self.pixel_delta_v = frame.pixel_delta_v;
        self.u = frame.u;
        self.v = frame.v;
        self.w = frame.w;
        self.defocus_disk_u = frame.defocus_disk_u;
        self.defocus_disk_v = frame.defocus_disk_v;
        assert(call_ensures(O::image_height, (optics, &*old(self)), height));
        assert(call_ensures(O::frame, (optics, &old(self).sized(height).centered()), frame));
    }

    /// A ray for the pixel at column `i` of row `j`. Where the defocus angle
    /// is not above zero, it starts at the place of the camera.
    pub fn get_ray<O: Optics>(&self, i: i32, j: i32, optics: &O) -> (ray: Ray)
        ensures
            self.casts(*optics, i, j, ray),
            le(self.defocus_angle, ZERO) ==> ray.origin == self.center,
    {
        let pixel_sample: Vec3 = optics.pixel_sample(self, i, j);
        let ray_origin: Vec3 = if less_eq(self.defocus_angle, ZERO) {
            self.center
        } else {
            optics.defocus_disk_sample(self)
        };
        let ray_direction: Vec3 = optics.direction(&ray_origin, &pixel_sample);
        let ray_time: i64 = optics.ray_time();
        assert(call_ensures(O::pixel_sample, (optics, self, i, j), pixel_sample));
        Ray::new(&ray_origin, &ray_direction, Some(ray_time))
    }

    /// The colour that comes back along `ray` from `world`, followed for at
    /// most `depth` bounces. At a hit, the material that the record names in
    /// `materials` is asked what becomes of the ray.
    pub fn ray_color<W: Hittable, M: Material, O: Optics>(
        &self,
        ray: &Ray,
        depth: i32,
        world: &W,
        materials: &Vec<M>,
        optics: &O,
    ) -> (color: Vec3)
        requires
            names_materials(*world, materials@.len() as int),
        ensures
            is_color(*world, materials@, *optics, *ray, depth as int, color),
            depth <= 0 ==> color == black(),
        decreases depth,
    {
        if depth <= 0 {
            return Vec3::new(ZERO, ZERO, ZERO);
        }
        let found: Option<HitRecord> = world.hit(ray, &Interval::new(SHADOW_EPSILON, INFINITY));
        match found {
            Some(record) => {
                let material: &M = &materials[record.material];
                match material.scatter(ray, &record) {
                    Some((attenuation, scattered)) => {
                        let inner: Vec3 = self.ray_color(
                            &scattered,
                            depth - 1,
                            world,
                            materials,
                            optics,
                        );
                        let color: Vec3 = optics.multiply(&attenuation, &inner);
                        assert(call_ensures(
                            M::scatter,
                            (&materials@[record.material as int], ray, &record),
                            Some((attenuation, scattered)),
                        ));
                        assert(call_ensures(O::multiply, (optics, &attenuation, &inner), color));
                        color
                    },
                    None => {
                        assert(call_ensures(
                            M::scatter,
                            (&materials@[record.material as int], ray, &record),
                            None,
                        ));
                        Vec3::new(ZERO, ZERO, ZERO)
                    },
                }
            },
            None => optics.background(ray),
        }
    }

    /// The channels of the pixel at column `i` of row `j`: the samples of the
    /// pixel are added up and developed.
    pub fn pixel<W: Hittable, M: Material, O: Optics>(
        &self,
        i: i32,
        j: i32,
        world: &W,
        materials: &Vec<M>,
        optics: &O,
    ) -> (rgb: (i32, i32, i32))
        requires
            names_materials(*world, materials@.len() as int),
        ensures
            self.shades(*world, materials@, *optics, i, j, rgb),
    {
        let mut pixel_color = Vec3::new(ZERO, ZERO, ZERO);
        let mut k: i32 = 0;
        while k < self.samples_per_pixel
            invariant
                names_materials(*world, materials@.len() as int),
                0 <= k,
                k <= self.samples_per_pixel || k == 0,
                self.sums(*world, materials@, *optics, i, j, k as int, pixel_color),
            decreases self.samples_per_pixel - k,
        {
            let ghost before = pixel_color;
            let ray: Ray = self.get_ray(i, j, optics);
            let color: Vec3 = self.ray_color(&ray, self.max_depth, world, materials, optics);
            pixel_color = optics.accumulate(&pixel_color, &color);
            k += 1;
            assert(call_ensures(O::accumulate, (optics, &before, &color), pixel_color));
        }
        assert(self.sums(*world, materials@, *optics, i, j, self.samples_per_pixel as int, pixel_color));
        let rgb = optics.develop(self, &pixel_color);
        assert(call_ensures(O::develop, (optics, self, &pixel_color), rgb));
        rgb
    }

    /// Renders the world as the text of a plain PPM image: the camera is
    /// initialised; then comes the header, and one line for each pixel,
    /// scanline by scanline from the top and from left to right within a
    /// scanline.
    pub fn render<W: Hittable, M: Material, O: Optics>(
        &mut self,
        world: &W,
        materials: &Vec<M>,
        optics: &O,
    ) -> (image: Vec<u8>)
        requires
            names_materials(*world, materials@.len() as int),
        ensures
            old(self).initialized(*optics, *final(self)),
            exists|pixels: Seq<(i32, i32, i32)>|
                {
                    &&& pixels.len() == pixel_count(
                        final(self).image_width as int,
                        final(self).image_height as int,
                    )
                    &&& final(self).paints(*world, materials@, *optics, pixels)
                    &&& image@ == header(
                        final(self).image_width as int,
                        final(self).image_height as int,
                    ) + #[trigger] lines(pixels)
                },
    {
        self.initialize(optics);
        let image_width: i32 = self.image_width;
        let image_height: i32 = self.image_height;
        let mut image: Vec<u8> = Vec::new();
        write_header(&mut image, image_width, image_height);
        let ghost opening = image@;
        let ghost mut pixels: Seq<(i32, i32, i32)> = Seq::empty();
        let mut j: i32 = 0;
        while j < image_height
            invariant
                names_materials(*world, materials@.len() as int),
                0 <= j,
                j <= image_height || j == 0,
                image_width == self.image_width,
                image_height == self.image_height,
                old(self).initialized(*optics, *self),
                opening == header(image_width as int, image_height as int),
                pixels.len() == pixel_count(image_width as int, j as int),
                self.paints(*world, materials@, *optics, pixels),
                image@ == opening + lines(pixels),
            decreases image_height - j,
        {
            let mut i: i32 = 0;
            proof {
                assert(image_width > 0 ==> pixel_count(image_width as int, j as int) == image_width
                    * j) by (nonlinear_arith)
                    requires
                        0 <= j,
                ;
            }
            while i < image_width
                invariant
                    names_materials(*world, materials@.len() as int),
                    0 <= i,
                    0 <= j < image_height,
                    i <= image_width || i == 0,
                    image_width == self.image_width,
                    image_height == self.image_height,
                    old(self).initialized(*optics, *self),
                    pixels.len() == (if image_width <= 0 {
                        0
                    } else {
                        image_width * j + i
                    }),
                    self.paints(*world, materials@, *optics, pixels),
                    image@ == opening + lines(pixels),
                decreases image_width - i,
            {
                let (r, g, b) = self.pixel(i, j, world, materials, optics);
                let ghost before = pixels;
                proof {
                    let k = image_width * j + i;
                    assert(k % (image_width as int) == i && k / (image_width as int) == j)
                        by (nonlinear_arith)
                        requires
                            k == image_width * j + i,
                            0 <= i < image_width,
                            0 <= j,
                    ;
                    pixels = pixels.push((r, g, b));
                    assert(pixels.drop_last() =~= before);
                    assert forall|n: int| 0 <= n < pixels.len() implies self.shades(
                        *world,
                        materials@,
                        *optics,
                        (n % (self.image_width as int)) as i32,
                        (n / (self.image_width as int)) as i32,
                        #[trigger] pixels[n],
                    ) by {
                        if n < before.len() {
                            assert(pixels[n] == before[n]);
                        }
                    }
                }
                write_color(&mut image, r, g, b);
                assert(image@ =~= opening + lines(pixels));
                i += 1;
            }
            proof {
                assert(pixels.len() == pixel_count(image_width as int, j + 1)) by (nonlinear_arith)
                    requires
                        pixels.len() == (if image_width <= 0 {
                            0
                        } else {
                            image_width * j + i
                        }),
                        i >= image_width,
                        i <= image_width || i == 0,
                        0 <= j,
                ;
            }
            j += 1;
        }
        proof {
            assert(pixels.len() == pixel_count(image_width as int, image_height as int));
        }
        image
    }
}

impl Default for Camera {
    /// A square image of a hundred pixels a side, ten samples to the pixel
    /// and ten bounces to the ray, seen from the origin down the negative z
    /// axis, with a view of ninety degrees and no defocus.
    fn default() -> (camera: Self)
        ensures
            camera == (Camera {
                aspect_ratio: ONE,
                image_width: 100,
                samples_per_pixel: 10,
                max_depth: 10,
                vertical_view_angle: NINETY,
                look_from: black(),
                look_at: Vec3 { x: ZERO, y: ZERO, z: MINUS_ONE },
                view_up: Vec3 { x: ZERO, y: ONE, z: ZERO },
                defocus_angle: ZERO,
                focus_distance: TEN,
                image_height: 100,
                pixel_samples_scale: TENTH,
                center: black(),
                pixel00_loc: black(),
                pixel_delta_u: black(),
                pixel_delta_v: black(),
                u: black(),
                v: black(),
                w: black(),
                defocus_disk_u: black(),
                defocus_disk_v: black(),
            }),
    {
        let origin = Vec3 { x: ZERO, y: ZERO, z: ZERO };
        Self {
            aspect_ratio: ONE,
            image_width: 100,
            samples_per_pixel: 10,
            max_depth: 10,
            vertical_view_angle: NINETY,
            look_from: origin,
            look_at: Vec3 { x: ZERO, y: ZERO, z: MINUS_ONE },
            view_up: Vec3 { x: ZERO, y: ONE, z: ZERO },
            defocus_angle: ZERO,
            focus_distance: TEN,
            image_height: 100,
            pixel_samples_scale: TENTH,
            center: origin,
            pixel00_loc: origin,
            pixel_delta_u: origin,
            pixel_delta_v: origin,
            u: origin,
            v: origin,
            w: origin,
            defocus_disk_u: origin,
            defocus_disk_v: origin,
        }
    }
}

} // verus!
