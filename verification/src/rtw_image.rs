//! A decoded image: rows of pixels of three bytes each.

use vstd::prelude::*;

verus! {

pub struct RTWImage {
    pub bytes_per_pixel: i32,
    pub bdata: Vec<u8>,
    pub image_width: i32,
    pub image_height: i32,
    pub bytes_per_scanline: i32,
}

/// `x` brought into `low..high`: what lies below becomes `low`, what lies at
/// or above `high` becomes `high - 1`.
pub open spec fn clamped(x: int, low: int, high: int) -> int {
    if x < low {
        low
    } else if x < high {
        x
    } else {
        high - 1
    }
}

/// Whether a buffer of `length` bytes is an image of `width` by `height`
/// pixels of three bytes, small enough for the offset of every byte and the
/// length of a row to be 32-bit numbers.
pub open spec fn fits(width: int, height: int, length: int) -> bool {
    &&& width * height * 3 == length
    &&& length <= i32::MAX
    &&& width * 3 <= i32::MAX
    &&& height <= i32::MAX
}

impl RTWImage {
    /// No image, or rows of `image_width` pixels of three bytes that fill
    /// the buffer.
    pub open spec fn well_formed(&self) -> bool {
        &&& self.bytes_per_pixel == 3
        &&& 0 <= self.image_width
        &&& 0 <= self.image_height
        &&& self.bytes_per_scanline == self.image_width * 3
        &&& self.bdata@.len() == self.image_width * self.image_height * 3
        &&& self.bdata@.len() <= i32::MAX
    }

    /// The offset of the first byte of the pixel nearest to column `x` of row
    /// `y`.
    pub open spec fn offset_of(&self, x: int, y: int) -> int {
        clamped(y, 0, self.image_height as int) * self.bytes_per_scanline + clamped(
            x,
            0,
            self.image_width as int,
        ) * self.bytes_per_pixel
    }

    /// Takes over a decoded image: `pixels` holds `height` rows of `width`
    /// pixels, three bytes to the pixel. Where the buffer has another length,
    /// or the image is too large for 32-bit offsets, the image is left empty
    /// and `false` is returned.
    pub fn load(&mut self, width: u32, height: u32, pixels: Vec<u8>) -> (loaded: bool)
        ensures
            final(self).well_formed(),
            loaded == fits(width as int, height as int, pixels@.len() as int),
            loaded ==> {
                &&& final(self).bdata@ == pixels@
                &&& final(self).image_width == width
                &&& final(self).image_height == height
            },
            !loaded ==> {
                &&& final(self).bdata@.len() == 0
                &&& final(self).image_width == 0
                &&& final(self).image_height == 0
            },
    {
        self.bdata = Vec::new();
        self.image_width = 0;
        self.image_height = 0;
        self.bytes_per_pixel = 3;
        self.bytes_per_scanline = 0;
        if width > 0x7FFF_FFFF / 3 || height > 0x7FFF_FFFF {
            return false;
        }
        assert(width * height <= 0x7FFF_FFFF * 0x7FFF_FFFF) by (nonlinear_arith)
            requires
                0 <= width <= 0x7FFF_FFFF,
                0 <= height <= 0x7FFF_FFFF,
        ;
        let total: u64 = (width as u64) * (height as u64);
        if total > 0x7FFF_FFFF / 3 || total * 3 != pixels.len() as u64 {
            return false;
        }
        self.image_width = width as i32;
        self.image_height = height as i32;
        self.bytes_per_scanline = self.image_width * self.bytes_per_pixel;
        self.bdata = pixels;
        true
    }

    pub fn width(&self) -> (width: i32)
        ensures
            width == (if self.bdata@.len() == 0 {
                0
            } else {
                self.image_width
            }),
    {
        if self.bdata.len() == 0 {
            return 0;
        }
        self.image_width
    }

    pub fn height(&self) -> (height: i32)
        ensures
            height == (if self.bdata@.len() == 0 {
                0
            } else {
                self.image_height
            }),
    {
        if self.bdata.len() == 0 {
            return 0;
        }
        self.image_height
    }

    /// The offset of the pixel at column `x` of row `y`, both brought into
    /// range; 0 where there is no image.
    pub fn pixel_data(&self, x: i32, y: i32) -> (offset: usize)
        requires
            self.well_formed(),
        ensures
            self.bdata@.len() == 0 ==> offset == 0,
            self.bdata@.len() > 0 ==> offset == self.offset_of(x as int, y as int) && offset + 2
                < self.bdata@.len(),
    {
        if self.bdata.len() == 0 {
            return 0;
        }
        proof {
            lemma_dimensions(self.image_width as int, self.image_height as int);
        }
        let x: i32 = clamp(x, 0, self.image_width);
        let y: i32 = clamp(y, 0, self.image_height);
        proof {
            lemma_offset_in_range(
                x as int,
                y as int,
                self.image_width as int,
                self.image_height as int,
            );
        }
        (y * self.bytes_per_scanline + x * self.bytes_per_pixel) as usize
    }

    /// The byte at `index`.
    pub fn index(&self, index: usize) -> (byte: u8)
        requires
            index < self.bdata@.len(),
        ensures
            byte == self.bdata@[index as int],
    {
        self.bdata[index]
    }

    /// The three bytes of the pixel nearest to column `x` of row `y`, or
    /// nothing where there is no image.
    pub fn pixel(&self, x: i32, y: i32) -> (rgb: Option<(u8, u8, u8)>)
        requires
            self.well_formed(),
        ensures
            self.bdata@.len() == 0 ==> rgb is None,
            self.bdata@.len() > 0 ==> rgb == Some(
                (
                    self.bdata@[self.offset_of(x as int, y as int)],
                    self.bdata@[self.offset_of(x as int, y as int) + 1],
                    self.bdata@[self.offset_of(x as int, y as int) + 2],
                ),
            ),
    {
        if self.height() <= 0 {
            proof {
                if self.bdata@.len() > 0 {
                    lemma_dimensions(self.image_width as int, self.image_height as int);
                }
            }
            return None;
        }
        let at: usize = self.pixel_data(x, y);
        Some((self.index(at), self.index(at + 1), self.index(at + 2)))
    }
}

impl RTWImage {
    /// The bytes of the pixel that `locate` picks for the texture coordinates
    /// `u` and `v`, or nothing where there is no image.
    pub fn pixel_at<L: Fn(i64, i64, i32, i32) -> (i32, i32)>(&self, u: i64, v: i64, locate: &L) -> (rgb:
        Option<(u8, u8, u8)>)
        requires
            self.well_formed(),
            forall|u: i64, v: i64, w: i32, h: i32| call_requires(*locate, (u, v, w, h)),
        ensures
            self.bdata@.len() == 0 ==> rgb is None,
            self.bdata@.len() > 0 ==> exists|i: i32, j: i32|
                {
                    &&& #[trigger] call_ensures(
                        *locate,
                        (u, v, self.image_width, self.image_height),
                        (i, j),
                    )
                    &&& rgb == Some(
                        (
                            self.bdata@[self.offset_of(i as int, j as int)],
                            self.bdata@[self.offset_of(i as int, j as int) + 1],
                            self.bdata@[self.offset_of(i as int, j as int) + 2],
                        ),
                    )
                },
    {
        if self.height() <= 0 {
            proof {
                if self.bdata@.len() > 0 {
                    lemma_dimensions(self.image_width as int, self.image_height as int);
                }
            }
            return None;
        }
        let (i, j) = locate(u, v, self.width(), self.height());
        self.pixel(i, j)
    }
}

impl Default for RTWImage {
    fn default() -> (image: Self)
        ensures
            image.well_formed(),
            image.bdata@.len() == 0,
            image.image_width == 0,
            image.image_height == 0,
    {
        Self {
            bytes_per_pixel: 3,
            bdata: Vec::new(),
            image_width: 0,
            image_height: 0,
            bytes_per_scanline: 0,
        }
    }
}

/// `x` brought into `low..high`. Where nothing lies in `low..high`, what lies
/// below `low` still becomes `low`, and the rest `high - 1`.
pub fn clamp(x: i32, low: i32, high: i32) -> (c: i32)
    requires
        high > i32::MIN,
    ensures
        c == clamped(x as int, low as int, high as int),
        low < high ==> low <= c < high,
{
    if x < low {
        return low;
    }
    if x < high {
        return x;
    }
    high - 1
}

/// An image that holds bytes has rows and columns.
proof fn lemma_dimensions(width: int, height: int)
    requires
        0 <= width,
        0 <= height,
        width * height * 3 > 0,
    ensures
        width > 0,
        height > 0,
{
    assert(width > 0 && height > 0) by (nonlinear_arith)
        requires
            0 <= width,
            0 <= height,
            width * height * 3 > 0,
    ;
}

/// The three bytes of a pixel inside the image lie inside the buffer.
proof fn lemma_offset_in_range(x: int, y: int, width: int, height: int)
    requires
        0 <= x < width,
        0 <= y < height,
    ensures
        0 <= y * (width * 3) + x * 3,
        y * (width * 3) + x * 3 + 2 < width * height * 3,
        0 <= y * (width * 3) <= width * height * 3,
{
    assert(y * (width * 3) + x * 3 + 3 <= width * height * 3 && 0 <= y * (width * 3)
        <= width * height * 3) by (nonlinear_arith)
        requires
            0 <= x < width,
            0 <= y < height,
    ;
}

} // verus!
