use ray_tracing::rtw_image::RTWImage;
use ray_tracing::scalar::{from_bits, to_bits};
use ray_tracing::texture::{
    checker_is_even, CheckerTexture, ImageTexture, NoiseTexture, SolidColor, Texture, OCTAVES,
};
use ray_tracing::vec3::Vec3;

fn enc(x: f64) -> i64 {
    from_bits(x.to_bits())
}

fn dec(code: i64) -> f64 {
    f64::from_bits(to_bits(code))
}

fn point(x: f64, y: f64, z: f64) -> Vec3 {
    Vec3::new(enc(x), enc(y), enc(z))
}

fn arr(v: &Vec3) -> [f64; 3] {
    [dec(v.x), dec(v.y), dec(v.z)]
}

fn cell(p: &Vec3) -> (i32, i32, i32) {
    (dec(p.x).floor() as i32, dec(p.y).floor() as i32, dec(p.z).floor() as i32)
}

fn locate(u: i64, v: i64, width: i32, height: i32) -> (i32, i32) {
    let u = dec(u);
    let v = 1.0 - dec(v);
    ((u * f64::from(width)) as i32, (v * f64::from(height)) as i32)
}

fn tint(r: u8, g: u8, b: u8) -> Vec3 {
    point(f64::from(r), f64::from(g), f64::from(b))
}

#[test]
fn solid_colour_is_the_same_everywhere() {
    let red = SolidColor::new(enc(1.0), enc(0.0), enc(0.25));
    assert_eq!(arr(&red.value(enc(0.3), enc(0.9), &point(5.0, 6.0, 7.0))), [1.0, 0.0, 0.25]);
    let same = SolidColor::new_from_color(&point(1.0, 0.0, 0.25));
    assert_eq!(arr(&same.albedo), [1.0, 0.0, 0.25]);
    assert_eq!(arr(&SolidColor::default().albedo), [0.0, 0.0, 0.0]);
}

#[test]
fn cells_alternate() {
    assert!(checker_is_even(0, 0, 0));
    assert!(!checker_is_even(1, 0, 0));
    assert!(checker_is_even(1, 1, 0));
    assert!(!checker_is_even(1, 1, 1));
    assert!(!checker_is_even(-1, 0, 0));
    assert!(checker_is_even(-1, -1, 0));
    assert!(checker_is_even(-3, 2, 1));
    assert!(!checker_is_even(i32::MAX, i32::MAX, i32::MAX));
    assert!(checker_is_even(i32::MIN, i32::MIN, i32::MIN));
    assert!(!checker_is_even(i32::MIN, i32::MAX, 0));
}

#[test]
fn checker_shows_one_texture_per_cell() {
    let pattern = CheckerTexture::new(cell, &point(1.0, 1.0, 1.0), &point(0.0, 0.0, 0.0));
    assert_eq!(arr(&pattern.value(0, 0, &point(0.5, 0.5, 0.5))), [1.0, 1.0, 1.0]);
    assert_eq!(arr(&pattern.value(0, 0, &point(1.5, 0.5, 0.5))), [0.0, 0.0, 0.0]);
    assert_eq!(arr(&pattern.value(0, 0, &point(1.5, 1.5, 0.5))), [1.0, 1.0, 1.0]);
    assert_eq!(arr(&pattern.value(0, 0, &point(-0.5, 0.5, 0.5))), [0.0, 0.0, 0.0]);
}

#[test]
fn checker_of_checkers() {
    let fine = CheckerTexture::new(cell, &point(1.0, 0.0, 0.0), &point(0.0, 1.0, 0.0));
    let pattern = CheckerTexture::new_from_textures(
        |p: &Vec3| -> (i32, i32, i32) { ((dec(p.x) / 10.0).floor() as i32, 0, 0) },
        fine,
        SolidColor::new(enc(0.0), enc(0.0), enc(1.0)),
    );
    assert_eq!(arr(&pattern.value(0, 0, &point(0.5, 0.0, 0.0))), [1.0, 0.0, 0.0]);
    assert_eq!(arr(&pattern.value(0, 0, &point(1.5, 0.0, 0.0))), [0.0, 1.0, 0.0]);
    assert_eq!(arr(&pattern.value(0, 0, &point(10.5, 0.0, 0.0))), [0.0, 0.0, 1.0]);
}

fn stripes() -> RTWImage {
    let mut pixels = Vec::new();
    for row in 0..2u8 {
        for column in 0..4u8 {
            pixels.push(10 * row + column);
            pixels.push(100 + column);
            pixels.push(200 + row);
        }
    }
    let mut image = RTWImage::default();
    assert!(image.load(4, 2, pixels));
    image
}

#[test]
fn missing_image_shows_magenta() {
    let texture = ImageTexture::new(RTWImage::default(), locate, tint);
    assert_eq!(arr(&texture.value(enc(0.5), enc(0.5), &point(0.0, 0.0, 0.0))), [1.0, 0.0, 1.0]);
}

#[test]
fn image_is_looked_up_by_texture_coordinates() {
    let texture = ImageTexture::new(stripes(), locate, tint);
    let origin = point(0.0, 0.0, 0.0);
    assert_eq!(arr(&texture.value(enc(0.0), enc(1.0), &origin)), [0.0, 100.0, 200.0]);
    assert_eq!(arr(&texture.value(enc(0.6), enc(0.75), &origin)), [2.0, 102.0, 200.0]);
    assert_eq!(arr(&texture.value(enc(0.3), enc(0.25), &origin)), [11.0, 101.0, 201.0]);
}

#[test]
fn texture_coordinates_outside_the_unit_range_are_brought_in() {
    let texture = ImageTexture::new(stripes(), locate, tint);
    let origin = point(0.0, 0.0, 0.0);
    assert_eq!(arr(&texture.value(enc(7.0), enc(-3.0), &origin)), [13.0, 103.0, 201.0]);
    assert_eq!(arr(&texture.value(enc(-7.0), enc(3.0), &origin)), [0.0, 100.0, 200.0]);
    assert_eq!(arr(&texture.value(enc(1.0), enc(0.0), &origin)), [13.0, 103.0, 201.0]);
}

#[test]
fn noise_texture_shades_the_turbulence_of_seven_octaves() {
    let gradients: Vec<Vec3> = (0..256).map(|_| point(1.0, 0.0, 0.0)).collect();
    let whole = |p: &Vec3| -> (usize, usize, usize) {
        (dec(p.x).floor() as usize, dec(p.y).floor() as usize, dec(p.z).floor() as usize)
    };
    let eighth = |c: &Vec<Vec3>, _p: &Vec3| -> i64 {
        let sum: f64 = c.iter().map(|g| dec(g.x)).sum();
        enc(-sum / 8.0)
    };
    let count = |accum: i64, _weight: i64, octave: i64| -> i64 { enc(dec(accum) + dec(octave)) };
    let stay = |weight: i64, p: &Vec3| -> (i64, Vec3) { (weight, *p) };
    let shade = |p: &Vec3, turbulence: i64| -> Vec3 { point(dec(turbulence), dec(p.y), 0.0) };
    let texture = NoiseTexture::new(gradients, whole, eighth, count, stay, shade);
    assert_eq!(OCTAVES, 7);
    assert_eq!(arr(&texture.value(0, 0, &point(1.5, 2.5, 3.5))), [7.0, 2.5, 0.0]);
}
