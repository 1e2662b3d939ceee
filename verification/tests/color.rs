use ray_tracing::color::{linear_to_gamma, write_color, write_decimal, write_header};
use ray_tracing::scalar::{from_bits, to_bits};

fn enc(x: f64) -> i64 {
    from_bits(x.to_bits())
}

fn dec(code: i64) -> f64 {
    f64::from_bits(to_bits(code))
}

fn root(x: i64) -> i64 {
    enc(dec(x).sqrt())
}

/// The text of a plain pixmap in colour: the header, then the lines of the
/// pixels.
fn ppm(width: i32, height: i32, body: &str) -> String {
    format!("P{}\n{} {}\n255\n{}", 3, width, height, body)
}

fn text(bytes: &[u8]) -> String {
    bytes.iter().map(|b| char::from(*b)).collect()
}

#[test]
fn line_of_a_pixel() {
    let mut out: Vec<u8> = Vec::new();
    write_color(&mut out, 255, 0, 12);
    assert_eq!(text(&out), "255 0 12\n");
    write_color(&mut out, 7, 89, 100);
    assert_eq!(text(&out), "255 0 12\n7 89 100\n");
}

#[test]
fn header_of_an_image() {
    let mut out: Vec<u8> = Vec::new();
    write_header(&mut out, 400, 225);
    assert_eq!(text(&out), ppm(400, 225, ""));
}

#[test]
fn numbers_in_decimal() {
    for n in [0, 1, 9, 10, 11, 99, 100, 255, 1000, 65536, i32::MAX, -1, -10, -255, i32::MIN] {
        let mut out: Vec<u8> = Vec::new();
        write_decimal(&mut out, n);
        assert_eq!(text(&out), format!("{}", n));
    }
}

#[test]
fn writing_appends() {
    let mut out: Vec<u8> = vec![b'x'];
    write_decimal(&mut out, 42);
    assert_eq!(text(&out), "x42");
}

#[test]
fn gamma_of_a_component() {
    assert_eq!(dec(linear_to_gamma(enc(0.25), &root)), 0.5);
    assert_eq!(dec(linear_to_gamma(enc(4.0), &root)), 2.0);
    assert_eq!(linear_to_gamma(enc(0.0), &root), 0);
    assert_eq!(linear_to_gamma(enc(-0.0), &root), 0);
    assert_eq!(linear_to_gamma(enc(-4.0), &root), 0);
    assert_eq!(linear_to_gamma(enc(f64::NAN), &root), 0);
}
