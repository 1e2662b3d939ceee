use ray_tracing::rtw_image::{clamp, RTWImage};

fn image(width: u32, height: u32) -> RTWImage {
    let mut pixels = Vec::new();
    for i in 0..(width * height * 3) {
        pixels.push((i % 251) as u8);
    }
    let mut result = RTWImage::default();
    assert!(result.load(width, height, pixels));
    result
}

#[test]
fn no_image_has_no_size() {
    let none = RTWImage::default();
    assert_eq!(none.width(), 0);
    assert_eq!(none.height(), 0);
    assert_eq!(none.pixel_data(3, 4), 0);
    assert_eq!(none.pixel(3, 4), None);
    assert_eq!(none.bytes_per_pixel, 3);
}

#[test]
fn decoded_image_is_taken_over() {
    let loaded = image(4, 3);
    assert_eq!(loaded.width(), 4);
    assert_eq!(loaded.height(), 3);
    assert_eq!(loaded.bytes_per_pixel, 3);
    assert_eq!(loaded.bytes_per_scanline, 12);
    assert_eq!(loaded.bdata.len(), 36);
    assert_eq!(loaded.index(0), 0);
    assert_eq!(loaded.index(35), 35);
}

#[test]
fn buffer_of_another_length_is_refused() {
    let mut result = image(2, 2);
    assert!(!result.load(4, 3, vec![0u8; 35]));
    assert_eq!(result.width(), 0);
    assert_eq!(result.height(), 0);
    assert_eq!(result.bdata.len(), 0);
    assert!(!result.load(4, 3, vec![0u8; 37]));
    assert!(!result.load(0, 3, vec![0u8; 1]));
    assert!(result.load(4, 3, vec![0u8; 36]));
    assert_eq!(result.width(), 4);
}

#[test]
fn image_too_large_for_its_offsets_is_refused() {
    let mut result = RTWImage::default();
    assert!(!result.load(u32::MAX, u32::MAX, Vec::new()));
    assert!(!result.load(0x7FFF_FFFF, 0, Vec::new()));
    assert!(!result.load(0, 0x8000_0000, Vec::new()));
    assert!(!result.load(715_827_883, 0, Vec::new()));
    assert!(result.load(715_827_882, 0, Vec::new()));
    assert_eq!(result.width(), 0);
}

#[test]
fn image_without_pixels_counts_as_none() {
    let mut result = RTWImage::default();
    assert!(result.load(0, 0, Vec::new()));
    assert_eq!(result.width(), 0);
    assert_eq!(result.height(), 0);
    assert_eq!(result.pixel(0, 0), None);
    assert!(result.load(5, 0, Vec::new()));
    assert_eq!(result.width(), 0);
    assert_eq!(result.image_width, 5);
}

#[test]
fn offset_of_a_pixel() {
    let loaded = image(4, 3);
    assert_eq!(loaded.pixel_data(0, 0), 0);
    assert_eq!(loaded.pixel_data(1, 0), 3);
    assert_eq!(loaded.pixel_data(0, 1), 12);
    assert_eq!(loaded.pixel_data(3, 2), 33);
    assert_eq!(loaded.pixel_data(2, 1), 18);
}

#[test]
fn columns_and_rows_outside_the_image_are_brought_in() {
    let loaded = image(4, 3);
    assert_eq!(loaded.pixel_data(-1, 0), 0);
    assert_eq!(loaded.pixel_data(4, 0), 9);
    assert_eq!(loaded.pixel_data(100, 100), 33);
    assert_eq!(loaded.pixel_data(0, 3), 24);
    assert_eq!(loaded.pixel_data(i32::MIN, i32::MAX), 24);
    assert_eq!(loaded.pixel_data(i32::MAX, i32::MIN), 9);
}

#[test]
fn bytes_of_a_pixel() {
    let loaded = image(4, 3);
    assert_eq!(loaded.pixel(2, 1), Some((18, 19, 20)));
    assert_eq!(loaded.pixel(3, 2), Some((33, 34, 35)));
    assert_eq!(loaded.pixel(9, -9), Some((9, 10, 11)));
    let locate = |_u: i64, _v: i64, width: i32, height: i32| -> (i32, i32) { (width - 1, height) };
    assert_eq!(loaded.pixel_at(0, 0, &locate), Some((33, 34, 35)));
    assert_eq!(RTWImage::default().pixel_at(0, 0, &locate), None);
}

#[test]
fn clamping_an_index() {
    assert_eq!(clamp(-5, 0, 10), 0);
    assert_eq!(clamp(0, 0, 10), 0);
    assert_eq!(clamp(7, 0, 10), 7);
    assert_eq!(clamp(9, 0, 10), 9);
    assert_eq!(clamp(10, 0, 10), 9);
    assert_eq!(clamp(i32::MAX, 0, 10), 9);
    assert_eq!(clamp(3, 5, 6), 5);
}

#[test]
fn clamping_where_nothing_lies_between() {
    assert_eq!(clamp(3, 5, 5), 5);
    assert_eq!(clamp(7, 5, 5), 4);
    assert_eq!(clamp(0, 0, 0), -1);
    assert_eq!(clamp(-1, 0, 0), 0);
    assert_eq!(clamp(9, 8, 2), 1);
    assert_eq!(clamp(i32::MAX, i32::MAX, i32::MIN + 1), i32::MIN);
}
