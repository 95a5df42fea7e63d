use raytracer::color::RGB;
use raytracer::image::{Image, PPM};
use raytracer::scalar::Scalar;

fn s(x: f64) -> Scalar {
    Scalar { raw: (x * 1e9).round() as i64 }
}

fn saved(image: &PPM) -> String {
    let mut out = Vec::new();
    image.save(&mut out);
    String::from_utf8(out).unwrap()
}

#[test]
fn a_new_picture_is_black() {
    let image = PPM::new(3, 2, 4);
    assert_eq!(image.width(), 3);
    assert_eq!(image.height(), 2);
    assert_eq!(image.samples_per_pixel(), 4);
    assert_eq!(image.len(), 6);
    for y in 0..2 {
        for x in 0..3 {
            assert_eq!(image.get(y, x), RGB::black());
        }
    }
}

#[test]
fn a_picture_without_pixels_is_only_a_header() {
    assert_eq!(saved(&PPM::new(0, 0, 1)), "P3\n0 0\n255\n");
    assert_eq!(saved(&PPM::new(5, 0, 1)), "P3\n5 0\n255\n");
    assert_eq!(PPM::new(0, 7, 1).len(), 0);
}

#[test]
fn set_changes_one_pixel() {
    let mut image = PPM::new(3, 2, 1);
    image.set(1, 2, RGB::white());
    image.set(0, 1, RGB(s(0.25), s(0.0), s(1.0)));
    for y in 0..2 {
        for x in 0..3 {
            let expected = match (y, x) {
                (1, 2) => RGB::white(),
                (0, 1) => RGB(s(0.25), s(0.0), s(1.0)),
                _ => RGB::black(),
            };
            assert_eq!(image.get(y, x), expected);
        }
    }
    assert_eq!(image.width(), 3);
    assert_eq!(image.height(), 2);
}

#[test]
fn the_file_is_a_header_and_a_line_for_each_pixel_row_by_row() {
    let mut image = PPM::new(2, 2, 1);
    image.set(0, 1, RGB::white());
    image.set(1, 0, RGB(s(0.25), s(0.0), s(1.0)));
    assert_eq!(saved(&image), "P3\n2 2\n255\n0 0 0\n255 255 255\n128 0 255\n0 0 0\n");
}

#[test]
fn saving_appends() {
    let image = PPM::new(1, 1, 1);
    let mut out = b"# ".to_vec();
    image.save(&mut out);
    image.save(&mut out);
    assert_eq!(out, b"# P3\n1 1\n255\n0 0 0\nP3\n1 1\n255\n0 0 0\n");
}

#[test]
fn sums_are_shown_by_their_average() {
    let pixels = vec![RGB::white().scale(s(10.0)), RGB(s(2.5), s(0.0), s(10.0))];
    let image = PPM::from_pixels(1, 2, 10, pixels);
    assert_eq!(image.width(), 1);
    assert_eq!(image.height(), 2);
    assert_eq!(image.samples_per_pixel(), 10);
    assert_eq!(image.get(1, 0), RGB(s(2.5), s(0.0), s(10.0)));
    assert_eq!(saved(&image), "P3\n1 2\n255\n255 255 255\n128 0 255\n");
}

#[test]
fn the_grid_of_shown_pixels_holds_three_bytes_for_each_sum() {
    let pixels = vec![
        RGB::white().scale(s(10.0)),
        RGB(s(2.5), s(0.0), s(10.0)),
        RGB::black(),
        RGB(s(5.0), s(0.4), s(8.1)),
    ];
    let image = PPM::from_pixels(2, 2, 10, pixels);
    assert_eq!(image.quantized(), vec![(255, 255, 255), (128, 0, 255), (0, 0, 0), (181, 51, 230)]);
    assert_eq!(PPM::new(3, 2, 1).quantized(), vec![(0, 0, 0); 6]);
    assert_eq!(PPM::new(0, 5, 1).quantized(), vec![]);
    let mut one = PPM::new(2, 1, 1);
    one.set(0, 1, RGB::white());
    assert_eq!(one.quantized(), vec![(0, 0, 0), (255, 255, 255)]);
}

#[test]
fn a_wide_picture_says_its_size_in_decimal() {
    let image = PPM::new(1200, 1, 1);
    let text = saved(&image);
    assert!(text.starts_with("P3\n1200 1\n255\n0 0 0\n"));
    assert_eq!(text.lines().count(), 3 + 1200);
}
