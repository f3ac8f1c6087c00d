use raytracer::fixed::Fixed;
use raytracer::image::{color_to_ppm, ppm_header, ppm_text, push_decimal, push_pixel};
use raytracer::utils::helpers::Rgb;
use raytracer::vec3::{Color3, Vec3};

fn fx(v: f64) -> Fixed {
    Fixed::from_raw((v * 18446744073709551616.0) as i128)
}

#[test]
fn decimal_numerals() {
    for (n, text) in [(0, "0"), (7, "7"), (10, "10"), (255, "255"), (1009, "1009")] {
        let mut out = String::new();
        push_decimal(&mut out, n);
        assert_eq!(out, text);
    }
    let mut out = String::from("w=");
    push_decimal(&mut out, u32::MAX);
    assert_eq!(out, "w=4294967295");
}

#[test]
fn pixel_lines() {
    let mut out = String::new();
    push_pixel(&mut out, &Rgb { r: 255, g: 0, b: 64 });
    push_pixel(&mut out, &Rgb { r: 1, g: 20, b: 100 });
    assert_eq!(out, "255 0 64\n1 20 100\n");
}

#[test]
fn colors_are_encoded_before_they_are_written() {
    assert_eq!(color_to_ppm(&Vec3::new(fx(1.0), fx(0.25), fx(0.0))), "255 128 0\n");
    assert_eq!(color_to_ppm(&Vec3::new(fx(-1.0), fx(7.0), fx(0.0625))), "0 255 64\n");
    assert_eq!(raytracer::utils::helpers::color_to_ppm(&Color3::white()), "255 255 255\n");
    assert_eq!(color_to_ppm(&Color3::black()), "0 0 0\n");
}

#[test]
fn header_and_whole_image() {
    assert_eq!(ppm_header(2000, 1125), "P3\n2000 1125\n255\n");
    assert_eq!(ppm_header(0, 0), "P3\n0 0\n255\n");
    let pixels = vec![Rgb { r: 1, g: 2, b: 3 }, Rgb { r: 40, g: 50, b: 60 }];
    assert_eq!(ppm_text(2, 1, &pixels), "P3\n2 1\n255\n1 2 3\n40 50 60\n");
    assert_eq!(ppm_text(0, 0, &vec![]), "P3\n0 0\n255\n");
}

#[test]
fn color_channels_and_scales() {
    let c = Color3::new(fx(0.25), fx(0.5), fx(0.75));
    assert_eq!(c.red(), fx(0.25));
    assert_eq!(c.green(), fx(0.5));
    assert_eq!(c.blue(), fx(0.75));
    assert_eq!(Color3::from_f32(fx(1.0), fx(0.5), fx(0.0)), Vec3::new(fx(255.0), fx(127.5), fx(0.0)));
    assert_eq!(Color3::white(), Vec3::new(fx(1.0), fx(1.0), fx(1.0)));
    assert_eq!(Color3::black(), Vec3::new(fx(0.0), fx(0.0), fx(0.0)));
}
