use trace_rs::canvas::Canvas;
use trace_rs::color::Color;
use trace_rs::scalar::Scalar;

fn fx(value: f64) -> Scalar {
    Scalar::from_raw((value * 4294967296.0).round() as i64)
}

#[test]
fn creating_a_canvas() {
    let c = Canvas::new(10, 20);
    assert_eq!(c.width, 10);
    assert_eq!(c.height, 20);

    for x in 0..10 {
        for y in 0..20 {
            assert_eq!(c.at(x, y), Color::black());
        }
    }
}

#[test]
fn writing_to_a_canvas() {
    let mut c = Canvas::new(10, 20);
    let red = Color::new(fx(1.), fx(0.), fx(0.));

    c.write(2, 3, red);

    assert_eq!(c.at(2, 3), red);
}

#[test]
fn canvas_as_a_plain_ppm_image() {
    let mut c = Canvas::new(2, 2);
    c.write(0, 0, Color::new(fx(1.), fx(0.), fx(0.)));
    c.write(1, 0, Color::new(fx(0.), fx(0.25), fx(0.)));
    c.write(1, 1, Color::new(fx(0.), fx(0.), fx(1.)));
    assert_eq!(c.to_ppm(), "P3\n2 2\n255\n255 0 0\n0 128 0\n0 0 0\n0 0 255\n");
}

#[test]
fn canvas_without_pixels_has_only_a_header() {
    assert_eq!(Canvas::new(0, 0).to_ppm(), "P3\n0 0\n255\n\n");
    assert_eq!(Canvas::new(1, 1).to_ppm(), "P3\n1 1\n255\n0 0 0\n");
    assert_eq!(Canvas::new(12, 0).to_ppm(), "P3\n12 0\n255\n\n");
}

#[test]
fn writing_changes_one_pixel_only() {
    let mut c = Canvas::new(3, 2);
    let grey = Color::new(fx(0.5), fx(0.5), fx(0.5));
    c.write(2, 1, grey);
    for y in 0..2 {
        for x in 0..3 {
            let expected = if (x, y) == (2, 1) { grey } else { Color::black() };
            assert_eq!(c.at(x, y), expected);
        }
    }
    assert_eq!(c.pixels[5], grey);
    assert_eq!(c.pixels.len(), 6);
}
