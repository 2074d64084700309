use trace_rs::color::{decimal, linear_to_gamma, to_ppm, Color};
use trace_rs::scalar::Scalar;

fn fx(value: f64) -> Scalar {
    Scalar::from_raw((value * 4294967296.0).round() as i64)
}

#[test]
fn decimal_numerals() {
    assert_eq!(decimal(0), "0");
    assert_eq!(decimal(7), "7");
    assert_eq!(decimal(10), "10");
    assert_eq!(decimal(255), "255");
    assert_eq!(decimal(1200), "1200");
    assert_eq!(decimal(4294967295), "4294967295");
    assert_eq!(decimal(usize::MAX), usize::MAX.to_string());
}

#[test]
fn gamma_is_the_square_root_of_what_is_positive() {
    assert_eq!(linear_to_gamma(fx(0.25)), fx(0.5));
    assert_eq!(linear_to_gamma(fx(1.)), fx(1.));
    assert_eq!(linear_to_gamma(fx(4.)), fx(2.));
    assert_eq!(linear_to_gamma(fx(0.)), fx(0.));
    assert_eq!(linear_to_gamma(fx(-0.25)), fx(0.));
    assert_eq!(linear_to_gamma(fx(0.5)).raw, 3037000499);
}

#[test]
fn colour_is_written_as_three_bytes() {
    assert_eq!(to_ppm(Color::new(fx(1.), fx(0.), fx(0.))), "255 0 0");
    assert_eq!(to_ppm(Color::new(fx(0.25), fx(0.0625), fx(0.5))), "128 64 181");
    assert_eq!(to_ppm(Color::black()), "0 0 0");
    assert_eq!(Color::new(fx(1.), fx(1.), fx(1.)).to_ppm(), "255 255 255");
}

#[test]
fn channels_are_held_between_zero_and_just_under_one() {
    assert_eq!(to_ppm(Color::new(fx(-3.), fx(7.5), fx(0.998))), "0 255 255");
    assert_eq!(to_ppm(Color::new(fx(0.99), fx(0.00001), fx(0.0001))), "254 0 2");
    assert_eq!(to_ppm(Color::new(Scalar::infinity(), Scalar::infinity().neg(), fx(0.))), "255 0 0");
}
