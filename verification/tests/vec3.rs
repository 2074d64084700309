use trace_rs::scalar::Scalar;
use trace_rs::vec3::Vec3;

const ONE: i128 = 4294967296;

fn fx(value: f64) -> Scalar {
    Scalar::from_raw((value * 4294967296.0).round() as i64)
}

fn v(x: f64, y: f64, z: f64) -> Vec3 {
    Vec3::new(fx(x), fx(y), fx(z))
}

fn isqrt(n: i128) -> i128 {
    let mut r = (n as f64).sqrt() as i128;
    while r * r > n {
        r -= 1;
    }
    while (r + 1) * (r + 1) <= n {
        r += 1;
    }
    r
}

#[test]
fn components_by_name_and_by_axis() {
    let a = v(1., 2., 3.);
    assert_eq!(a.x, fx(1.));
    assert_eq!(a.axis(0), fx(1.));
    assert_eq!(a.axis(1), fx(2.));
    assert_eq!(a.axis(2), fx(3.));
    assert_eq!(Vec3::splat(fx(2.)), v(2., 2., 2.));
    assert_eq!(Vec3::black(), v(0., 0., 0.));
}

#[test]
fn sums_differences_and_products_go_by_component() {
    let a = v(3., -2., 5.);
    let b = v(-2., 3., 1.);
    assert_eq!(a.plus(b), v(1., 1., 6.));
    assert_eq!(b.plus(a), v(1., 1., 6.));
    assert_eq!(a.minus(b), v(5., -5., 4.));
    assert_eq!(a.neg(), v(-3., 2., -5.));
    assert_eq!(a.times(b), v(-6., -6., 5.));
    assert_eq!(a.scale(fx(3.5)), v(10.5, -7., 17.5));
    assert_eq!(a.scale(fx(0.5)), v(1.5, -1., 2.5));
    assert_eq!(a.div(fx(2.)), v(1.5, -1., 2.5));
}

#[test]
fn dot_product_of_two_vectors() {
    let a = v(1., 2., 3.);
    let b = v(2., 3., 4.);
    assert_eq!(a.dot(b), fx(20.));
    assert_eq!(b.dot(a), fx(20.));
    assert_eq!(a.length_squared(), fx(14.));
}

#[test]
fn cross_product_of_two_vectors() {
    let a = v(1., 2., 3.);
    let b = v(2., 3., 4.);
    assert_eq!(a.cross(b), v(-1., 2., -1.));
    assert_eq!(b.cross(a), v(1., -2., 1.));
    assert_eq!(v(1., 0., 0.).cross(v(0., 1., 0.)), v(0., 0., 1.));
}

#[test]
fn length_is_the_root_of_the_squared_length() {
    assert_eq!(v(1., 0., 0.).length(), fx(1.));
    assert_eq!(v(0., 1., 0.).length(), fx(1.));
    assert_eq!(v(0., 0., 1.).length(), fx(1.));
    assert_eq!(v(3., 4., 0.).length(), fx(5.));
    assert_eq!(v(1., 2., 3.).length().raw as i128, isqrt(14 * ONE * ONE));
    assert_eq!(v(-1., -2., -3.).length().raw as i128, isqrt(14 * ONE * ONE));
}

#[test]
fn unit_vector_divides_by_the_length() {
    assert_eq!(v(4., 0., 0.).unit_vector(), v(1., 0., 0.));
    assert_eq!(v(0., -3., 0.).unit_vector(), v(0., -1., 0.));
    let rt14 = isqrt(14 * ONE * ONE);
    let u = v(1., 2., 3.).unit_vector();
    assert_eq!(u.x.raw as i128, ONE * ONE / rt14);
    assert_eq!(u.y.raw as i128, 2 * ONE * ONE / rt14);
    assert_eq!(u.z.raw as i128, 3 * ONE * ONE / rt14);
    assert_eq!(v(0., 0., 0.).unit_vector(), v(0., 0., 0.));
}

#[test]
fn near_zero_means_every_component_under_one_hundred_millionth() {
    assert!(v(0., 0., 0.).is_near_zero());
    assert!(Vec3::new(Scalar::from_raw(41), Scalar::from_raw(-41), Scalar::from_raw(0)).is_near_zero());
    assert!(!Vec3::new(Scalar::from_raw(42), Scalar::from_raw(0), Scalar::from_raw(0)).is_near_zero());
    assert!(!Vec3::new(Scalar::from_raw(0), Scalar::from_raw(0), Scalar::from_raw(-42)).is_near_zero());
    assert!(!v(0., 0.001, 0.).is_near_zero());
}

#[test]
fn reflection_mirrors_the_component_along_the_normal() {
    assert_eq!(v(1., -1., 0.).reflect(v(0., 1., 0.)), v(1., 1., 0.));
    assert_eq!(v(0., -1., 0.).reflect(v(0., 1., 0.)), v(0., 1., 0.));
    assert_eq!(v(2., 3., -4.).reflect(v(0., 0., 1.)), v(2., 3., 4.));
    assert_eq!(v(2., 3., -4.).reflect(v(-1., 0., 0.)), v(-2., 3., -4.));
}

#[test]
fn refraction_with_equal_indices_goes_straight_on() {
    assert_eq!(v(0., -1., 0.).refract(v(0., 1., 0.), fx(1.)), v(0., -1., 0.));
    assert_eq!(v(0.6, -0.8, 0.).refract(v(0., 1., 0.), fx(1.)).x, fx(0.6));
}

#[test]
fn refraction_into_a_denser_medium_bends_toward_the_normal() {
    let incoming = v(0.6, -0.8, 0.);
    let out = incoming.refract(v(0., 1., 0.), fx(0.5));
    // perpendicular part: 0.5 * 0.6; parallel part: -sqrt(1 - 0.09)
    let perp = (fx(0.6).raw as i128) / 2;
    assert!((out.x.raw as i128 - perp).abs() <= 2);
    let rest = ONE - (out.x.raw as i128 * out.x.raw as i128) / ONE;
    assert!((out.y.raw as i128 + isqrt(rest * ONE)).abs() <= 2);
    assert_eq!(out.z, fx(0.));
}
