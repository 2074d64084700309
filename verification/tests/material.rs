use trace_rs::hittable::HitRecord;
use trace_rs::material::{reflectance, Bounce, Material, ScatterRecord};
use trace_rs::ray::Ray;
use trace_rs::scalar::Scalar;
use trace_rs::vec3::Vec3;

const ONE: i128 = 4294967296;

fn fx(value: f64) -> Scalar {
    Scalar::from_raw((value * 4294967296.0).round() as i64)
}

fn v(x: f64, y: f64, z: f64) -> Vec3 {
    Vec3::new(fx(x), fx(y), fx(z))
}

fn isqrt(n: i128) -> i128 {
    let mut r = (n as f64).sqrt() as i128;
    while r * r > n {
        r -= 1;
    }
    while (r + 1) * (r + 1) <= n {
        r += 1;
    }
    r
}

fn floor_hit(material: Material, ray: &Ray) -> HitRecord {
    HitRecord::with_front_face(v(0., 0., 0.), fx(1.), v(0., 1., 0.), material, ray)
}

fn falling() -> Ray {
    Ray::new(v(-1., 1., 0.), v(1., -1., 0.), fx(0.25))
}

#[test]
fn hit_record_turns_the_normal_against_the_ray() {
    let from_above = Ray::new(v(0., 1., 0.), v(0., -1., 0.), fx(0.));
    let front = floor_hit(Material::Dielectric(fx(1.5)), &from_above);
    assert!(front.front_face);
    assert_eq!(front.normal, v(0., 1., 0.));
    assert_eq!(front.p, v(0., 0., 0.));
    assert_eq!(front.t, fx(1.));

    let from_below = Ray::new(v(0., -1., 0.), v(0., 1., 0.), fx(0.));
    let back = floor_hit(Material::Dielectric(fx(1.5)), &from_below);
    assert!(!back.front_face);
    assert_eq!(back.normal, v(0., -1., 0.));

    let grazing = Ray::new(v(0., 0., 0.), v(1., 0., 0.), fx(0.));
    let edge = floor_hit(Material::Dielectric(fx(1.5)), &grazing);
    assert!(!edge.front_face);
    assert_eq!(edge.normal, v(0., -1., 0.));
}

#[test]
fn matte_surface_scatters_along_normal_plus_sample() {
    let albedo = v(0.4, 0.2, 0.1);
    let material = Material::Lambertian(albedo);
    let ray = falling();
    let hit = floor_hit(material, &ray);
    let out = material.scatter_with(&ray, &hit, v(1., 0., 0.), fx(0.)).unwrap();
    assert_eq!(
        out,
        ScatterRecord { attenuation: albedo, scattered: Ray::new(v(0., 0., 0.), v(1., 1., 0.), fx(0.25)) }
    );
}

#[test]
fn matte_surface_falls_back_to_the_normal_when_the_sum_vanishes() {
    let material = Material::Lambertian(v(0.4, 0.2, 0.1));
    let ray = falling();
    let hit = floor_hit(material, &ray);
    let out = material.scatter_with(&ray, &hit, v(0., -1., 0.), fx(0.)).unwrap();
    assert_eq!(out.scattered.direction, v(0., 1., 0.));
    let nearly = Vec3::new(Scalar::from_raw(10), Scalar::from_raw(-4294967296 + 10), Scalar::from_raw(-41));
    let out = material.scatter_with(&ray, &hit, nearly, fx(0.)).unwrap();
    assert_eq!(out.scattered.direction, v(0., 1., 0.));
}

#[test]
fn sharp_mirror_reflects_at_the_angle_of_incidence() {
    let albedo = v(0.7, 0.6, 0.5);
    let material = Material::Metal(albedo, fx(0.));
    let ray = falling();
    let hit = floor_hit(material, &ray);
    let half = (ONE * ONE / isqrt(2 * ONE * ONE)) as i64;
    let expected = Vec3::new(Scalar::from_raw(half), Scalar::from_raw(half), fx(0.));
    for sample in [v(1., 0., 0.), v(0., -1., 0.), v(0.6, 0., -0.8)] {
        let out = material.scatter_with(&ray, &hit, sample, fx(0.3)).unwrap();
        assert_eq!(out.attenuation, albedo);
        assert_eq!(out.scattered.origin, v(0., 0., 0.));
        assert_eq!(out.scattered.time, fx(0.25));
        assert_eq!(out.scattered.direction, expected);
        let incoming = ray.direction.unit_vector();
        assert_eq!(out.scattered.direction.dot(hit.normal), incoming.dot(hit.normal).neg());
        assert_eq!(out.scattered.direction.x, incoming.x);
        assert_eq!(out.scattered.direction.z, incoming.z);
    }
}

#[test]
fn blurred_mirror_adds_the_scaled_sample() {
    let material = Material::Metal(v(0.7, 0.6, 0.5), fx(0.5));
    let ray = Ray::new(v(0., 1., 0.), v(0., -1., 0.), fx(0.));
    let hit = floor_hit(material, &ray);
    let out = material.scatter_with(&ray, &hit, v(1., 0., 0.), fx(0.)).unwrap();
    assert_eq!(out.scattered.direction, v(0.5, 1., 0.));
}

#[test]
fn mirror_swallows_light_that_would_go_into_the_surface() {
    let material = Material::Metal(v(0.7, 0.6, 0.5), fx(1.));
    let ray = Ray::new(v(0., 1., 0.), v(0., -1., 0.), fx(0.));
    let hit = floor_hit(material, &ray);
    assert!(material.scatter_with(&ray, &hit, v(0., -1., 0.), fx(0.)).is_none());
    assert!(material.scatter_with(&ray, &hit, v(1.6, -1.2, 0.), fx(0.)).is_none());
    assert!(material.scatter_with(&ray, &hit, v(0., 1., 0.), fx(0.)).is_some());
}

#[test]
fn reflectance_head_on_is_the_squared_index_quotient() {
    for index in [1.5, 1. / 1.5, 1.33, 2.4, 1.0] {
        let ri = fx(index);
        let q = ((ONE - ri.raw as i128) * ONE) / (ONE + ri.raw as i128);
        let r0 = (q * q) / ONE;
        assert_eq!(reflectance(fx(1.), ri).raw as i128, r0);
    }
    assert_eq!(reflectance(fx(1.), fx(1.5)).raw, 171798691);
    assert_eq!(reflectance(fx(1.), fx(1.)).raw, 0);
}

#[test]
fn reflectance_at_grazing_incidence_is_one() {
    assert_eq!(reflectance(fx(0.), fx(1.5)), fx(1.));
    let halfway = reflectance(fx(0.5), fx(1.5)).raw as i128;
    let r0 = 171798691i128;
    let expected = r0 + ((ONE - r0) * (ONE / 32)) / ONE;
    assert_eq!(halfway, expected);
}

#[test]
fn clear_solid_reflects_or_refracts_by_the_sample() {
    let material = Material::Dielectric(fx(1.5));
    let ray = Ray::new(v(0., 1., 0.), v(0., -2., 0.), fx(0.5));
    let hit = floor_hit(material, &ray);
    // head-on, the reflectance is about 0.04
    let reflected = material.scatter_with(&ray, &hit, v(1., 0., 0.), fx(0.03)).unwrap();
    assert_eq!(reflected.attenuation, v(1., 1., 1.));
    assert_eq!(reflected.scattered, Ray::new(v(0., 0., 0.), v(0., 1., 0.), fx(0.5)));
    let refracted = material.scatter_with(&ray, &hit, v(1., 0., 0.), fx(0.05)).unwrap();
    assert_eq!(refracted.attenuation, v(1., 1., 1.));
    assert_eq!(refracted.scattered, Ray::new(v(0., 0., 0.), v(0., -1., 0.), fx(0.5)));
}

#[test]
fn clear_solid_reflects_all_light_beyond_the_critical_angle() {
    let material = Material::Dielectric(fx(1.5));
    // from inside the solid, at a flat angle to the surface
    let ray = Ray::new(v(-0.96, -0.28, 0.), v(0.96, 0.28, 0.), fx(0.));
    let hit = floor_hit(material, &ray);
    assert!(!hit.front_face);
    let out = material.scatter_with(&ray, &hit, v(1., 0., 0.), fx(0.999)).unwrap();
    assert!(out.scattered.direction.y.raw < 0);
    assert!((out.scattered.direction.y.raw + fx(0.28).raw).abs() < 16);
    assert!((out.scattered.direction.x.raw - fx(0.96).raw).abs() < 16);
}

#[test]
fn clear_solid_bends_light_that_enters_at_an_angle() {
    let material = Material::Dielectric(fx(1.5));
    let ray = Ray::new(v(-0.6, 0.8, 0.), v(0.6, -0.8, 0.), fx(0.));
    let hit = floor_hit(material, &ray);
    assert!(hit.front_face);
    let out = material.scatter_with(&ray, &hit, v(1., 0., 0.), fx(0.999)).unwrap();
    // sine of the new angle: 0.6 / 1.5
    assert!((out.scattered.direction.x.raw - fx(0.4).raw).abs() < 16);
    let cos = isqrt((ONE * ONE) - (fx(0.4).raw as i128).pow(2)) as i64;
    assert!((out.scattered.direction.y.raw + cos).abs() < 16);
}

#[test]
fn scatter_draws_its_own_samples() {
    let ray = falling();
    let matte = Material::Lambertian(v(0.4, 0.2, 0.1));
    let glass = Material::Dielectric(fx(1.5));
    let mirror = Material::Metal(v(0.7, 0.6, 0.5), fx(0.));
    for _ in 0..200 {
        let hit = floor_hit(matte, &ray);
        let out = matte.scatter(&ray, &hit).unwrap();
        assert_eq!(out.attenuation, v(0.4, 0.2, 0.1));
        assert_eq!(out.scattered.origin, hit.p);
        assert_eq!(out.scattered.time, ray.time);
        let offset = out.scattered.direction.minus(hit.normal);
        let length = offset.length().raw;
        assert!(length == 0 || (length - fx(1.).raw).abs() < 64);

        let out = glass.scatter(&ray, &floor_hit(glass, &ray)).unwrap();
        assert_eq!(out.attenuation, v(1., 1., 1.));
        assert_ne!(out.scattered.direction.y.raw, 0);

        let out = mirror.scatter(&ray, &floor_hit(mirror, &ray)).unwrap();
        assert_eq!(out.scattered.direction.x, out.scattered.direction.y);
    }
}

#[test]
fn drawn_bounce_holds_a_direction_and_a_number_below_one() {
    for _ in 0..200 {
        let b = Bounce::draw();
        assert!(0 <= b.u.raw && b.u.raw < fx(1.).raw);
        assert!((b.unit.length().raw - fx(1.).raw).abs() < 64);
    }
}
