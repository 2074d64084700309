use trace_rs::hittable::Hittable;
use trace_rs::interval::Interval;
use trace_rs::material::Material;
use trace_rs::ray::Ray;
use trace_rs::scalar::Scalar;
use trace_rs::sphere::Sphere;
use trace_rs::vec3::Vec3;

fn fx(value: f64) -> Scalar {
    Scalar::from_raw((value * 4294967296.0).round() as i64)
}

fn v(x: f64, y: f64, z: f64) -> Vec3 {
    Vec3::new(fx(x), fx(y), fx(z))
}

fn unit_sphere() -> Sphere {
    Sphere::new(v(0., 0., 0.), fx(1.), Material::Lambertian(v(0.5, 0.5, 0.5)))
}

fn ahead() -> Interval {
    Interval::new(fx(0.001), Scalar::infinity())
}

#[test]
fn ray_through_the_centre_meets_the_sphere_at_four_and_six() {
    let ray = Ray::new(v(0., 0., -5.), v(0., 0., 1.), fx(0.));
    assert_eq!(unit_sphere().roots(&ray), Some((fx(4.), fx(6.))));
    let hit = unit_sphere().hit(&ray, ahead()).unwrap();
    assert_eq!(hit.t, fx(4.));
    assert_eq!(hit.p, v(0., 0., -1.));
    assert_eq!(hit.normal, v(0., 0., -1.));
    assert!(hit.front_face);
}

#[test]
fn tangent_ray_meets_the_sphere_once_at_five() {
    let ray = Ray::new(v(0., 1., -5.), v(0., 0., 1.), fx(0.));
    assert_eq!(unit_sphere().roots(&ray), Some((fx(5.), fx(5.))));
    assert_eq!(unit_sphere().hit(&ray, ahead()).unwrap().t, fx(5.));
}

#[test]
fn ray_that_passes_by_misses() {
    let ray = Ray::new(v(0., 2., -5.), v(0., 0., 1.), fx(0.));
    assert_eq!(unit_sphere().roots(&ray), None);
    assert!(unit_sphere().hit(&ray, ahead()).is_none());
}

#[test]
fn ray_from_inside_meets_the_sphere_behind_and_ahead() {
    let ray = Ray::new(v(0., 0., 0.), v(0., 0., 1.), fx(0.));
    assert_eq!(unit_sphere().roots(&ray), Some((fx(-1.), fx(1.))));
    let hit = unit_sphere().hit(&ray, ahead()).unwrap();
    assert_eq!(hit.t, fx(1.));
    assert!(!hit.front_face);
    assert_eq!(hit.normal, v(0., 0., -1.));
}

#[test]
fn farther_root_is_taken_when_the_nearer_lies_outside() {
    let ray = Ray::new(v(0., 0., -5.), v(0., 0., 1.), fx(0.));
    let hit = unit_sphere().hit(&ray, Interval::new(fx(4.5), fx(10.))).unwrap();
    assert_eq!(hit.t, fx(6.));
    assert!(unit_sphere().hit(&ray, Interval::new(fx(4.5), fx(6.))).is_none());
    assert!(unit_sphere().hit(&ray, Interval::new(fx(0.), fx(4.))).is_none());
    assert_eq!(unit_sphere().hit(&ray, Interval::new(fx(4.), fx(4.5))).unwrap().t, fx(4.));
}

#[test]
fn still_sphere_has_the_box_of_its_radius() {
    let s = Sphere::new(v(1., 2., 3.), fx(2.), Material::Dielectric(fx(1.5)));
    assert_eq!(s.bbox.x, Interval::new(fx(-1.), fx(3.)));
    assert_eq!(s.bbox.y, Interval::new(fx(0.), fx(4.)));
    assert_eq!(s.bbox.z, Interval::new(fx(1.), fx(5.)));
    assert_eq!(*s.bounding_box(), s.bbox);
}

#[test]
fn moving_sphere_has_the_box_of_both_ends() {
    let s = Sphere::moving(v(0., 0., 0.), v(4., 1., 0.), fx(1.), Material::Dielectric(fx(1.5)));
    assert_eq!(s.bbox.x, Interval::new(fx(-1.), fx(5.)));
    assert_eq!(s.bbox.y, Interval::new(fx(-1.), fx(2.)));
    assert_eq!(s.bbox.z, Interval::new(fx(-1.), fx(1.)));
}

#[test]
fn moving_sphere_is_hit_where_it_stands_at_the_time_of_the_ray() {
    let s = Sphere::moving(v(0., 0., 0.), v(4., 0., 0.), fx(1.), Material::Dielectric(fx(1.5)));
    let early = Ray::new(v(0., 0., -5.), v(0., 0., 1.), fx(0.));
    let late = Ray::new(v(0., 0., -5.), v(0., 0., 1.), fx(1.));
    let halfway = Ray::new(v(2., 0., -5.), v(0., 0., 1.), fx(0.5));
    assert_eq!(s.hit(&early, ahead()).unwrap().t, fx(4.));
    assert!(s.hit(&late, ahead()).is_none());
    assert_eq!(s.hit(&halfway, ahead()).unwrap().t, fx(4.));
}
