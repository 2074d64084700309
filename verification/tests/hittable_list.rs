use trace_rs::aabb::Aabb;
use trace_rs::hittable::{HitRecord, Hittable};
use trace_rs::hittable_list::HittableList;
use trace_rs::interval::Interval;
use trace_rs::material::Material;
use trace_rs::ray::Ray;
use trace_rs::scalar::Scalar;
use trace_rs::sphere::Sphere;
use trace_rs::vec3::Vec3;

fn fx(value: f64) -> Scalar {
    Scalar::from_raw((value * 4294967296.0).round() as i64)
}

fn v(x: f64, y: f64, z: f64) -> Vec3 {
    Vec3::new(fx(x), fx(y), fx(z))
}

fn ball(z: f64, shade: f64) -> Sphere {
    Sphere::new(v(0., 0., z), fx(1.), Material::Lambertian(v(shade, shade, shade)))
}

fn ahead() -> Interval {
    Interval::new(fx(0.001), Scalar::infinity())
}

fn along_z() -> Ray {
    Ray::new(v(0., 0., -10.), v(0., 0., 1.), fx(0.))
}

#[test]
fn new_list_is_empty_and_has_the_empty_box() {
    let list: HittableList<Sphere> = HittableList::new();
    assert!(list.objects.is_empty());
    assert_eq!(*list.bounding_box(), Aabb::empty());
    let other: HittableList<Sphere> = HittableList::default();
    assert!(other.objects.is_empty());
    assert_eq!(other.bbox, Aabb::empty());
}

#[test]
fn adding_widens_the_box_to_the_union() {
    let mut list = HittableList::new();
    list.add(ball(0., 0.5));
    assert_eq!(list.bbox, ball(0., 0.5).bbox);
    list.add(ball(5., 0.5));
    assert_eq!(list.objects.len(), 2);
    assert_eq!(list.objects[1], ball(5., 0.5));
    assert_eq!(list.bbox, Aabb::from_boxes(ball(0., 0.5).bbox, &ball(5., 0.5).bbox));
    assert_eq!(list.bbox.z, Interval::new(fx(-1.), fx(6.)));
}

#[test]
fn list_from_objects_has_the_union_of_their_boxes() {
    let list = HittableList::from_objects(vec![ball(0., 0.5), ball(5., 0.5), ball(-3., 0.5)]);
    assert_eq!(list.objects.len(), 3);
    assert_eq!(list.bbox.z, Interval::new(fx(-4.), fx(6.)));
    assert_eq!(list.bbox.x, Interval::new(fx(-1.), fx(1.)));
}

#[test]
fn empty_list_is_never_hit() {
    let list: HittableList<Sphere> = HittableList::new();
    assert!(list.hit(&along_z(), ahead()).is_none());
}

#[test]
fn closest_member_is_hit_whatever_the_order() {
    let near = ball(0., 0.1);
    let far = ball(5., 0.9);
    let expected: HitRecord = near.hit(&along_z(), ahead()).unwrap();
    assert_eq!(expected.t, fx(9.));

    let near_first = HittableList::from_objects(vec![near, far]);
    let far_first = HittableList::from_objects(vec![far, near]);
    assert_eq!(near_first.hit(&along_z(), ahead()), Some(expected));
    assert_eq!(far_first.hit(&along_z(), ahead()), Some(expected));
}

#[test]
fn of_two_equally_close_members_the_first_is_hit() {
    let first = ball(0., 0.1);
    let second = ball(0., 0.9);
    let list = HittableList::from_objects(vec![first, second]);
    let hit = list.hit(&along_z(), ahead()).unwrap();
    assert_eq!(hit.material, first.material);
}

#[test]
fn members_outside_the_interval_are_not_hit() {
    let list = HittableList::from_objects(vec![ball(0., 0.1), ball(5., 0.9)]);
    let hit = list.hit(&along_z(), Interval::new(fx(12.), fx(100.))).unwrap();
    assert_eq!(hit.t, fx(14.));
    assert_eq!(hit.material, ball(5., 0.9).material);
    assert!(list.hit(&along_z(), Interval::new(fx(0.), fx(9.))).is_none());
    assert!(list.hit(&along_z(), Interval::new(fx(17.), fx(100.))).is_none());
}

#[test]
fn list_of_lists_is_hit_like_the_flat_list() {
    let inner_a = HittableList::from_objects(vec![ball(5., 0.9)]);
    let inner_b = HittableList::from_objects(vec![ball(0., 0.1), ball(9., 0.3)]);
    let nested = HittableList::from_objects(vec![inner_a, inner_b]);
    let flat = HittableList::from_objects(vec![ball(5., 0.9), ball(0., 0.1), ball(9., 0.3)]);
    assert_eq!(nested.hit(&along_z(), ahead()), flat.hit(&along_z(), ahead()));
    assert_eq!(nested.bbox, flat.bbox);
}

/// A horizontal plate, to show that a list takes any kind of object.
#[derive(Clone, Debug)]
struct Plate {
    height: Scalar,
    bbox: Aabb,
}

impl Plate {
    fn new(height: f64) -> Self {
        let flat = Interval::new(fx(height), fx(height));
        let wide = Interval::new(fx(-100.), fx(100.));
        Plate { height: fx(height), bbox: Aabb::new(wide, flat, wide) }
    }
}

impl Hittable for Plate {
    fn hit(&self, ray: &Ray, interval: Interval) -> Option<HitRecord> {
        if ray.direction.y.raw == 0 {
            return None;
        }
        let t = self.height.minus(ray.origin.y).div(ray.direction.y);
        if !interval.contains(t) {
            return None;
        }
        let material = Material::Metal(v(0.5, 0.5, 0.5), fx(0.));
        Some(HitRecord::with_front_face(ray.at(t), t, v(0., 1., 0.), material, ray))
    }

    fn bounding_box(&self) -> &Aabb {
        &self.bbox
    }
}

#[test]
fn list_takes_objects_of_a_kind_of_the_users() {
    let mut list = HittableList::new();
    list.add(Plate::new(-1.));
    list.add(Plate::new(-3.));
    list.add(Plate::new(2.));
    assert_eq!(list.bbox.y, Interval::new(fx(-3.), fx(2.)));
    let down = Ray::new(v(0., 0., 0.), v(0., -1., 0.), fx(0.));
    let hit = list.hit(&down, ahead()).unwrap();
    assert_eq!(hit.t, fx(1.));
    assert_eq!(hit.p, v(0., -1., 0.));
    assert!(hit.front_face);
    let up = Ray::new(v(0., 0., 0.), v(0., 0.5, 0.), fx(0.));
    assert_eq!(list.hit(&up, ahead()).unwrap().t, fx(4.));
    let level = Ray::new(v(0., 0., 0.), v(1., 0., 0.), fx(0.));
    assert!(list.hit(&level, ahead()).is_none());
}
