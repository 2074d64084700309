use trace_rs::interval::Interval;
use trace_rs::scalar::Scalar;
use trace_rs::vec3::Vec3;
use trace_rs::vector::{
    disk_from, random_in_unit_disk, random_scalar, random_scalar_in, random_unit_vector,
    random_vec3, random_vec3_in, unit_from,
};

fn fx(value: f64) -> Scalar {
    Scalar::from_raw((value * 4294967296.0).round() as i64)
}

fn v(x: f64, y: f64, z: f64) -> Vec3 {
    Vec3::new(fx(x), fx(y), fx(z))
}

#[test]
fn random_numbers_lie_from_zero_to_one() {
    let mut low = 0;
    let mut high = 0;
    for _ in 0..1000 {
        let r = random_scalar();
        assert!(0 <= r.raw && r.raw < fx(1.).raw);
        if r.raw < fx(0.5).raw {
            low += 1;
        } else {
            high += 1;
        }
    }
    assert!(low > 300 && high > 300);
}

#[test]
fn random_numbers_lie_in_the_given_interval() {
    let range = Interval::new(fx(-2.5), fx(-2.));
    let mut seen_other = false;
    let first = random_scalar_in(range);
    for _ in 0..1000 {
        let r = random_scalar_in(range);
        assert!(range.contains(r));
        seen_other = seen_other || r != first;
    }
    assert!(seen_other);
    let narrow = Interval::new(Scalar::from_raw(7), Scalar::from_raw(8));
    assert_eq!(random_scalar_in(narrow), Scalar::from_raw(7));
}

#[test]
fn random_vectors_lie_in_the_given_cube() {
    let range = Interval::new(fx(0.5), fx(1.));
    for _ in 0..500 {
        let a = random_vec3();
        let b = random_vec3_in(range);
        let c = Vec3::random();
        let d = Vec3::random_in(range);
        for part in [a.x, a.y, a.z, c.x, c.y, c.z] {
            assert!(0 <= part.raw && part.raw < fx(1.).raw);
        }
        for part in [b.x, b.y, b.z, d.x, d.y, d.z] {
            assert!(range.contains(part));
        }
    }
}

#[test]
fn unit_vector_is_taken_from_points_of_the_ball_only() {
    assert_eq!(unit_from(v(0.5, 0., 0.)), Some(v(1., 0., 0.)));
    assert_eq!(unit_from(v(0., -0.25, 0.)), Some(v(0., -1., 0.)));
    assert_eq!(unit_from(v(0.0625, 0., 0.)), Some(v(1., 0., 0.)));
    assert_eq!(unit_from(v(0.0624, 0., 0.)), None);
    assert_eq!(unit_from(v(0., 0., 1.)), Some(v(0., 0., 1.)));
    assert_eq!(unit_from(v(0., 0., 0.)), None);
    assert_eq!(unit_from(v(0.9, 0.9, 0.)), None);
    assert_eq!(unit_from(v(-0.6, 0.6, 0.6)), None);
    assert!(unit_from(v(0.5, 0.5, 0.5)).is_some());
}

#[test]
fn random_unit_vectors_have_length_one_and_point_everywhere() {
    let mut octants = [0u32; 8];
    for _ in 0..2000 {
        let u = random_unit_vector();
        assert!((u.length().raw - fx(1.).raw).abs() < 64);
        let index = (u.x.raw < 0) as usize + 2 * (u.y.raw < 0) as usize + 4 * (u.z.raw < 0) as usize;
        octants[index] += 1;
        let w = Vec3::random_unit_vector();
        assert!((w.length().raw - fx(1.).raw).abs() < 64);
    }
    for count in octants {
        assert!(count > 120);
    }
}

#[test]
fn disk_point_is_taken_from_inside_the_disk_only() {
    assert_eq!(disk_from(fx(0.5), fx(-0.5)), Some(v(0.5, -0.5, 0.)));
    assert_eq!(disk_from(fx(0.), fx(0.)), Some(v(0., 0., 0.)));
    assert_eq!(disk_from(fx(1.), fx(0.)), None);
    assert_eq!(disk_from(fx(0.8), fx(0.8)), None);
}

#[test]
fn random_disk_points_lie_in_the_disk() {
    let mut quadrants = [0u32; 4];
    for _ in 0..2000 {
        let p = random_in_unit_disk();
        assert_eq!(p.z, fx(0.));
        assert!(p.length_squared().raw < fx(1.).raw);
        quadrants[(p.x.raw < 0) as usize + 2 * (p.y.raw < 0) as usize] += 1;
        let q = Vec3::random_in_unit_disk();
        assert_eq!(q.z, fx(0.));
        assert!(q.length_squared().raw < fx(1.).raw);
    }
    for count in quadrants {
        assert!(count > 300);
    }
}
