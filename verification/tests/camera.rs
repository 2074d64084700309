use trace_rs::bvh_node::BvhNode;
use trace_rs::camera::{Camera, PixelSample};
use trace_rs::hittable_list::HittableList;
use trace_rs::material::Material;
use trace_rs::ray::{background, Ray};
use trace_rs::scalar::Scalar;
use trace_rs::sphere::Sphere;
use trace_rs::vec3::Vec3;

fn fx(value: f64) -> Scalar {
    Scalar::from_raw((value * 4294967296.0).round() as i64)
}

fn v(x: f64, y: f64, z: f64) -> Vec3 {
    Vec3::new(fx(x), fx(y), fx(z))
}

fn square_on() -> Camera {
    let mut cam = Camera::new();
    cam.aspect_ratio = fx(2.);
    cam.image_width = 4;
    cam.samples_per_pixel = 4;
    cam.max_depth = 5;
    cam.vfov_tan = fx(1.);
    cam.lookfrom = v(0., 0., 0.);
    cam.lookat = v(0., 0., -1.);
    cam.vup = v(0., 1., 0.);
    cam.defocus_tan = fx(0.);
    cam.focus_dist = fx(1.);
    cam
}

fn centred() -> PixelSample {
    PixelSample { x_offset: fx(0.), y_offset: fx(0.), lens: v(0., 0., 0.), time: fx(0.5) }
}

#[test]
fn new_camera_is_all_zero() {
    let cam = Camera::new();
    assert_eq!(cam.image_width, 0);
    assert_eq!(cam.samples_per_pixel, 0);
    assert_eq!(cam.max_depth, 0);
    assert_eq!(cam.aspect_ratio, fx(0.));
    assert_eq!(cam.lookfrom, v(0., 0., 0.));
    assert_eq!(cam.focus_dist, fx(0.));
}

#[test]
fn initialize_lays_out_the_viewport() {
    let mut cam = square_on();
    cam.initialize();
    assert_eq!(cam.image_height, 2);
    assert_eq!(cam.center, v(0., 0., 0.));
    assert_eq!(cam.pixel_samples_scale, fx(0.25));
    assert_eq!(cam.pixel_delta_u, v(1., 0., 0.));
    assert_eq!(cam.pixel_delta_v, v(0., -1., 0.));
    assert_eq!(cam.pixel00_loc, v(-1.5, 0.5, -1.));
    assert_eq!(cam.defocus_disk_u, v(0., 0., 0.));
    assert_eq!(cam.defocus_disk_v, v(0., 0., 0.));
    assert_eq!(cam.image_width, 4);
    assert_eq!(cam.lookat, v(0., 0., -1.));
}

#[test]
fn initialize_scales_the_viewport_with_focus_distance_and_field_of_view() {
    let mut cam = square_on();
    cam.vfov_tan = fx(0.5);
    cam.focus_dist = fx(4.);
    cam.defocus_tan = fx(0.25);
    cam.lookfrom = v(0., 0., 2.);
    cam.initialize();
    // viewport: 4 high, 8 wide, four in front of the lens
    assert_eq!(cam.pixel_delta_u, v(2., 0., 0.));
    assert_eq!(cam.pixel_delta_v, v(0., -2., 0.));
    assert_eq!(cam.pixel00_loc, v(-3., 1., -2.));
    assert_eq!(cam.defocus_disk_u, v(1., 0., 0.));
    assert_eq!(cam.defocus_disk_v, v(0., 1., 0.));
    assert_eq!(cam.center, v(0., 0., 2.));
}

#[test]
fn picture_is_at_least_one_pixel_high() {
    let mut cam = square_on();
    cam.image_width = 1;
    cam.aspect_ratio = Scalar::from_ratio(16, 9);
    cam.initialize();
    assert_eq!(cam.image_height, 1);

    cam.image_width = 1200;
    cam.initialize();
    assert_eq!(cam.image_height, 675);

    cam.image_width = 400;
    cam.initialize();
    assert_eq!(cam.image_height, 225);

    cam.aspect_ratio = fx(0.);
    cam.initialize();
    assert_eq!(cam.image_height, 2147483647);
}

#[test]
fn ray_through_a_pixel_for_given_samples() {
    let mut cam = square_on();
    cam.initialize();
    assert_eq!(
        cam.get_ray_with(0, 0, centred()),
        Ray::new(v(0., 0., 0.), v(-1.5, 0.5, -1.), fx(0.5))
    );
    assert_eq!(
        cam.get_ray_with(3, 1, centred()),
        Ray::new(v(0., 0., 0.), v(1.5, -0.5, -1.), fx(0.5))
    );
    let shifted = PixelSample { x_offset: fx(0.5), y_offset: fx(0.25), lens: v(0.5, 0.5, 0.), time: fx(0.) };
    assert_eq!(
        cam.get_ray_with(1, 0, shifted),
        Ray::new(v(0., 0., 0.), v(0., 0.25, -1.), fx(0.))
    );
}

#[test]
fn ray_starts_on_the_lens_when_there_is_one() {
    let mut cam = square_on();
    cam.defocus_tan = fx(0.5);
    cam.focus_dist = fx(2.);
    cam.initialize();
    assert_eq!(cam.defocus_disk_u, v(1., 0., 0.));
    assert_eq!(cam.lens_point(v(0.5, -0.25, 0.)), v(0.5, -0.25, 0.));
    let sample = PixelSample { x_offset: fx(0.), y_offset: fx(0.), lens: v(0.5, -0.25, 0.), time: fx(0.) };
    let ray = cam.get_ray_with(0, 0, sample);
    assert_eq!(ray.origin, v(0.5, -0.25, 0.));
    assert_eq!(ray.origin.plus(ray.direction), cam.pixel00_loc);
}

#[test]
fn random_rays_pass_through_their_pixel() {
    let mut cam = square_on();
    cam.initialize();
    for _ in 0..200 {
        let ray = cam.get_ray(2, 1);
        assert_eq!(ray.origin, v(0., 0., 0.));
        assert!(fx(0.5).raw <= ray.direction.x.raw && ray.direction.x.raw < fx(1.5).raw);
        assert!(fx(-1.5).raw < ray.direction.y.raw && ray.direction.y.raw <= fx(-0.5).raw);
        assert_eq!(ray.direction.z, fx(-1.));
        assert!(0 <= ray.time.raw && ray.time.raw < fx(1.).raw);
    }
}

#[test]
fn random_rays_start_within_the_lens() {
    let mut cam = square_on();
    cam.defocus_tan = fx(0.5);
    cam.focus_dist = fx(2.);
    cam.initialize();
    let mut off_centre = 0;
    for _ in 0..200 {
        let p = cam.defocus_disk_sample();
        assert_eq!(p.z, fx(0.));
        assert!(p.length_squared().raw < fx(1.).raw);
        let ray = cam.get_ray(0, 0);
        assert!(ray.origin.length_squared().raw < fx(1.).raw);
        if ray.origin != v(0., 0., 0.) {
            off_centre += 1;
        }
    }
    assert!(off_centre > 150);
}

#[test]
fn render_gives_one_colour_for_each_pixel_row_by_row() {
    let mut cam = square_on();
    cam.image_width = 6;
    cam.aspect_ratio = fx(1.5);
    cam.samples_per_pixel = 2;
    let world: HittableList<Sphere> = HittableList::new();
    let canvas = cam.render(&world);
    assert_eq!(cam.image_height, 4);
    assert_eq!(canvas.width, 6);
    assert_eq!(canvas.height, 4);
    assert_eq!(canvas.pixels.len(), 24);
    // the sky is bluer higher up: rows are stored from the top
    for x in 0..6 {
        for y in 2..4 {
            assert!(canvas.at(x, y - 2).x.raw < canvas.at(x, y).x.raw);
        }
    }
}

#[test]
fn empty_scene_renders_the_sky() {
    let mut cam = square_on();
    cam.samples_per_pixel = 1;
    let world: BvhNode<Sphere> = BvhNode::new(HittableList::new());
    let canvas = cam.render(&world);
    for y in 0..2u32 {
        for x in 0..4u32 {
            let seen = canvas.at(x as usize, y as usize);
            // the sky colour varies smoothly over the pixel: compare with a fine grid
            let mut grid = Vec::new();
            for i in 0..=16 {
                for j in 0..=16 {
                    let sample = PixelSample {
                        x_offset: fx(i as f64 / 16.),
                        y_offset: fx(j as f64 / 16.),
                        lens: v(0., 0., 0.),
                        time: fx(0.),
                    };
                    grid.push(background(cam.get_ray_with(x, y, sample)));
                }
            }
            let slack = fx(0.01).raw;
            for pick in [|c: Vec3| c.x.raw, |c: Vec3| c.y.raw] {
                let low = grid.iter().map(|c| pick(*c)).min().unwrap();
                let high = grid.iter().map(|c| pick(*c)).max().unwrap();
                assert!(low - slack <= pick(seen) && pick(seen) <= high + slack);
            }
            assert_eq!(seen.z, fx(1.));
        }
    }
}

#[test]
fn estimate_of_a_pixel_in_an_empty_scene_is_a_sky_colour() {
    let mut cam = square_on();
    cam.samples_per_pixel = 16;
    cam.initialize();
    let world: HittableList<Sphere> = HittableList::new();
    let seen = cam.estimate(&world, 0, 0);
    assert!(fx(0.5).raw <= seen.x.raw && seen.x.raw <= fx(1.).raw);
    assert!(fx(0.7).raw - 1 <= seen.y.raw && seen.y.raw <= fx(1.).raw);
    assert_eq!(seen.z, fx(1.));
}

#[test]
fn pixel_that_looks_at_a_matte_ball_is_darker_than_the_sky() {
    let mut cam = square_on();
    cam.image_width = 5;
    cam.aspect_ratio = fx(1.);
    cam.samples_per_pixel = 8;
    let ball = Sphere::new(v(0., 0., -3.), fx(2.), Material::Lambertian(v(0.1, 0.1, 0.1)));
    let world = BvhNode::new(HittableList::from_objects(vec![ball]));
    let canvas = cam.render(&world);
    assert_eq!(canvas.pixels.len(), 25);
    // pixels are sampled from their centre to the centre of the next one
    let middle = canvas.at(2, 2);
    assert!(middle.x.raw <= fx(0.1).raw);
    assert!(canvas.at(4, 4).x.raw >= fx(0.5).raw - 8);
}

#[test]
fn more_samples_give_a_steadier_estimate() {
    let ground = Sphere::new(v(0., -100.5, -1.), fx(100.), Material::Lambertian(v(0.8, 0.8, 0.)));
    let ball = Sphere::new(v(0., 0., -1.2), fx(0.5), Material::Metal(v(0.8, 0.6, 0.2), fx(1.)));
    let world = BvhNode::new(HittableList::from_objects(vec![ground, ball]));

    let spread = |samples_per_pixel: usize| {
        let mut cam = square_on();
        cam.image_width = 8;
        cam.samples_per_pixel = samples_per_pixel;
        cam.max_depth = 8;
        cam.initialize();
        let runs = 150;
        let seen: Vec<f64> = (0..runs)
            .map(|_| cam.estimate(&world, 3, 2).y.raw as f64 / 4294967296.0)
            .collect();
        let mean = seen.iter().sum::<f64>() / runs as f64;
        seen.iter().map(|c| (c - mean) * (c - mean)).sum::<f64>() / runs as f64
    };

    let coarse = spread(1);
    let fine = spread(32);
    assert!(coarse > 0.);
    assert!(fine < coarse / 4.);
}
