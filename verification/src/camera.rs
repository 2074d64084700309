//! The camera: where it stands, how it looks at the scene, and how it
//! turns a scene into a picture by averaging many randomly placed rays
//! for each pixel.
use crate::canvas::Canvas;
use crate::hittable::Hittable;
use crate::ray::Ray;
use crate::scalar::{clamp, tdiv, Scalar, SCALE};
use crate::vec3::Vec3;
use crate::vector::{is_disk_sample, random_in_unit_disk, random_scalar};
use itertools::Itertools;
use vstd::prelude::*;

verus! {

/// A camera. The first ten fields are set by the user; the others are
/// computed from them by [`Camera::initialize`] each time a picture is
/// rendered.
///
/// An angle is given by the tangent of its half, which is all the camera
/// needs of it.
#[derive(Clone, Copy, Debug, PartialEq, Eq, Structural)]
pub struct Camera {
    /// Width of the picture over its height.
    pub aspect_ratio: Scalar,
    /// Width of the picture in pixels.
    pub image_width: u32,
    /// How many rays are averaged for each pixel.
    pub samples_per_pixel: usize,
    /// After how many scatterings a ray is given up.
    pub max_depth: usize,
    /// Tangent of half the vertical field of view.
    pub vfov_tan: Scalar,
    /// Where the camera stands.
    pub lookfrom: Vec3,
    /// The point the camera looks at.
    pub lookat: Vec3,
    /// The direction that is up in the picture.
    pub vup: Vec3,
    /// Tangent of half the angle under which the lens is seen from the
    /// point in focus; zero or less for a pinhole.
    pub defocus_tan: Scalar,
    /// Distance from `lookfrom` to the plane in focus.
    pub focus_dist: Scalar,
    /// Height of the picture in pixels.
    pub image_height: u32,
    /// Centre of the lens.
    pub center: Vec3,
    /// Centre of the pixel in the upper left corner.
    pub pixel00_loc: Vec3,
    /// Step from one pixel to the next one to its right.
    pub pixel_delta_u: Vec3,
    /// Step from one pixel to the next one below.
    pub pixel_delta_v: Vec3,
    /// One over `samples_per_pixel`.
    pub pixel_samples_scale: Scalar,
    /// Horizontal radius of the lens.
    pub defocus_disk_u: Vec3,
    /// Vertical radius of the lens.
    pub defocus_disk_v: Vec3,
}

/// The random values that one ray through a pixel uses: where in the
/// pixel it passes, where on the lens it starts, and when it is cast.
#[derive(Clone, Copy, Debug, PartialEq, Eq, Structural)]
pub struct PixelSample {
    pub x_offset: Scalar,
    pub y_offset: Scalar,
    pub lens: Vec3,
    pub time: Scalar,
}

impl PixelSample {
    /// Whether the values lie where drawn values lie: the offsets and the
    /// time from zero to one, the lens point in the unit disk.
    pub open spec fn valid(self) -> bool {
        &&& 0 <= self.x_offset.raw < SCALE
        &&& 0 <= self.y_offset.raw < SCALE
        &&& is_disk_sample(self.lens)
        &&& 0 <= self.time.raw < SCALE
    }
}

/// The whole number `n` as a raw value.
pub open spec fn whole(n: int) -> Scalar {
    Scalar { raw: clamp(n * SCALE) as i64 }
}

/// The height in pixels of a picture of the given width and aspect
/// ratio: their quotient rounded down, but at least one.
pub open spec fn height_for(image_width: u32, aspect_ratio: Scalar) -> u32 {
    let rows = tdiv(whole(image_width as int).div(aspect_ratio).raw as int, SCALE as int);
    if rows < 1 {
        1
    } else if rows > u32::MAX {
        u32::MAX
    } else {
        rows as u32
    }
}

/// The sum of `colors`, starting from black.
pub open spec fn total(colors: Seq<Vec3>) -> Vec3
    decreases colors.len(),
{
    if colors.len() == 0 {
        Vec3::spec_black()
    } else {
        total(colors.drop_last()).spec_plus(colors.last())
    }
}

/// The pairs `(row, column)` of a grid, row by row, made with
/// `Itertools::cartesian_product` of the ranges `0..height` and
/// `0..width`. The product pairs each element of the first range with
/// every element of the second before it moves on to the next. The pairs
/// are collected into a vector, which takes eight bytes for each and
/// cannot grow beyond `isize::MAX` bytes.
#[verifier::external_body]
fn pixel_grid(height: u32, width: u32) -> (grid: Vec<(u32, u32)>)
    requires
        height * width * 8 <= isize::MAX,
    ensures
        grid@.len() == height * width,
        forall|i: int|
            0 <= i < grid@.len() ==> (#[trigger] grid@[i]).0 == i / (width as int) && grid@[i].1 == i
                % (width as int),
{
    (0..height).cartesian_product(0..width).collect()
}

impl Camera {
    /// The camera with every field zero.
    pub open spec fn spec_new() -> Camera {
        let zero = Scalar::spec_zero();
        let origin = Vec3::spec_black();
        Camera {
            aspect_ratio: zero,
            image_width: 0,
            samples_per_pixel: 0,
            max_depth: 0,
            vfov_tan: zero,
            lookfrom: origin,
            lookat: origin,
            vup: origin,
            defocus_tan: zero,
            focus_dist: zero,
            image_height: 0,
            center: origin,
            pixel00_loc: origin,
            pixel_delta_u: origin,
            pixel_delta_v: origin,
            pixel_samples_scale: zero,
            defocus_disk_u: origin,
            defocus_disk_v: origin,
        }
    }

    /// A camera with every field zero, for the user to fill in.
    #[verifier::when_used_as_spec(spec_new)]
    pub fn new() -> (camera: Camera)
        ensures
            camera == Self::spec_new(),
    {
        let zero = Scalar::zero();
        let origin = Vec3::black();
        Camera {
            aspect_ratio: zero,
            image_width: 0,
            samples_per_pixel: 0,
            max_depth: 0,
            vfov_tan: zero,
            lookfrom: origin,
            lookat: origin,
            vup: origin,
            defocus_tan: zero,
            focus_dist: zero,
            image_height: 0,
            center: origin,
            pixel00_loc: origin,
            pixel_delta_u: origin,
            pixel_delta_v: origin,
            pixel_samples_scale: zero,
            defocus_disk_u: origin,
            defocus_disk_v: origin,
        }
    }

    /// The camera with its computed fields brought up to date.
    ///
    /// The camera looks along `-w`, with `u` to the right and `v` up. The
    /// viewport lies `focus_dist` in front of the lens and is
    /// `2 vfov_tan focus_dist` high; the pixels divide it evenly, and
    /// the first pixel centre lies half a step inside its upper left
    /// corner. The lens has the radius `focus_dist defocus_tan`.
    pub open spec fn initialized(self) -> Camera {
        let image_height = height_for(self.image_width, self.aspect_ratio);
        let columns = whole(self.image_width as int);
        let rows = whole(image_height as int);
        let viewport_height = Scalar::spec_two().times(self.vfov_tan).times(self.focus_dist);
        let viewport_width = viewport_height.times(columns.div(rows));
        let w = self.lookfrom.spec_minus(self.lookat).spec_unit_vector();
        let u = self.vup.spec_cross(w).spec_unit_vector();
        let v = w.spec_cross(u);
        let viewport_u = u.spec_scale(viewport_width);
        let viewport_v = v.spec_neg().spec_scale(viewport_height);
        let pixel_delta_u = viewport_u.spec_div(columns);
        let pixel_delta_v = viewport_v.spec_div(rows);
        let viewport_upper_left = self.lookfrom.spec_minus(w.spec_scale(self.focus_dist)).spec_minus(
            viewport_u.spec_div(Scalar::spec_two()),
        ).spec_minus(viewport_v.spec_div(Scalar::spec_two()));
        let defocus_radius = self.focus_dist.times(self.defocus_tan);
        Camera {
            image_height,
            center: self.lookfrom,
            pixel_samples_scale: whole(self.samples_per_pixel as int).spec_recip(),
            pixel_delta_u,
            pixel_delta_v,
            pixel00_loc: viewport_upper_left.spec_plus(
                pixel_delta_u.spec_plus(pixel_delta_v).spec_div(Scalar::spec_two()),
            ),
            defocus_disk_u: u.spec_scale(defocus_radius),
            defocus_disk_v: v.spec_scale(defocus_radius),
            ..self
        }
    }

    /// Brings the computed fields up to date with the others.
    pub fn initialize(&mut self)
        ensures
            *final(self) == old(self).initialized(),
            final(self).image_height >= 1,
    {
        let columns = Scalar::from_int(self.image_width as i64);
        let quotient = columns.div(self.aspect_ratio).raw / SCALE;
        self.image_height = if quotient < 1 {
            1
        } else if quotient > u32::MAX as i64 {
            u32::MAX
        } else {
            quotient as u32
        };
        let rows = Scalar::from_int(self.image_height as i64);

        self.center = self.lookfrom;

        let wanted = self.samples_per_pixel as u64;
        let samples: i64 = if wanted > 0x7fff_ffff_ffff_ffff {
            i64::MAX
        } else {
            wanted as i64
        };
        self.pixel_samples_scale = Scalar::from_int(samples).recip();

        let viewport_height = Scalar::two().times(self.vfov_tan).times(self.focus_dist);
        let viewport_width = viewport_height.times(columns.div(rows));

        let w = self.lookfrom.minus(self.lookat).unit_vector();
        let u = self.vup.cross(w).unit_vector();
        let v = w.cross(u);

        let viewport_u = u.scale(viewport_width);
        let viewport_v = v.neg().scale(viewport_height);

        self.pixel_delta_u = viewport_u.div(columns);
        self.pixel_delta_v = viewport_v.div(rows);

        let viewport_upper_left = self.center.minus(w.scale(self.focus_dist)).minus(
            viewport_u.div(Scalar::two()),
        ).minus(viewport_v.div(Scalar::two()));

        self.pixel00_loc = viewport_upper_left.plus(
            self.pixel_delta_u.plus(self.pixel_delta_v).div(Scalar::two()),
        );

        let defocus_radius = self.focus_dist.times(self.defocus_tan);
        self.defocus_disk_u = u.scale(defocus_radius);
        self.defocus_disk_v = v.scale(defocus_radius);
    }

    pub open spec fn spec_lens_point(&self, p: Vec3) -> Vec3 {
        self.center.spec_plus(self.defocus_disk_u.spec_scale(p.x)).spec_plus(
            self.defocus_disk_v.spec_scale(p.y),
        )
    }

    /// The point of the lens that the point `p` of the unit disk stands
    /// for.
    #[verifier::when_used_as_spec(spec_lens_point)]
    pub fn lens_point(&self, p: Vec3) -> (r: Vec3)
        ensures
            r == self.spec_lens_point(p),
    {
        self.center.plus(self.defocus_disk_u.scale(p.x)).plus(self.defocus_disk_v.scale(p.y))
    }

    /// A random point of the lens.
    pub fn defocus_disk_sample(&self) -> (r: Vec3)
        ensures
            exists|p: Vec3| is_disk_sample(p) && r == #[trigger] self.spec_lens_point(p),
    {
        let p = random_in_unit_disk();
        self.lens_point(p)
    }

    /// The ray for column `x` of row `y` that `sample` selects: it runs
    /// from the lens, or from its centre if the camera is a pinhole,
    /// through the sampled point of the pixel.
    pub open spec fn spec_get_ray_with(&self, x: u32, y: u32, sample: PixelSample) -> Ray {
        let pixel_sample = self.pixel00_loc.spec_plus(
            self.pixel_delta_u.spec_scale(whole(x as int).plus(sample.x_offset)),
        ).spec_plus(self.pixel_delta_v.spec_scale(whole(y as int).plus(sample.y_offset)));
        let origin = if self.defocus_tan.raw <= 0 {
            self.center
        } else {
            self.spec_lens_point(sample.lens)
        };
        Ray { origin, direction: pixel_sample.spec_minus(origin), time: sample.time }
    }

    /// The ray for column `x` of row `y` that `sample` selects.
    pub fn get_ray_with(&self, x: u32, y: u32, sample: PixelSample) -> (r: Ray)
        ensures
            r == self.spec_get_ray_with(x, y, sample),
    {
        let pixel_sample = self.pixel00_loc.plus(
            self.pixel_delta_u.scale(Scalar::from_int(x as i64).plus(sample.x_offset)),
        ).plus(self.pixel_delta_v.scale(Scalar::from_int(y as i64).plus(sample.y_offset)));
        let origin = if self.defocus_tan.raw <= 0 {
            self.center
        } else {
            self.lens_point(sample.lens)
        };
        Ray { origin, direction: pixel_sample.minus(origin), time: sample.time }
    }

    /// Whether `ray` can be drawn for column `x` of row `y`.
    pub open spec fn may_cast(&self, x: u32, y: u32, ray: Ray) -> bool {
        exists|sample: PixelSample|
            sample.valid() && ray == #[trigger] self.spec_get_ray_with(x, y, sample)
    }

    /// A random ray for column `x` of row `y`.
    pub fn get_ray(&self, x: u32, y: u32) -> (r: Ray)
        ensures
            self.may_cast(x, y, r),
    {
        let x_offset = random_scalar();
        let y_offset = random_scalar();
        let lens = if self.defocus_tan.raw <= 0 {
            let centre = Vec3::black();
            assert(is_disk_sample(centre)) by {
                assert(0int * 0int == 0int);
            }
            centre
        } else {
            random_in_unit_disk()
        };
        let time = random_scalar();
        let sample = PixelSample { x_offset, y_offset, lens, time };
        self.get_ray_with(x, y, sample)
    }

    /// Whether `color` can be what one random ray for column `x` of row
    /// `y` sees of `world`.
    pub open spec fn may_sample<T: Hittable>(&self, world: &T, x: u32, y: u32, color: Vec3) -> bool {
        exists|ray: Ray| #[trigger]
            self.may_cast(x, y, ray) && ray.may_see(world, self.max_depth as nat, color)
    }

    /// Whether `color` can be the estimate for column `x` of row `y`: the
    /// sum of what `samples_per_pixel` random rays see, times
    /// `pixel_samples_scale`.
    pub open spec fn may_estimate<T: Hittable>(&self, world: &T, x: u32, y: u32, color: Vec3) -> bool {
        exists|colors: Seq<Vec3>|
            {
                &&& colors.len() == self.samples_per_pixel
                &&& forall|i: int|
                    0 <= i < colors.len() ==> self.may_sample(world, x, y, #[trigger] colors[i])
                &&& color == #[trigger] total(colors).spec_scale(self.pixel_samples_scale)
            }
    }

    /// The estimate of the light that reaches column `x` of row `y`.
    pub fn estimate<T: Hittable>(&self, world: &T, x: u32, y: u32) -> (color: Vec3)
        ensures
            self.may_estimate(world, x, y, color),
    {
        let mut pixel_color = Vec3::black();
        let ghost mut colors: Seq<Vec3> = Seq::empty();
        let mut i: usize = 0;
        while i < self.samples_per_pixel
            invariant
                i <= self.samples_per_pixel,
                colors.len() == i,
                forall|k: int| 0 <= k < colors.len() ==> self.may_sample(world, x, y, #[trigger] colors[k]),
                pixel_color == total(colors),
            decreases self.samples_per_pixel - i,
        {
            let ray = self.get_ray(x, y);
            let seen = ray.color(world, self.max_depth);
            assert(self.may_sample(world, x, y, seen));
            pixel_color = pixel_color.plus(seen);
            proof {
                let ghost before = colors;
                colors = colors.push(seen);
                assert(colors.drop_last() == before);
            }
            i += 1;
        }
        pixel_color.scale(self.pixel_samples_scale)
    }

    /// Renders `world`: brings the computed fields up to date and
    /// estimates every pixel, row by row from the top, each row from
    /// left to right. The picture must be small enough for the list of
    /// its pixel positions to fit in memory.
    pub fn render<T: Hittable>(&mut self, world: &T) -> (canvas: Canvas)
        requires
            old(self).image_width * height_for(old(self).image_width, old(self).aspect_ratio) * 8
                <= isize::MAX,
        ensures
            *final(self) == old(self).initialized(),
            canvas.width == final(self).image_width,
            canvas.height == final(self).image_height,
            canvas.wf(),
            forall|x: u32, y: u32|
                x < canvas.width && y < canvas.height ==> final(self).may_estimate(
                    world,
                    x,
                    y,
                    #[trigger] canvas.pixels@[canvas.offset(x as usize, y as usize)],
                ),
    {
        self.initialize();
        let width = self.image_width;
        let height = self.image_height;
        assert(height * width == width * height) by (nonlinear_arith);
        assert(width * height <= usize::MAX);
        let grid = pixel_grid(height, width);
        let mut pixels: Vec<Vec3> = Vec::new();
        let mut i: usize = 0;
        while i < grid.len()
            invariant
                i <= grid@.len(),
                pixels@.len() == i,
                forall|k: int|
                    0 <= k < i ==> self.may_estimate(
                        world,
                        (#[trigger] grid@[k]).1,
                        grid@[k].0,
                        pixels@[k],
                    ),
            decreases grid@.len() - i,
        {
            let (y, x) = grid[i];
            pixels.push(self.estimate(world, x, y));
            i += 1;
        }
        let canvas = Canvas { width: width as usize, height: height as usize, pixels };
        assert forall|x: u32, y: u32| x < width && y < height implies self.may_estimate(
            world,
            x,
            y,
            #[trigger] canvas.pixels@[canvas.offset(x as usize, y as usize)],
        ) by {
            let k = y * width + x;
            crate::canvas::lemma_offset_in_range(x as int, y as int, width as int, height as int);
            vstd::arithmetic::div_mod::lemma_fundamental_div_mod_converse(
                k,
                width as int,
                y as int,
                x as int,
            );
            assert(grid@[k].0 == y && grid@[k].1 == x);
        }
        canvas
    }
}

impl Default for Camera {
    fn default() -> (camera: Camera)
        ensures
            camera == Camera::spec_new(),
    {
        Camera::new()
    }
}

/// In a world in which no ray hits anything, each ray through a pixel
/// sees exactly the sky in its own direction, so the estimate of the
/// pixel is the scaled sum of sky colours. In particular this holds of
/// the empty list and of the tree built from it.
pub proof fn lemma_empty_world_samples_sky<T: Hittable>(
    camera: Camera,
    world: &T,
    x: u32,
    y: u32,
    color: Vec3,
)
    requires
        camera.max_depth > 0,
        forall|ray: Ray| world.hit_spec(ray, crate::ray::visible()) is None,
        camera.may_sample(world, x, y, color),
    ensures
        exists|ray: Ray| #[trigger] camera.may_cast(x, y, ray) && color == crate::ray::spec_background(ray),
{
    let ray = choose|ray: Ray| #[trigger]
        camera.may_cast(x, y, ray) && ray.may_see(world, camera.max_depth as nat, color);
    let samples = choose|samples: Seq<crate::material::Bounce>|
        crate::ray::valid_samples(samples, camera.max_depth as nat) && color == #[trigger] crate::ray::trace(
            ray,
            world,
            camera.max_depth as nat,
            samples,
        );
    crate::ray::lemma_miss_shows_sky(ray, world, camera.max_depth as nat, samples);
}

} // verus!
