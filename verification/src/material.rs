//! Surface materials and how each scatters an incoming ray.
use crate::hittable::HitRecord;
use crate::ray::Ray;
use crate::scalar::{Scalar, SCALE};
use crate::vec3::Vec3;
use crate::vector::{is_unit_sample, random_scalar, random_unit_vector};
use vstd::prelude::*;

verus! {

/// What a surface does to the light that reaches it.
#[derive(Clone, Copy, Debug, PartialEq, Eq, Structural)]
pub enum Material {
    /// A matte surface of the given colour.
    Lambertian(Vec3),
    /// A mirror of the given colour; the second field, from zero to one,
    /// says how blurred the reflection is.
    Metal(Vec3, Scalar),
    /// A clear solid with the given refractive index, which must be
    /// positive.
    Dielectric(Scalar),
}

/// The outcome of a scattering: how much of each channel is kept, and the
/// ray along which the light goes on.
#[derive(Clone, Copy, Debug, PartialEq, Eq, Structural)]
pub struct ScatterRecord {
    pub attenuation: Vec3,
    pub scattered: Ray,
}

/// The random values that one scattering may use: a direction and a
/// number from zero to one.
#[derive(Clone, Copy, Debug, PartialEq, Eq, Structural)]
pub struct Bounce {
    pub unit: Vec3,
    pub u: Scalar,
}

impl Bounce {
    /// Whether the values lie where drawn values lie.
    pub open spec fn valid(self) -> bool {
        is_unit_sample(self.unit) && 0 <= self.u.raw < SCALE
    }

    /// Freshly drawn values.
    pub fn draw() -> (b: Bounce)
        ensures
            b.valid(),
    {
        Bounce { unit: random_unit_vector(), u: random_scalar() }
    }
}

/// The colour that keeps every channel as it is.
pub open spec fn white() -> Vec3 {
    Vec3::spec_splat(Scalar::spec_one())
}

/// The fifth power of `x`.
pub open spec fn pow5(x: Scalar) -> Scalar {
    x.times(x).times(x).times(x).times(x)
}

/// The share of light that a surface between two media reflects when
/// the light meets it head-on: `((1 - ri) / (1 + ri))^2`, with `ri` the
/// ratio of the two refractive indices.
pub open spec fn schlick_r0(ri: Scalar) -> Scalar {
    let q = Scalar::spec_one().minus(ri).div(Scalar::spec_one().plus(ri));
    q.times(q)
}

/// Schlick's approximation of the share of light that is reflected:
/// `r0 + (1 - r0) (1 - cosine)^5`.
pub open spec fn spec_reflectance(cosine: Scalar, ri: Scalar) -> Scalar {
    let r0 = schlick_r0(ri);
    r0.plus(Scalar::spec_one().minus(r0).times(pow5(Scalar::spec_one().minus(cosine))))
}

/// Schlick's approximation of the share of light that a surface reflects,
/// from the cosine of the angle of incidence and the ratio of the
/// refractive indices.
#[verifier::when_used_as_spec(spec_reflectance)]
pub fn reflectance(cosine: Scalar, refraction_index: Scalar) -> (r: Scalar)
    ensures
        r == spec_reflectance(cosine, refraction_index),
{
    let q = Scalar::one().minus(refraction_index).div(Scalar::one().plus(refraction_index));
    let r0 = q.times(q);
    let x = Scalar::one().minus(cosine);
    r0.plus(Scalar::one().minus(r0).times(x.times(x).times(x).times(x).times(x)))
}

/// For light that meets the surface head-on, with cosine one, the
/// reflectance is exactly `r0`: the fifth power vanishes.
pub proof fn lemma_reflectance_head_on(ri: Scalar)
    ensures
        spec_reflectance(Scalar::spec_one(), ri) == schlick_r0(ri),
{
    let r0 = schlick_r0(ri);
    let zero = Scalar::spec_one().minus(Scalar::spec_one());
    assert(zero.raw == 0);
    assert(pow5(zero).raw == 0) by {
        assert(0int * 0int == 0int);
    }
    let rest = Scalar::spec_one().minus(r0);
    assert(rest.times(pow5(zero)).raw == 0) by {
        assert(rest.raw * 0int == 0int);
    }
}

/// The ray that leaves the point of `hit` along `direction`, cast at the
/// time of `ray`.
pub open spec fn leaving(hit: HitRecord, direction: Vec3, ray: Ray) -> Ray {
    Ray { origin: hit.p, direction, time: ray.time }
}

/// The direction in which a matte surface sends the light on: the normal
/// plus the sampled direction, or the normal alone if that sum is too
/// close to zero.
pub open spec fn diffuse_direction(hit: HitRecord, unit: Vec3) -> Vec3 {
    let direction = hit.normal.spec_plus(unit);
    if direction.spec_is_near_zero() {
        hit.normal
    } else {
        direction
    }
}

/// The direction in which a mirror sends the light on: the reflected
/// direction at length one, plus the sampled direction scaled by `fuzz`.
pub open spec fn mirror_direction(ray: Ray, hit: HitRecord, fuzz: Scalar, unit: Vec3) -> Vec3 {
    ray.direction.spec_reflect(hit.normal).spec_unit_vector().spec_plus(unit.spec_scale(fuzz))
}

/// The ratio of the refractive indices on the two sides of the surface,
/// incoming side over outgoing side, for a solid of the given index in
/// a medium of index one.
pub open spec fn index_ratio(hit: HitRecord, refraction_index: Scalar) -> Scalar {
    if hit.front_face {
        refraction_index.spec_recip()
    } else {
        refraction_index
    }
}

/// Whether a clear solid reflects rather than refracts: it does when
/// Snell's law has no solution (total internal reflection), or when the
/// sample `u` falls below the reflectance.
pub open spec fn reflects(ray: Ray, hit: HitRecord, refraction_index: Scalar, u: Scalar) -> bool {
    let ri = index_ratio(hit, refraction_index);
    let unit_direction = ray.direction.spec_unit_vector();
    let cos_theta = unit_direction.spec_dot(hit.normal).neg().min(Scalar::spec_one());
    let sin_theta = Scalar::spec_one().minus(cos_theta.times(cos_theta)).sqrt();
    ri.times(sin_theta).raw > SCALE || spec_reflectance(cos_theta, ri).raw > u.raw
}

/// The direction in which a clear solid sends the light on.
pub open spec fn glass_direction(
    ray: Ray,
    hit: HitRecord,
    refraction_index: Scalar,
    u: Scalar,
) -> Vec3 {
    let unit_direction = ray.direction.spec_unit_vector();
    if reflects(ray, hit, refraction_index, u) {
        unit_direction.spec_reflect(hit.normal)
    } else {
        unit_direction.spec_refract(hit.normal, index_ratio(hit, refraction_index))
    }
}

impl Material {
    /// What the material does to `ray` at `hit`, given a sampled
    /// direction `unit` and a sampled number `u`.
    ///
    /// A matte surface always scatters, with its own colour. A mirror
    /// scatters with its own colour if the new direction points away
    /// from the surface, and swallows the light otherwise. A clear solid
    /// always scatters and keeps all the light.
    #[verifier::opaque]
    pub open spec fn spec_scatter_with(
        &self,
        ray: Ray,
        hit: HitRecord,
        unit: Vec3,
        u: Scalar,
    ) -> Option<ScatterRecord> {
        match *self {
            Material::Lambertian(albedo) => Some(
                ScatterRecord {
                    attenuation: albedo,
                    scattered: leaving(hit, diffuse_direction(hit, unit), ray),
                },
            ),
            Material::Metal(albedo, fuzz) => {
                let direction = mirror_direction(ray, hit, fuzz, unit);
                if direction.spec_dot(hit.normal).raw > 0 {
                    Some(ScatterRecord { attenuation: albedo, scattered: leaving(hit, direction, ray) })
                } else {
                    None
                }
            },
            Material::Dielectric(refraction_index) => Some(
                ScatterRecord {
                    attenuation: white(),
                    scattered: leaving(hit, glass_direction(ray, hit, refraction_index, u), ray),
                },
            ),
        }
    }

    /// What the material does to `ray` at `hit_rec`, given a sampled
    /// direction `unit` and a sampled number `u`: the new ray and the
    /// share of light it keeps, or nothing if the light is swallowed.
    pub fn scatter_with(&self, ray: &Ray, hit_rec: &HitRecord, unit: Vec3, u: Scalar) -> (r: Option<
        ScatterRecord,
    >)
        ensures
            r == self.spec_scatter_with(*ray, *hit_rec, unit, u),
            r matches Some(s) ==> s.scattered.origin == hit_rec.p && s.scattered.time == ray.time,
            !(*self is Metal) ==> r is Some,
    {
        reveal(Material::spec_scatter_with);
        match self {
            Material::Lambertian(albedo) => {
                let mut scatter_direction = hit_rec.normal.plus(unit);
                if scatter_direction.is_near_zero() {
                    scatter_direction = hit_rec.normal;
                }
                let scattered = Ray { origin: hit_rec.p, direction: scatter_direction, time: ray.time };
                Some(ScatterRecord { attenuation: *albedo, scattered })
            },
            Material::Metal(albedo, fuzz) => {
                let mut reflected = ray.direction.reflect(hit_rec.normal);
                reflected = reflected.unit_vector().plus(unit.scale(*fuzz));
                let scattered = Ray { origin: hit_rec.p, direction: reflected, time: ray.time };
                if scattered.direction.dot(hit_rec.normal).raw > 0 {
                    Some(ScatterRecord { attenuation: *albedo, scattered })
                } else {
                    None
                }
            },
            Material::Dielectric(refraction_index) => {
                let ri = if hit_rec.front_face {
                    refraction_index.recip()
                } else {
                    *refraction_index
                };
                let unit_direction = ray.direction.unit_vector();
                let cos_theta = unit_direction.dot(hit_rec.normal).neg().min(Scalar::one());
                let sin_theta = Scalar::one().minus(cos_theta.times(cos_theta)).sqrt();

                let direction = if ri.times(sin_theta).raw > SCALE || reflectance(cos_theta, ri).raw
                    > u.raw {
                    unit_direction.reflect(hit_rec.normal)
                } else {
                    unit_direction.refract(hit_rec.normal, ri)
                };
                let scattered = Ray { origin: hit_rec.p, direction, time: ray.time };
                Some(ScatterRecord { attenuation: Vec3::splat(Scalar::one()), scattered })
            },
        }
    }

    /// Whether `outcome` is what the material can do to `ray` at `hit`
    /// for some sampled direction and some sampled number from zero to
    /// one.
    pub open spec fn may_scatter_to(
        &self,
        ray: Ray,
        hit: HitRecord,
        outcome: Option<ScatterRecord>,
    ) -> bool {
        exists|unit: Vec3, u: Scalar|
            is_unit_sample(unit) && 0 <= u.raw < SCALE && outcome == #[trigger] self.spec_scatter_with(
                ray,
                hit,
                unit,
                u,
            )
    }

    /// Scatters `ray` at `hit_rec` with a freshly drawn direction or
    /// number, whichever the material uses.
    pub fn scatter(&self, ray: &Ray, hit_rec: &HitRecord) -> (r: Option<ScatterRecord>)
        ensures
            self.may_scatter_to(*ray, *hit_rec, r),
            r matches Some(s) ==> s.scattered.origin == hit_rec.p && s.scattered.time == ray.time,
            !(*self is Metal) ==> r is Some,
    {
        let (unit, u) = match self {
            Material::Dielectric(_) => (
                Vec3 { x: Scalar::one(), y: Scalar::zero(), z: Scalar::zero() },
                random_scalar(),
            ),
            _ => (random_unit_vector(), Scalar::zero()),
        };
        assert(is_unit_sample(unit));
        self.scatter_with(ray, hit_rec, unit, u)
    }
}

/// A mirror without blur reflects exactly: whatever direction is sampled,
/// the light goes on along the reflected direction at length one.
pub proof fn lemma_sharp_mirror(ray: Ray, hit: HitRecord, unit: Vec3)
    ensures
        mirror_direction(ray, hit, Scalar::spec_zero(), unit) == ray.direction.spec_reflect(
            hit.normal,
        ).spec_unit_vector(),
{
    assert(unit.x.raw * 0int == 0int);
    assert(unit.y.raw * 0int == 0int);
    assert(unit.z.raw * 0int == 0int);
}

} // verus!
