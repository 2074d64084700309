//! Rays: a starting point, a direction and the moment the ray is cast.
use crate::hittable::Hittable;
use crate::interval::Interval;
use crate::material::Bounce;
use crate::scalar::{Scalar, RAW_MAX};
use crate::vec3::Vec3;
use vstd::prelude::*;

verus! {

/// The half line `origin + t * direction`, cast at `time`. The time, from
/// zero to one, selects where a moving object stands when the ray meets
/// it.
#[derive(Clone, Copy, Debug, PartialEq, Eq, Structural)]
pub struct Ray {
    pub origin: Vec3,
    pub direction: Vec3,
    pub time: Scalar,
}

impl Ray {
    pub open spec fn spec_new(origin: Vec3, direction: Vec3, time: Scalar) -> Ray {
        Ray { origin, direction, time }
    }

    /// The ray from `origin` along `direction`, cast at `time`.
    #[verifier::when_used_as_spec(spec_new)]
    pub fn new(origin: Vec3, direction: Vec3, time: Scalar) -> (r: Ray)
        ensures
            r == Self::spec_new(origin, direction, time),
    {
        Ray { origin, direction, time }
    }

    pub open spec fn spec_at(&self, t: Scalar) -> Vec3 {
        self.origin.spec_plus(self.direction.spec_scale(t))
    }

    /// The point of the ray at parameter `t`.
    #[verifier::when_used_as_spec(spec_at)]
    pub fn at(&self, t: Scalar) -> (p: Vec3)
        ensures
            p == self.spec_at(t),
    {
        self.origin.plus(self.direction.scale(t))
    }
}

/// The raw value of `0.001`, where the search for a hit starts.
pub const NEAR_RAW: i64 = 4294967;

/// The raw values of the three channels of the sky's blue: `0.5`, `0.7`
/// and `1.0`.
pub const SKY_RED_RAW: i64 = 2147483648;

pub const SKY_GREEN_RAW: i64 = 3006477107;

pub const SKY_BLUE_RAW: i64 = 4294967296;

/// The stretch of a ray in which hits count: from just off the surface
/// the ray left, so that it does not hit that surface again at once, to
/// infinity.
pub open spec fn visible() -> Interval {
    Interval { start: Scalar { raw: NEAR_RAW }, end: Scalar { raw: RAW_MAX } }
}

/// The blue of the sky at the zenith.
pub open spec fn sky_blue() -> Vec3 {
    Vec3 {
        x: Scalar { raw: SKY_RED_RAW },
        y: Scalar { raw: SKY_GREEN_RAW },
        z: Scalar { raw: SKY_BLUE_RAW },
    }
}

/// The point that lies the share `a` of the way from `from` to `to`.
pub open spec fn lerp(from: Vec3, to: Vec3, a: Scalar) -> Vec3 {
    from.spec_plus(to.spec_minus(from).spec_scale(a))
}

/// The colour of the sky in the direction of `ray`: white at the nadir,
/// blue at the zenith, and in between in proportion to the height of the
/// direction at length one.
#[verifier::opaque]
pub open spec fn spec_background(ray: Ray) -> Vec3 {
    let unit_direction = ray.direction.spec_unit_vector();
    let a = Scalar { raw: SKY_RED_RAW }.times(unit_direction.y.plus(Scalar::spec_one()));
    lerp(Vec3::spec_splat(Scalar::spec_one()), sky_blue(), a)
}

/// The colour of the sky in the direction of `ray`.
#[verifier::when_used_as_spec(spec_background)]
pub fn background(ray: Ray) -> (c: Vec3)
    ensures
        c == spec_background(ray),
{
    reveal(spec_background);
    let unit_direction = ray.direction.unit_vector();
    let a = Scalar { raw: SKY_RED_RAW }.times(unit_direction.y.plus(Scalar::one()));
    let white = Vec3::splat(Scalar::one());
    let blue = Vec3 {
        x: Scalar { raw: SKY_RED_RAW },
        y: Scalar { raw: SKY_GREEN_RAW },
        z: Scalar { raw: SKY_BLUE_RAW },
    };
    white.plus(blue.minus(white).scale(a))
}

/// The light that arrives along `ray` from `world`, followed through at
/// most `depth` scatterings that use `samples` one after another.
///
/// With no scattering left the light is black. A ray that hits nothing
/// sees the sky. A hit whose material swallows the light gives black.
/// Otherwise the light is what arrives along the scattered ray, channel
/// by channel times what the material keeps.
pub open spec fn trace<T: Hittable>(ray: Ray, world: &T, depth: nat, samples: Seq<Bounce>) -> Vec3
    decreases depth,
{
    if depth == 0 {
        Vec3::spec_black()
    } else {
        match world.hit_spec(ray, visible()) {
            None => spec_background(ray),
            Some(hit) => match hit.material.spec_scatter_with(
                ray,
                hit,
                samples[0].unit,
                samples[0].u,
            ) {
                None => Vec3::spec_black(),
                Some(s) => s.attenuation.spec_times(
                    trace(s.scattered, world, (depth - 1) as nat, samples.drop_first()),
                ),
            },
        }
    }
}

/// Whether `samples` holds `depth` valid bounces.
pub open spec fn valid_samples(samples: Seq<Bounce>, depth: nat) -> bool {
    samples.len() == depth && forall|i: int| 0 <= i < samples.len() ==> (#[trigger] samples[i]).valid()
}

impl Ray {
    /// Whether `color` is the light that can arrive along this ray for
    /// some valid samples.
    pub open spec fn may_see<T: Hittable>(&self, world: &T, depth: nat, color: Vec3) -> bool {
        exists|samples: Seq<Bounce>|
            valid_samples(samples, depth) && color == #[trigger] trace(*self, world, depth, samples)
    }

    /// The light that arrives along this ray, followed through at most
    /// `depth` scatterings that use the given samples, one for each.
    pub fn color_with<T: Hittable>(&self, world: &T, depth: usize, samples: &Vec<Bounce>) -> (c:
        Vec3)
        requires
            samples@.len() >= depth,
        ensures
            c == trace(*self, world, depth as nat, samples@.subrange(0, depth as int)),
    {
        self.color_from(world, depth, samples, 0)
    }

    fn color_from<T: Hittable>(
        &self,
        world: &T,
        depth: usize,
        samples: &Vec<Bounce>,
        first: usize,
    ) -> (c: Vec3)
        requires
            first + depth <= samples@.len(),
        ensures
            c == trace(*self, world, depth as nat, samples@.subrange(first as int, first + depth)),
        decreases depth,
    {
        if depth == 0 {
            return Vec3::black();
        }
        assert(first < samples.len());
        let ghost used = samples@.subrange(first as int, first + depth);
        assert(used[0] == samples@[first as int]);
        assert(used.drop_first() == samples@.subrange(first + 1, first + depth));
        match world.hit(self, Interval { start: Scalar { raw: NEAR_RAW }, end: Scalar::infinity() }) {
            None => background(*self),
            Some(hit_rec) => {
                let bounce = samples[first];
                match hit_rec.material.scatter_with(self, &hit_rec, bounce.unit, bounce.u) {
                    None => Vec3::black(),
                    Some(s) => s.attenuation.times(
                        s.scattered.color_from(world, depth - 1, samples, first + 1),
                    ),
                }
            },
        }
    }

    /// The light that arrives along this ray, followed through at most
    /// `depth` scatterings, each with freshly drawn samples.
    pub fn color<T: Hittable>(&self, world: &T, depth: usize) -> (c: Vec3)
        ensures
            self.may_see(world, depth as nat, c),
            depth == 0 ==> c == Vec3::spec_black(),
            depth > 0 && world.hit_spec(*self, visible()) is None ==> c == spec_background(*self),
        decreases depth,
    {
        let ghost unused = Seq::new(depth as nat, |i: int| idle_bounce());
        if depth == 0 {
            assert(valid_samples(unused, 0) && Vec3::spec_black() == trace(*self, world, 0, unused));
            return Vec3::black();
        }
        match world.hit(self, Interval { start: Scalar { raw: NEAR_RAW }, end: Scalar::infinity() }) {
            None => {
                let c = background(*self);
                assert(valid_samples(unused, depth as nat) && c == trace(
                    *self,
                    world,
                    depth as nat,
                    unused,
                ));
                c
            },
            Some(hit_rec) => {
                let outcome = hit_rec.material.scatter(self, &hit_rec);
                let ghost bounce = choose|bounce: Bounce|
                    bounce.valid() && outcome == #[trigger] hit_rec.material.spec_scatter_with(
                        *self,
                        hit_rec,
                        bounce.unit,
                        bounce.u,
                    );
                proof {
                    let (unit, u) = choose|unit: Vec3, u: Scalar|
                        crate::vector::is_unit_sample(unit) && 0 <= u.raw < crate::scalar::SCALE
                            && outcome == #[trigger] hit_rec.material.spec_scatter_with(
                            *self,
                            hit_rec,
                            unit,
                            u,
                        );
                    let witness = Bounce { unit, u };
                    assert(witness.valid() && outcome == hit_rec.material.spec_scatter_with(
                        *self,
                        hit_rec,
                        witness.unit,
                        witness.u,
                    ));
                }
                let ghost rest = Seq::new((depth - 1) as nat, |i: int| idle_bounce());
                match outcome {
                    None => {
                        let ghost samples = seq![bounce] + rest;
                        assert(valid_samples(samples, depth as nat) && Vec3::spec_black() == trace(
                            *self,
                            world,
                            depth as nat,
                            samples,
                        ));
                        Vec3::black()
                    },
                    Some(s) => {
                        let inner = s.scattered.color(world, depth - 1);
                        let c = s.attenuation.times(inner);
                        proof {
                            let later = choose|later: Seq<Bounce>|
                                valid_samples(later, (depth - 1) as nat) && inner == #[trigger] trace(
                                    s.scattered,
                                    world,
                                    (depth - 1) as nat,
                                    later,
                                );
                            let samples = seq![bounce] + later;
                            assert(samples.drop_first() == later);
                            assert(valid_samples(samples, depth as nat) && c == trace(
                                *self,
                                world,
                                depth as nat,
                                samples,
                            ));
                        }
                        c
                    },
                }
            },
        }
    }
}

/// Samples for a scattering that does not take place.
pub open spec fn idle_bounce() -> Bounce {
    Bounce { unit: crate::vector::x_axis(), u: Scalar::spec_zero() }
}

/// A ray that hits nothing in the world sees the sky, whatever the
/// samples, as long as at least one scattering is allowed.
pub proof fn lemma_miss_shows_sky<T: Hittable>(ray: Ray, world: &T, depth: nat, samples: Seq<Bounce>)
    requires
        depth > 0,
        world.hit_spec(ray, visible()) is None,
    ensures
        trace(ray, world, depth, samples) == spec_background(ray),
{
}

} // verus!
