//! Random numbers, points and directions.
//!
//! Every draw comes from the thread-local generator of the `rand` crate,
//! so nothing can be said about a result beyond the range it lies in.
//! The two rejection samplers give up after [`MAX_TRIES`] draws and fall
//! back to a fixed value; each draw is accepted with probability above
//! one half.
use crate::interval::Interval;
use crate::scalar::{Scalar, SCALE};
use crate::vec3::{can_double, lemma_unit_vector_length, Vec3, UNIT_NORM};
use rand::Rng;
use vstd::prelude::*;

verus! {

/// How often a rejection sampler draws before it gives up.
pub const MAX_TRIES: usize = 64;

/// A uniform draw from `low..high` with `Rng::gen_range` on
/// `rand::thread_rng()`. For integers `gen_range` panics on an empty
/// range and otherwise returns `low` plus an offset below `high - low`,
/// so the result lies in the range. The generator itself panics only if
/// the system cannot seed it.
#[verifier::external_body]
fn uniform_raw(low: i64, high: i64) -> (r: i64)
    requires
        low < high,
    ensures
        low <= r < high,
{
    rand::thread_rng().gen_range(low..high)
}

/// A random number from zero up to, but not including, one.
pub fn random_scalar() -> (r: Scalar)
    ensures
        0 <= r.raw < SCALE,
{
    Scalar { raw: uniform_raw(0, SCALE) }
}

/// A random number of `interval`, the start counted in and the end out.
pub fn random_scalar_in(interval: Interval) -> (r: Scalar)
    requires
        interval.start.raw < interval.end.raw,
    ensures
        interval.spec_contains(r),
{
    Scalar { raw: uniform_raw(interval.start.raw, interval.end.raw) }
}

/// Whether each component of `v` lies in `interval`.
pub open spec fn within(v: Vec3, interval: Interval) -> bool {
    interval.spec_contains(v.x) && interval.spec_contains(v.y) && interval.spec_contains(v.z)
}

/// The interval from zero to one.
pub open spec fn unit_interval() -> Interval {
    Interval { start: Scalar::spec_zero(), end: Scalar::spec_one() }
}

/// The interval from minus one to one.
pub open spec fn signed_unit_interval() -> Interval {
    Interval { start: Scalar::spec_one().spec_neg(), end: Scalar::spec_one() }
}

/// A vector with three random components from zero to one.
pub fn random_vec3() -> (v: Vec3)
    ensures
        within(v, unit_interval()),
{
    Vec3 { x: random_scalar(), y: random_scalar(), z: random_scalar() }
}

/// A vector with three random components of `interval`.
pub fn random_vec3_in(interval: Interval) -> (v: Vec3)
    requires
        interval.start.raw < interval.end.raw,
    ensures
        within(v, interval),
{
    Vec3 {
        x: random_scalar_in(interval),
        y: random_scalar_in(interval),
        z: random_scalar_in(interval),
    }
}

/// The raw value of the least squared length of a point whose direction
/// is taken: `1/256`. A shorter vector has too few digits left to give a
/// direction that is good to eight places.
pub const SHORTEST_SQUARED_RAW: i64 = 16777216;

/// The direction of `candidate`, if the candidate lies inside the unit
/// ball and not too close to its centre.
pub open spec fn spec_unit_from(candidate: Vec3) -> Option<Vec3> {
    let lensq = candidate.spec_length_squared();
    if SHORTEST_SQUARED_RAW <= lensq.raw <= SCALE {
        Some(candidate.spec_unit_vector())
    } else {
        None
    }
}

/// The direction of `candidate`, if the candidate lies inside the unit
/// ball and not too close to its centre. Leaving out the points near the
/// centre does not favour any direction.
#[verifier::when_used_as_spec(spec_unit_from)]
pub fn unit_from(candidate: Vec3) -> (r: Option<Vec3>)
    ensures
        r == spec_unit_from(candidate),
{
    let lensq = candidate.length_squared();
    if SHORTEST_SQUARED_RAW <= lensq.raw && lensq.raw <= SCALE {
        Some(candidate.unit_vector())
    } else {
        None
    }
}

/// The direction along the x axis, which [`random_unit_vector`] falls
/// back to.
pub open spec fn x_axis() -> Vec3 {
    Vec3 { x: Scalar::spec_one(), y: Scalar::spec_zero(), z: Scalar::spec_zero() }
}

/// Whether `v` can come out of [`random_unit_vector`]: it is the
/// direction of a point of the cube from minus one to one that
/// [`unit_from`] accepts, or it is the x axis.
pub open spec fn is_unit_sample(v: Vec3) -> bool {
    v == x_axis() || exists|candidate: Vec3|
        within(candidate, signed_unit_interval()) && #[trigger] spec_unit_from(candidate) == Some(
            v,
        )
}

/// A random direction, uniform over the sphere: points of the cube are
/// drawn until one lies in the unit ball, and that one is scaled to
/// length one. The result has length one to eight places.
pub fn random_unit_vector() -> (v: Vec3)
    ensures
        is_unit_sample(v),
        UNIT_NORM - 6 * SCALE - 3 < v.raw_norm() < UNIT_NORM + 0x40_0000_0000,
{
    let cube = Interval { start: Scalar::one().neg(), end: Scalar::one() };
    let mut tries: usize = 0;
    while tries < MAX_TRIES
        invariant
            cube == signed_unit_interval(),
        decreases MAX_TRIES - tries,
    {
        let candidate = random_vec3_in(cube);
        if let Some(v) = unit_from(candidate) {
            proof {
                lemma_unit_sample_length(v);
            }
            return v;
        }
        tries += 1;
    }
    let v = Vec3 { x: Scalar::one(), y: Scalar::zero(), z: Scalar::zero() };
    proof {
        lemma_unit_sample_length(v);
    }
    v
}

/// The point `(x, y, 0)`, if it lies strictly inside the unit disk.
pub open spec fn spec_disk_from(x: Scalar, y: Scalar) -> Option<Vec3> {
    let p = Vec3 { x, y, z: Scalar::spec_zero() };
    if p.spec_length_squared().raw < SCALE {
        Some(p)
    } else {
        None
    }
}

/// The point `(x, y, 0)`, if it lies strictly inside the unit disk.
#[verifier::when_used_as_spec(spec_disk_from)]
pub fn disk_from(x: Scalar, y: Scalar) -> (r: Option<Vec3>)
    ensures
        r == spec_disk_from(x, y),
{
    let p = Vec3 { x, y, z: Scalar::zero() };
    if p.length_squared().raw < SCALE {
        Some(p)
    } else {
        None
    }
}

/// Whether `p` can come out of [`random_in_unit_disk`]: it lies in the
/// plane `z = 0`, strictly inside the unit disk, with both coordinates
/// from minus one to one.
pub open spec fn is_disk_sample(p: Vec3) -> bool {
    &&& signed_unit_interval().spec_contains(p.x)
    &&& signed_unit_interval().spec_contains(p.y)
    &&& spec_disk_from(p.x, p.y) == Some(p)
}

/// A random point of the unit disk in the plane `z = 0`. The centre of
/// the disk is returned if no draw is accepted.
pub fn random_in_unit_disk() -> (p: Vec3)
    ensures
        is_disk_sample(p),
{
    let square = Interval { start: Scalar::one().neg(), end: Scalar::one() };
    let mut tries: usize = 0;
    while tries < MAX_TRIES
        invariant
            square == signed_unit_interval(),
        decreases MAX_TRIES - tries,
    {
        let x = random_scalar_in(square);
        let y = random_scalar_in(square);
        if let Some(p) = disk_from(x, y) {
            return p;
        }
        tries += 1;
    }
    let centre = Vec3 { x: Scalar::zero(), y: Scalar::zero(), z: Scalar::zero() };
    assert(spec_disk_from(centre.x, centre.y) == Some(centre)) by {
        assert(0int * 0int == 0int);
    }
    centre
}

/// A direction that [`random_unit_vector`] can return has length one to
/// eight places: its squared length lies within `1.4e-9` below and
/// `1.5e-8` above one.
pub proof fn lemma_unit_sample_length(v: Vec3)
    requires
        is_unit_sample(v),
    ensures
        UNIT_NORM - 6 * SCALE - 3 < v.raw_norm() < UNIT_NORM + 0x40_0000_0000,
{
    let one = SCALE as int;
    assert(one * one == UNIT_NORM) by (nonlinear_arith)
        requires
            one == 0x1_0000_0000,
    ;
    if v == x_axis() {
        assert(0int * 0int == 0);
    } else {
        let p = choose|candidate: Vec3|
            within(candidate, signed_unit_interval()) && #[trigger] spec_unit_from(candidate)
                == Some(v);
        let n = p.raw_norm();
        lemma_squared_length_below_norm(p);
        lemma_unit_vector_length(p);
        let l = p.spec_length().raw as int;
        assert(l >= 0x1000_0000) by (nonlinear_arith)
            requires
                l >= 0,
                n < (l + 1) * (l + 1),
                n >= 0x100_0000_0000_0000,
        ;
        let norm = v.raw_norm();
        let k = one * one;
        assert((l + 1) * (l + 1) == l * l + 2 * l + 1) by (nonlinear_arith);
        assert(k * ((l + 1) * (l + 1)) == k * (l * l) + k * (2 * l + 1)) by (nonlinear_arith)
            requires
                (l + 1) * (l + 1) == l * l + 2 * l + 1,
        ;
        assert(norm * (l * l) - k * (l * l) == (norm - k) * (l * l)) by (nonlinear_arith);
        assert((norm - k) * (l * l) < k * (2 * l + 1));
        if norm >= k + 0x40_0000_0000 {
            assert((norm - k) * (l * l) >= 0x40_0000_0000 * (l * l)) by (nonlinear_arith)
                requires
                    norm - k >= 0x40_0000_0000,
                    l * l >= 0,
            ;
            assert(0x40_0000_0000 * (l * l) >= k * (2 * l + 1)) by (nonlinear_arith)
                requires
                    l >= 0x1000_0000,
                    k == 0x1_0000_0000_0000_0000,
            ;
        }
    }
}

/// The squared length of a vector of the cube from minus one to one,
/// times one, does not exceed the sum of the squares of its raw
/// components.
proof fn lemma_squared_length_below_norm(p: Vec3)
    requires
        within(p, signed_unit_interval()),
    ensures
        p.spec_length_squared().raw * SCALE <= p.raw_norm(),
        can_double(p),
        p.raw_norm() >= 0,
{
    lemma_square_below(p.x);
    lemma_square_below(p.y);
    lemma_square_below(p.z);
}

/// Rounding the square of a number from minus one to one does not
/// raise it.
proof fn lemma_square_below(x: Scalar)
    requires
        -SCALE <= x.raw <= SCALE,
    ensures
        0 <= x.times(x).raw <= SCALE,
        x.times(x).raw * SCALE <= x.raw * x.raw,
{
    let a = x.raw as int;
    let one = SCALE as int;
    assert(0 <= a * a <= one * one) by (nonlinear_arith)
        requires
            -one <= a <= one,
    ;
    vstd::arithmetic::div_mod::lemma_fundamental_div_mod(a * a, one);
    vstd::arithmetic::div_mod::lemma_div_is_ordered(a * a, one * one, one);
    vstd::arithmetic::div_mod::lemma_div_by_multiple(one, one);
    vstd::arithmetic::div_mod::lemma_div_pos_is_pos(a * a, one);
    let q = (a * a) / one;
    assert(q * one == one * q) by (nonlinear_arith);
}

} // verus!
