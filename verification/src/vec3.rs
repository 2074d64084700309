//! Three-component vectors over [`Scalar`].
use crate::interval::Interval;
use crate::scalar::{
    clamp, floor_sqrt, is_floor_sqrt, isqrt, lemma_floor_sqrt_is, lemma_tdiv_exact,
    lemma_times_commutes, lemma_times_unit, Scalar, RAW_MAX, SCALE,
};
use crate::vector::{
    is_disk_sample, is_unit_sample, random_in_unit_disk, random_unit_vector, random_vec3,
    random_vec3_in, unit_interval, within,
};
use vstd::prelude::*;

verus! {

/// A vector, a point or a colour: three fixed-point components.
#[derive(Clone, Copy, Debug, PartialEq, Eq, Structural)]
pub struct Vec3 {
    pub x: Scalar,
    pub y: Scalar,
    pub z: Scalar,
}

pub type Point3 = Vec3;

/// The squared raw length of a vector of length one.
pub const UNIT_NORM: u128 = 0x1_0000_0000_0000_0000;

/// The raw threshold under which a component counts as zero: `1e-8`.
pub const NEAR_ZERO_RAW: i64 = 42;

impl Vec3 {
    pub open spec fn spec_new(x: Scalar, y: Scalar, z: Scalar) -> Vec3 {
        Vec3 { x, y, z }
    }

    /// The vector with the given components.
    #[verifier::when_used_as_spec(spec_new)]
    pub fn new(x: Scalar, y: Scalar, z: Scalar) -> (r: Vec3)
        ensures
            r == Self::spec_new(x, y, z),
    {
        Vec3 { x, y, z }
    }

    /// A vector with three random components from zero to one.
    pub fn random() -> (v: Vec3)
        ensures
            within(v, unit_interval()),
    {
        random_vec3()
    }

    /// A vector with three random components of `range`.
    pub fn random_in(range: Interval) -> (v: Vec3)
        requires
            range.start.raw < range.end.raw,
        ensures
            within(v, range),
    {
        random_vec3_in(range)
    }

    /// A random direction, uniform over the sphere, of length one to
    /// eight places.
    pub fn random_unit_vector() -> (v: Vec3)
        ensures
            is_unit_sample(v),
            UNIT_NORM - 6 * SCALE - 3 < v.raw_norm() < UNIT_NORM + 0x40_0000_0000,
    {
        random_unit_vector()
    }

    /// A random point of the unit disk in the plane `z = 0`.
    pub fn random_in_unit_disk() -> (p: Vec3)
        ensures
            is_disk_sample(p),
    {
        random_in_unit_disk()
    }

    pub open spec fn spec_splat(v: Scalar) -> Vec3 {
        Vec3 { x: v, y: v, z: v }
    }

    /// The vector whose three components are `v`.
    #[verifier::when_used_as_spec(spec_splat)]
    pub fn splat(v: Scalar) -> (r: Vec3)
        ensures
            r == Self::spec_splat(v),
    {
        Vec3 { x: v, y: v, z: v }
    }

    /// Whether every component is a value that arithmetic can produce,
    /// which leaves out the one raw value below minus infinity.
    pub open spec fn in_range(self) -> bool {
        -RAW_MAX <= self.x.raw && -RAW_MAX <= self.y.raw && -RAW_MAX <= self.z.raw
    }

    pub open spec fn spec_axis(self, index: usize) -> Scalar {
        if index == 0 {
            self.x
        } else if index == 1 {
            self.y
        } else {
            self.z
        }
    }

    /// The component on axis `index`: x is 0, y is 1, z is 2.
    #[verifier::when_used_as_spec(spec_axis)]
    pub fn axis(self, index: usize) -> (r: Scalar)
        requires
            index < 3,
        ensures
            r == self.spec_axis(index),
    {
        if index == 0 {
            self.x
        } else if index == 1 {
            self.y
        } else {
            self.z
        }
    }

    pub open spec fn spec_neg(self) -> Vec3 {
        Vec3 { x: self.x.neg(), y: self.y.neg(), z: self.z.neg() }
    }

    /// The opposite vector.
    #[verifier::when_used_as_spec(spec_neg)]
    pub fn neg(self) -> (r: Vec3)
        ensures
            r == self.spec_neg(),
    {
        Vec3 { x: self.x.neg(), y: self.y.neg(), z: self.z.neg() }
    }

    pub open spec fn spec_plus(self, rhs: Vec3) -> Vec3 {
        Vec3 { x: self.x.plus(rhs.x), y: self.y.plus(rhs.y), z: self.z.plus(rhs.z) }
    }

    /// Component-wise sum.
    #[verifier::when_used_as_spec(spec_plus)]
    pub fn plus(self, rhs: Vec3) -> (r: Vec3)
        ensures
            r == self.spec_plus(rhs),
    {
        Vec3 { x: self.x.plus(rhs.x), y: self.y.plus(rhs.y), z: self.z.plus(rhs.z) }
    }

    pub open spec fn spec_minus(self, rhs: Vec3) -> Vec3 {
        Vec3 { x: self.x.minus(rhs.x), y: self.y.minus(rhs.y), z: self.z.minus(rhs.z) }
    }

    /// Component-wise difference.
    #[verifier::when_used_as_spec(spec_minus)]
    pub fn minus(self, rhs: Vec3) -> (r: Vec3)
        ensures
            r == self.spec_minus(rhs),
    {
        Vec3 { x: self.x.minus(rhs.x), y: self.y.minus(rhs.y), z: self.z.minus(rhs.z) }
    }

    pub open spec fn spec_times(self, rhs: Vec3) -> Vec3 {
        Vec3 { x: self.x.times(rhs.x), y: self.y.times(rhs.y), z: self.z.times(rhs.z) }
    }

    /// Component-wise product, as used to attenuate one colour by another.
    #[verifier::when_used_as_spec(spec_times)]
    pub fn times(self, rhs: Vec3) -> (r: Vec3)
        ensures
            r == self.spec_times(rhs),
    {
        Vec3 { x: self.x.times(rhs.x), y: self.y.times(rhs.y), z: self.z.times(rhs.z) }
    }

    pub open spec fn spec_scale(self, k: Scalar) -> Vec3 {
        Vec3 { x: self.x.times(k), y: self.y.times(k), z: self.z.times(k) }
    }

    /// Every component multiplied by `k`.
    #[verifier::when_used_as_spec(spec_scale)]
    pub fn scale(self, k: Scalar) -> (r: Vec3)
        ensures
            r == self.spec_scale(k),
    {
        Vec3 { x: self.x.times(k), y: self.y.times(k), z: self.z.times(k) }
    }

    pub open spec fn spec_div(self, k: Scalar) -> Vec3 {
        Vec3 { x: self.x.div(k), y: self.y.div(k), z: self.z.div(k) }
    }

    /// Every component divided by `k`.
    #[verifier::when_used_as_spec(spec_div)]
    pub fn div(self, k: Scalar) -> (r: Vec3)
        ensures
            r == self.spec_div(k),
    {
        Vec3 { x: self.x.div(k), y: self.y.div(k), z: self.z.div(k) }
    }

    pub open spec fn spec_dot(self, rhs: Vec3) -> Scalar {
        self.x.times(rhs.x).plus(self.y.times(rhs.y)).plus(self.z.times(rhs.z))
    }

    /// Dot product.
    #[verifier::when_used_as_spec(spec_dot)]
    pub fn dot(self, rhs: Vec3) -> (r: Scalar)
        ensures
            r == self.spec_dot(rhs),
    {
        self.x.times(rhs.x).plus(self.y.times(rhs.y)).plus(self.z.times(rhs.z))
    }

    pub open spec fn spec_cross(self, rhs: Vec3) -> Vec3 {
        Vec3 {
            x: self.y.times(rhs.z).minus(self.z.times(rhs.y)),
            y: self.z.times(rhs.x).minus(self.x.times(rhs.z)),
            z: self.x.times(rhs.y).minus(self.y.times(rhs.x)),
        }
    }

    /// Cross product.
    #[verifier::when_used_as_spec(spec_cross)]
    pub fn cross(self, rhs: Vec3) -> (r: Vec3)
        ensures
            r == self.spec_cross(rhs),
    {
        Vec3 {
            x: self.y.times(rhs.z).minus(self.z.times(rhs.y)),
            y: self.z.times(rhs.x).minus(self.x.times(rhs.z)),
            z: self.x.times(rhs.y).minus(self.y.times(rhs.x)),
        }
    }

    pub open spec fn spec_length_squared(self) -> Scalar {
        self.spec_dot(self)
    }

    /// Squared Euclidean length.
    #[verifier::when_used_as_spec(spec_length_squared)]
    pub fn length_squared(self) -> (r: Scalar)
        ensures
            r == self.spec_length_squared(),
    {
        self.dot(self)
    }

    /// The sum of the squares of the three raw components.
    pub open spec fn raw_norm(self) -> int {
        self.x.raw * self.x.raw + self.y.raw * self.y.raw + self.z.raw * self.z.raw
    }

    pub open spec fn spec_length(self) -> Scalar {
        Scalar { raw: clamp(floor_sqrt(self.raw_norm())) as i64 }
    }

    /// Euclidean length, rounded down. The squares are summed without
    /// rounding, so the result is off by less than one raw unit.
    #[verifier::when_used_as_spec(spec_length)]
    pub fn length(self) -> (r: Scalar)
        ensures
            r == self.spec_length(),
            r.raw >= 0,
    {
        let x = Self::magnitude(self.x);
        let y = Self::magnitude(self.y);
        let z = Self::magnitude(self.z);
        assert(x * x == self.x.raw * self.x.raw) by (nonlinear_arith)
            requires
                x == self.x.raw || x == -self.x.raw,
        ;
        assert(y * y == self.y.raw * self.y.raw) by (nonlinear_arith)
            requires
                y == self.y.raw || y == -self.y.raw,
        ;
        assert(z * z == self.z.raw * self.z.raw) by (nonlinear_arith)
            requires
                z == self.z.raw || z == -self.z.raw,
        ;
        assert(x * x <= 0x4000_0000_0000_0000_0000_0000_0000_0000) by (nonlinear_arith)
            requires
                0 <= x <= 0x8000_0000_0000_0000,
        ;
        assert(y * y <= 0x4000_0000_0000_0000_0000_0000_0000_0000) by (nonlinear_arith)
            requires
                0 <= y <= 0x8000_0000_0000_0000,
        ;
        assert(z * z <= 0x4000_0000_0000_0000_0000_0000_0000_0000) by (nonlinear_arith)
            requires
                0 <= z <= 0x8000_0000_0000_0000,
        ;
        let norm: u128 = x * x + y * y + z * z;
        let root = isqrt(norm);
        proof {
            lemma_floor_sqrt_is(root as int, norm as int);
        }
        if root > RAW_MAX as u64 {
            Scalar { raw: RAW_MAX }
        } else {
            Scalar { raw: root as i64 }
        }
    }

    fn magnitude(a: Scalar) -> (r: u128)
        ensures
            r == if a.raw < 0 { -(a.raw as int) } else { a.raw as int },
    {
        if a.raw < 0 {
            (-(a.raw as i128)) as u128
        } else {
            a.raw as u128
        }
    }

    pub open spec fn spec_is_near_zero(self) -> bool {
        self.x.abs().raw < NEAR_ZERO_RAW && self.y.abs().raw < NEAR_ZERO_RAW && self.z.abs().raw
            < NEAR_ZERO_RAW
    }

    /// Whether every component is closer to zero than `1e-8`.
    #[verifier::when_used_as_spec(spec_is_near_zero)]
    pub fn is_near_zero(self) -> (r: bool)
        ensures
            r == self.spec_is_near_zero(),
    {
        self.x.abs().raw < NEAR_ZERO_RAW && self.y.abs().raw < NEAR_ZERO_RAW && self.z.abs().raw
            < NEAR_ZERO_RAW
    }

    pub open spec fn spec_unit_vector(self) -> Vec3 {
        self.spec_div(self.spec_length())
    }

    /// The vector divided by its length. Unless the vector is zero or
    /// has a component beyond half the range, the result has length one
    /// up to rounding: see [`lemma_unit_vector_length`].
    #[verifier::when_used_as_spec(spec_unit_vector)]
    pub fn unit_vector(self) -> (r: Vec3)
        ensures
            r == self.spec_unit_vector(),
            can_double(self) && self.raw_norm() > 0 ==> {
                let len = self.spec_length().raw as int;
                &&& UNIT_NORM - 6 * SCALE - 3 < r.raw_norm()
                &&& r.raw_norm() * (len * len) < UNIT_NORM * ((len + 1) * (len + 1))
            },
    {
        proof {
            if can_double(self) && self.raw_norm() > 0 {
                lemma_unit_vector_length(self);
                assert(SCALE * SCALE == UNIT_NORM) by (nonlinear_arith)
                    requires
                        SCALE == 0x1_0000_0000,
                        UNIT_NORM == 0x1_0000_0000_0000_0000,
                ;
            }
        }
        self.div(self.length())
    }

    pub open spec fn spec_reflect(self, normal: Vec3) -> Vec3 {
        self.spec_minus(normal.spec_scale(Scalar::spec_two().times(self.spec_dot(normal))))
    }

    /// The mirror image of `self` about the plane with the given normal:
    /// `self - 2 (self . normal) normal`.
    #[verifier::when_used_as_spec(spec_reflect)]
    pub fn reflect(self, normal: Vec3) -> (r: Vec3)
        ensures
            r == self.spec_reflect(normal),
    {
        self.minus(normal.scale(Scalar::two().times(self.dot(normal))))
    }

    pub open spec fn spec_refract(self, normal: Vec3, ratio: Scalar) -> Vec3 {
        let cos_theta = self.spec_dot(normal).neg().min(Scalar::spec_one());
        let perp = self.spec_plus(normal.spec_scale(cos_theta)).spec_scale(ratio);
        let parallel = normal.spec_scale(
            Scalar::spec_one().minus(perp.spec_length_squared()).abs().sqrt().neg(),
        );
        perp.spec_plus(parallel)
    }

    /// The direction of `self` after crossing a surface with the given
    /// normal, by Snell's law; `ratio` is the refractive index on the
    /// incoming side over the one on the outgoing side.
    #[verifier::when_used_as_spec(spec_refract)]
    pub fn refract(self, normal: Vec3, ratio: Scalar) -> (r: Vec3)
        ensures
            r == self.spec_refract(normal, ratio),
    {
        let cos_theta = self.dot(normal).neg().min(Scalar::one());
        let perp = self.plus(normal.scale(cos_theta)).scale(ratio);
        let parallel = normal.scale(Scalar::one().minus(perp.length_squared()).abs().sqrt().neg());
        perp.plus(parallel)
    }
}

/// Whether `n` is a unit vector along one of the coordinate axes, in
/// either direction.
pub open spec fn is_axis_normal(n: Vec3) -> bool {
    let one = SCALE as int;
    ||| (n.x.raw == one || n.x.raw == -one) && n.y.raw == 0 && n.z.raw == 0
    ||| n.x.raw == 0 && (n.y.raw == one || n.y.raw == -one) && n.z.raw == 0
    ||| n.x.raw == 0 && n.y.raw == 0 && (n.z.raw == one || n.z.raw == -one)
}

/// Whether doubling any component of `v` stays in range.
pub open spec fn can_double(v: Vec3) -> bool {
    let half = RAW_MAX / 2;
    &&& -half <= v.x.raw <= half
    &&& -half <= v.y.raw <= half
    &&& -half <= v.z.raw <= half
}

/// Reflection about a surface that faces along a coordinate axis is
/// exact: the component along the normal changes its sign and the two
/// others stay. So the reflected direction is as long as the incoming
/// one and makes the same angle with the normal, on the other side.
pub proof fn lemma_reflect_about_axis(d: Vec3, n: Vec3)
    requires
        is_axis_normal(n),
        can_double(d),
    ensures
        d.spec_reflect(n) == (Vec3 {
            x: if n.x.raw != 0 {
                d.x.spec_neg()
            } else {
                d.x
            },
            y: if n.y.raw != 0 {
                d.y.spec_neg()
            } else {
                d.y
            },
            z: if n.z.raw != 0 {
                d.z.spec_neg()
            } else {
                d.z
            },
        }),
        d.spec_reflect(n).spec_dot(n) == d.spec_dot(n).spec_neg(),
        d.spec_reflect(n).raw_norm() == d.raw_norm(),
{
    let one = SCALE as int;
    lemma_times_unit(d.x, n.x);
    lemma_times_unit(d.y, n.y);
    lemma_times_unit(d.z, n.z);
    let dot = d.spec_dot(n);
    let twice = Scalar::spec_two().times(dot);
    assert(twice.raw == 2 * dot.raw) by {
        assert((2 * one) * dot.raw == (2 * dot.raw) * one) by (nonlinear_arith);
        lemma_tdiv_exact(2 * dot.raw, one);
    }
    lemma_times_unit(twice, n.x);
    lemma_times_unit(twice, n.y);
    lemma_times_unit(twice, n.z);
    let scaled = n.spec_scale(twice);
    assert(scaled.x == n.x.times(twice));
    lemma_times_commutes(n.x, twice);
    lemma_times_commutes(n.y, twice);
    lemma_times_commutes(n.z, twice);
    let r = d.spec_reflect(n);
    lemma_times_unit(r.x, n.x);
    lemma_times_unit(r.y, n.y);
    lemma_times_unit(r.z, n.z);
    assert(r.x.raw * r.x.raw == d.x.raw * d.x.raw) by (nonlinear_arith)
        requires
            r.x.raw == d.x.raw || r.x.raw == -d.x.raw,
    ;
    assert(r.y.raw * r.y.raw == d.y.raw * d.y.raw) by (nonlinear_arith)
        requires
            r.y.raw == d.y.raw || r.y.raw == -d.y.raw,
    ;
    assert(r.z.raw * r.z.raw == d.z.raw * d.z.raw) by (nonlinear_arith)
        requires
            r.z.raw == d.z.raw || r.z.raw == -d.z.raw,
    ;
}

/// The magnitude of a raw value.
pub open spec fn magnitude(a: int) -> int {
    if a < 0 {
        -a
    } else {
        a
    }
}

/// One component of a vector divided by the vector's length `len`: the
/// quotient, times the length, comes within one length of the component
/// times one, from below.
proof fn lemma_unit_component(x: Scalar, len: Scalar)
    requires
        len.raw >= 1,
        magnitude(x.raw as int) <= len.raw,
    ensures
        ({
            let w = magnitude(x.div(len).raw as int);
            let a = magnitude(x.raw as int);
            &&& w <= SCALE
            &&& w * len.raw <= a * SCALE
            &&& a * SCALE < (w + 1) * len.raw
        }),
{
    let a = magnitude(x.raw as int);
    let l = len.raw as int;
    let one = SCALE as int;
    let q = (a * one) / l;
    assert(a * one >= 0) by (nonlinear_arith)
        requires
            a >= 0,
            one > 0,
    ;
    assert(a * one <= l * one) by (nonlinear_arith)
        requires
            a <= l,
            one > 0,
    ;
    vstd::arithmetic::div_mod::lemma_fundamental_div_mod(a * one, l);
    vstd::arithmetic::div_mod::lemma_div_is_ordered(a * one, l * one, l);
    assert(l * one == one * l) by (nonlinear_arith);
    vstd::arithmetic::div_mod::lemma_div_by_multiple(one, l);
    vstd::arithmetic::div_mod::lemma_div_pos_is_pos(a * one, l);
    assert(0 <= q <= one);
    assert(q * l == l * q) by (nonlinear_arith);
    assert((q + 1) * l == l * q + l) by (nonlinear_arith);
    if x.raw < 0 {
        assert((x.raw as int) * one == -(a * one)) by (nonlinear_arith)
            requires
                a == -(x.raw as int),
        ;
    }
    assert(magnitude(x.div(len).raw as int) == q);
}

/// A vector divided by its length has length one, up to rounding: its
/// squared raw length lies above `(1 - 6 / 2^32 - 3 / 2^64)` and, times
/// the squared length of the vector, below the square of that length
/// plus one raw unit.
pub proof fn lemma_unit_vector_length(v: Vec3)
    requires
        can_double(v),
        v.raw_norm() > 0,
    ensures
        ({
            let one = SCALE as int;
            let len = v.spec_length().raw as int;
            let unit = v.spec_unit_vector();
            &&& len >= 1
            &&& is_floor_sqrt(len, v.raw_norm())
            &&& -one <= unit.x.raw <= one
            &&& -one <= unit.y.raw <= one
            &&& -one <= unit.z.raw <= one
            &&& one * one - 6 * one - 3 < unit.raw_norm()
            &&& unit.raw_norm() * (len * len) < (one * one) * ((len + 1) * (len + 1))
        }),
{
    let one = SCALE as int;
    let n = v.raw_norm();
    let x = magnitude(v.x.raw as int);
    let y = magnitude(v.y.raw as int);
    let z = magnitude(v.z.raw as int);
    let half = (RAW_MAX / 2) as int;
    assert(x * x == v.x.raw * v.x.raw && y * y == v.y.raw * v.y.raw && z * z == v.z.raw
        * v.z.raw) by (nonlinear_arith)
        requires
            x == v.x.raw || x == -v.x.raw,
            y == v.y.raw || y == -v.y.raw,
            z == v.z.raw || z == -v.z.raw,
    ;
    assert(x * x <= half * half && y * y <= half * half && z * z <= half * half)
        by (nonlinear_arith)
        requires
            0 <= x <= half,
            0 <= y <= half,
            0 <= z <= half,
    ;
    assert(x * x >= 0 && y * y >= 0 && z * z >= 0) by (nonlinear_arith);
    crate::scalar::lemma_floor_sqrt_exists(n);
    let l = floor_sqrt(n);
    assert(l <= RAW_MAX) by (nonlinear_arith)
        requires
            0 <= l,
            l * l <= n,
            n <= 3 * (half * half),
            half == 0x3fff_ffff_ffff_ffff,
    ;
    assert(l >= 1) by (nonlinear_arith)
        requires
            0 <= l,
            n < (l + 1) * (l + 1),
            n > 0,
    ;
    let len = v.spec_length();
    assert(len.raw == l);
    assert(x <= l && y <= l && z <= l) by (nonlinear_arith)
        requires
            0 <= x,
            0 <= y,
            0 <= z,
            0 <= l,
            x * x <= n,
            y * y <= n,
            z * z <= n,
            n < (l + 1) * (l + 1),
    ;
    lemma_unit_component(v.x, len);
    lemma_unit_component(v.y, len);
    lemma_unit_component(v.z, len);
    let unit = v.spec_unit_vector();
    let a = magnitude(unit.x.raw as int);
    let b = magnitude(unit.y.raw as int);
    let c = magnitude(unit.z.raw as int);
    assert(a * a == unit.x.raw * unit.x.raw && b * b == unit.y.raw * unit.y.raw && c * c
        == unit.z.raw * unit.z.raw) by (nonlinear_arith)
        requires
            a == unit.x.raw || a == -unit.x.raw,
            b == unit.y.raw || b == -unit.y.raw,
            c == unit.z.raw || c == -unit.z.raw,
    ;
    lemma_square_bounds(a, x, l);
    lemma_square_bounds(b, y, l);
    lemma_square_bounds(c, z, l);
    let sum = a * a + b * b + c * c;
    // from above
    lemma_square_of_product(a, l);
    lemma_square_of_product(b, l);
    lemma_square_of_product(c, l);
    lemma_distribute(l * l, a * a, b * b, c * c);
    lemma_square_of_product(x, one);
    lemma_square_of_product(y, one);
    lemma_square_of_product(z, one);
    lemma_distribute(one * one, x * x, y * y, z * z);
    assert((one * one) * n < (one * one) * ((l + 1) * (l + 1))) by (nonlinear_arith)
        requires
            n < (l + 1) * (l + 1),
            one > 0,
    ;
    // from below
    let more = (a + 1) * (a + 1) + (b + 1) * (b + 1) + (c + 1) * (c + 1);
    lemma_square_of_product(a + 1, l);
    lemma_square_of_product(b + 1, l);
    lemma_square_of_product(c + 1, l);
    lemma_distribute(l * l, (a + 1) * (a + 1), (b + 1) * (b + 1), (c + 1) * (c + 1));
    assert((one * one) * (l * l) <= (one * one) * n) by (nonlinear_arith)
        requires
            l * l <= n,
            one > 0,
    ;
    assert(more > one * one) by (nonlinear_arith)
        requires
            more * (l * l) > (one * one) * (l * l),
            l >= 1,
    ;
    lemma_square_of_successor(a);
    lemma_square_of_successor(b);
    lemma_square_of_successor(c);
}

/// A sum of three terms times a factor, multiplied out.
proof fn lemma_distribute(k: int, p: int, q: int, r: int)
    ensures
        k * (p + q + r) == k * p + k * q + k * r,
        (p + q + r) * k == k * p + k * q + k * r,
{
    assert(k * (p + q + r) == k * p + k * q + k * r) by (nonlinear_arith);
    assert((p + q + r) * k == k * (p + q + r)) by (nonlinear_arith);
}

/// The square of a number plus one.
proof fn lemma_square_of_successor(a: int)
    ensures
        (a + 1) * (a + 1) == a * a + 2 * a + 1,
{
    assert((a + 1) * (a + 1) == a * a + 2 * a + 1) by (nonlinear_arith);
}

/// The square of a product is the product of the squares.
proof fn lemma_square_of_product(a: int, b: int)
    ensures
        (a * b) * (a * b) == (b * b) * (a * a),
{
    assert((a * b) * (a * b) == (b * b) * (a * a)) by (nonlinear_arith);
}

/// Squares keep the bounds of [`lemma_unit_component`].
proof fn lemma_square_bounds(w: int, a: int, l: int)
    requires
        0 <= w,
        0 <= a,
        l >= 1,
        w * l <= a * SCALE,
        a * SCALE < (w + 1) * l,
    ensures
        (w * l) * (w * l) <= (a * SCALE) * (a * SCALE),
        (a * SCALE) * (a * SCALE) < ((w + 1) * l) * ((w + 1) * l),
{
    let p = w * l;
    let q = a * SCALE;
    let r = (w + 1) * l;
    assert(p >= 0) by (nonlinear_arith)
        requires
            p == w * l,
            w >= 0,
            l >= 1,
    ;
    assert(q >= 0) by (nonlinear_arith)
        requires
            q == a * SCALE,
            a >= 0,
    ;
    assert(p * p <= q * q) by (nonlinear_arith)
        requires
            0 <= p <= q,
    ;
    assert(q * q < r * r) by (nonlinear_arith)
        requires
            0 <= q < r,
    ;
}

/// Whether every component of `v` has a magnitude of at most `bound`.
pub open spec fn within_bound(v: Vec3, bound: int) -> bool {
    &&& -bound <= v.x.raw <= bound
    &&& -bound <= v.y.raw <= bound
    &&& -bound <= v.z.raw <= bound
}

/// The largest raw component, `2^50`, for which [`lemma_reflect_angle`]
/// is stated: about a quarter of a million.
pub const REFLECT_BOUND: i64 = 0x4_0000_0000_0000;

/// The product of a number with one of magnitude at most one is no
/// larger in magnitude than the number, and differs from the exact
/// product by less than one raw unit.
pub proof fn lemma_times_error(a: Scalar, n: Scalar)
    requires
        -SCALE <= n.raw <= SCALE,
        -RAW_MAX <= a.raw,
    ensures
        magnitude(a.times(n).raw as int) <= magnitude(a.raw as int),
        -SCALE < a.raw * n.raw - a.times(n).raw * SCALE < SCALE,
{
    let one = SCALE as int;
    let p = a.raw * n.raw;
    let m = magnitude(p);
    let am = magnitude(a.raw as int);
    assert(m <= am * one) by (nonlinear_arith)
        requires
            m == p || m == -p,
            p == a.raw * n.raw,
            am == a.raw || am == -a.raw,
            am >= 0,
            -one <= n.raw <= one,
    ;
    vstd::arithmetic::div_mod::lemma_fundamental_div_mod(m, one);
    vstd::arithmetic::div_mod::lemma_div_is_ordered(m, am * one, one);
    vstd::arithmetic::div_mod::lemma_div_by_multiple(am, one);
    vstd::arithmetic::div_mod::lemma_div_pos_is_pos(m, one);
    let q = m / one;
    assert(q * one == one * q) by (nonlinear_arith);
}

/// One axis of [`lemma_reflect_angle`], over the integers. With `d` and
/// `n` the components of the direction and the normal, `k` twice the
/// rounded dot product, and `dd`, `s` and `rr` the rounded values of
/// `d n`, `k n` and `(d - s) n`: the part this axis has in the
/// difference between the two angles is less than three.
proof fn lemma_reflect_axis(d: int, n: int, k: int, dd: int, s: int, rr: int)
    requires
        -SCALE <= n <= SCALE,
        -SCALE < d * n - dd * SCALE < SCALE,
        -SCALE < k * n - s * SCALE < SCALE,
        -SCALE < (d - s) * n - rr * SCALE < SCALE,
    ensures
        -3 * UNIT_NORM < rr * UNIT_NORM - dd * UNIT_NORM + k * (n * n) < 3 * UNIT_NORM,
{
    let one = SCALE as int;
    let unit = UNIT_NORM as int;
    let e = d * n - dd * one;
    let f = k * n - s * one;
    let g = (d - s) * n - rr * one;
    assert(one * one == unit) by (nonlinear_arith)
        requires
            one == 0x1_0000_0000,
            unit == 0x1_0000_0000_0000_0000,
    ;
    lemma_component_identity(d, n, s, k, f);
    // ((d - s) n) one == (d n) one - k n^2 + f n
    let t = (d - s) * n;
    let p = d * n;
    assert(rr * unit == t * one - g * one) by (nonlinear_arith)
        requires
            g == t - rr * one,
            unit == one * one,
    ;
    assert(dd * unit == p * one - e * one) by (nonlinear_arith)
        requires
            e == p - dd * one,
            unit == one * one,
    ;
    assert(rr * unit - dd * unit + k * (n * n) == (e - g) * one + f * n) by (nonlinear_arith)
        requires
            rr * unit == t * one - g * one,
            dd * unit == p * one - e * one,
            t * one == p * one - k * (n * n) + f * n,
    ;
    lemma_error_product(f, n);
    assert(-2 * unit < (e - g) * one < 2 * unit) by (nonlinear_arith)
        requires
            unit == one * one,
            -one < e < one,
            -one < g < one,
            one > 0,
    ;
}

/// The angle of reflection equals the angle of incidence, up to
/// rounding. With `R` the dot product of the reflected direction with
/// the normal, `D` that of the incoming direction, and `N` the squared
/// length of the normal, all raw: `R = -D + 2 D (1 - N / 2^64)` to
/// within nine raw units. For a normal of length one the middle term
/// vanishes.
pub proof fn lemma_reflect_angle(d: Vec3, n: Vec3)
    requires
        within_bound(d, REFLECT_BOUND as int),
        within_bound(n, SCALE as int),
    ensures
        ({
            let reflected = d.spec_reflect(n).spec_dot(n).raw as int;
            let incoming = d.spec_dot(n).raw as int;
            let off = (reflected + incoming) * UNIT_NORM - 2 * incoming * (UNIT_NORM - n.raw_norm());
            -9 * UNIT_NORM < off < 9 * UNIT_NORM
        }),
{
    let dot = d.spec_dot(n);
    let twice = Scalar::spec_two().times(dot);
    let r = d.spec_reflect(n);
    let k = twice.raw as int;
    let big_d = dot.raw as int;
    let big_r = r.spec_dot(n).raw as int;
    lemma_reflect_rounding(d, n);
    let dx = d.x.times(n.x).raw as int;
    let dy = d.y.times(n.y).raw as int;
    let dz = d.z.times(n.z).raw as int;
    let rx = r.x.times(n.x).raw as int;
    let ry = r.y.times(n.y).raw as int;
    let rz = r.z.times(n.z).raw as int;
    let s = n.spec_scale(twice);
    lemma_reflect_axis(d.x.raw as int, n.x.raw as int, k, dx, s.x.raw as int, rx);
    lemma_reflect_axis(d.y.raw as int, n.y.raw as int, k, dy, s.y.raw as int, ry);
    lemma_reflect_axis(d.z.raw as int, n.z.raw as int, k, dz, s.z.raw as int, rz);
    let unit = UNIT_NORM as int;
    let nn = n.raw_norm();
    lemma_distribute(k, n.x.raw * n.x.raw, n.y.raw * n.y.raw, n.z.raw * n.z.raw);
    lemma_distribute(unit, rx, ry, rz);
    lemma_distribute(unit, dx, dy, dz);
    assert(big_r * unit == unit * rx + unit * ry + unit * rz);
    assert(big_d * unit == unit * dx + unit * dy + unit * dz);
    assert(rx * unit == unit * rx && ry * unit == unit * ry && rz * unit == unit * rz
        && dx * unit == unit * dx && dy * unit == unit * dy && dz * unit == unit * dz)
        by (nonlinear_arith);
    assert((big_r + big_d) * unit - 2 * big_d * (unit - nn) == big_r * unit - big_d * unit + k
        * nn) by (nonlinear_arith)
        requires
            k == 2 * big_d,
    ;
}

/// The dot product of a bounded vector with one whose components have
/// magnitude at most one: the three products do not saturate, each is
/// off by less than one raw unit, and their sum is exact.
proof fn lemma_dot_rounding(v: Vec3, n: Vec3, bound: int)
    requires
        0 <= bound <= 0x1000_0000_0000_0000,
        within_bound(v, bound),
        within_bound(n, SCALE as int),
    ensures
        v.spec_dot(n).raw == v.x.times(n.x).raw + v.y.times(n.y).raw + v.z.times(n.z).raw,
        -3 * bound <= v.spec_dot(n).raw <= 3 * bound,
        -SCALE < v.x.raw * n.x.raw - v.x.times(n.x).raw * SCALE < SCALE,
        -SCALE < v.y.raw * n.y.raw - v.y.times(n.y).raw * SCALE < SCALE,
        -SCALE < v.z.raw * n.z.raw - v.z.times(n.z).raw * SCALE < SCALE,
{
    lemma_times_error(v.x, n.x);
    lemma_times_error(v.y, n.y);
    lemma_times_error(v.z, n.z);
}

/// A bounded number times two is exact, and a vector whose components
/// have magnitude at most one, scaled by a bounded number, is off by
/// less than one raw unit in each component.
proof fn lemma_scale_rounding(n: Vec3, half: Scalar, bound: int)
    requires
        0 <= bound <= 0x1000_0000_0000_0000,
        -bound <= half.raw <= bound,
        within_bound(n, SCALE as int),
    ensures
        ({
            let k = Scalar::spec_two().times(half);
            let s = n.spec_scale(k);
            &&& k.raw == 2 * half.raw
            &&& within_bound(s, 2 * bound)
            &&& -SCALE < k.raw * n.x.raw - s.x.raw * SCALE < SCALE
            &&& -SCALE < k.raw * n.y.raw - s.y.raw * SCALE < SCALE
            &&& -SCALE < k.raw * n.z.raw - s.z.raw * SCALE < SCALE
        }),
{
    let one = SCALE as int;
    let k = Scalar::spec_two().times(half);
    assert(k.raw == 2 * half.raw) by {
        assert((2 * one) * half.raw == (2 * half.raw) * one) by (nonlinear_arith);
        lemma_tdiv_exact(2 * half.raw, one);
    }
    lemma_times_commutes(n.x, k);
    lemma_times_commutes(n.y, k);
    lemma_times_commutes(n.z, k);
    lemma_times_error(k, n.x);
    lemma_times_error(k, n.y);
    lemma_times_error(k, n.z);
}

/// What rounding does along the way in [`lemma_reflect_angle`]: nothing
/// saturates, the sums are exact, and each product is off by less than
/// one raw unit.
proof fn lemma_reflect_rounding(d: Vec3, n: Vec3)
    requires
        within_bound(d, REFLECT_BOUND as int),
        within_bound(n, SCALE as int),
    ensures
        ({
            let dot = d.spec_dot(n);
            let twice = Scalar::spec_two().times(dot);
            let s = n.spec_scale(twice);
            let r = d.spec_reflect(n);
            let k = twice.raw as int;
            &&& k == 2 * dot.raw
            &&& dot.raw == d.x.times(n.x).raw + d.y.times(n.y).raw + d.z.times(n.z).raw
            &&& r.spec_dot(n).raw == r.x.times(n.x).raw + r.y.times(n.y).raw + r.z.times(n.z).raw
            &&& r.x.raw == d.x.raw - s.x.raw
            &&& r.y.raw == d.y.raw - s.y.raw
            &&& r.z.raw == d.z.raw - s.z.raw
            &&& -SCALE < d.x.raw * n.x.raw - d.x.times(n.x).raw * SCALE < SCALE
            &&& -SCALE < d.y.raw * n.y.raw - d.y.times(n.y).raw * SCALE < SCALE
            &&& -SCALE < d.z.raw * n.z.raw - d.z.times(n.z).raw * SCALE < SCALE
            &&& -SCALE < k * n.x.raw - s.x.raw * SCALE < SCALE
            &&& -SCALE < k * n.y.raw - s.y.raw * SCALE < SCALE
            &&& -SCALE < k * n.z.raw - s.z.raw * SCALE < SCALE
            &&& -SCALE < r.x.raw * n.x.raw - r.x.times(n.x).raw * SCALE < SCALE
            &&& -SCALE < r.y.raw * n.y.raw - r.y.times(n.y).raw * SCALE < SCALE
            &&& -SCALE < r.z.raw * n.z.raw - r.z.times(n.z).raw * SCALE < SCALE
        }),
{
    let bound = REFLECT_BOUND as int;
    lemma_dot_rounding(d, n, bound);
    let dot = d.spec_dot(n);
    lemma_scale_rounding(n, dot, 3 * bound);
    let twice = Scalar::spec_two().times(dot);
    let s = n.spec_scale(twice);
    let r = d.spec_reflect(n);
    assert(r == d.spec_minus(s));
    assert(within_bound(r, 7 * bound));
    lemma_dot_rounding(r, n, 7 * bound);
}

/// A rounding error times a component of magnitude at most one stays
/// below one times one in magnitude.
proof fn lemma_error_product(err: int, n: int)
    requires
        -SCALE < err < SCALE,
        -SCALE <= n <= SCALE,
    ensures
        -UNIT_NORM < err * n < UNIT_NORM,
{
    let one = SCALE as int;
    assert(-(one * one) < err * n < one * one) by (nonlinear_arith)
        requires
            -one < err < one,
            -one <= n <= one,
            one > 0,
    ;
    assert(one * one == UNIT_NORM) by (nonlinear_arith)
        requires
            one == 0x1_0000_0000,
    ;
}

/// One component of the reflected direction times the same component of
/// the normal, written out.
proof fn lemma_component_identity(d: int, n: int, s: int, k: int, f: int)
    requires
        f == k * n - s * SCALE,
    ensures
        ((d - s) * n) * SCALE == (d * n) * SCALE - k * (n * n) + f * n,
{
    let one = SCALE as int;
    assert(((d - s) * n) * one == (d * n) * one - (s * one) * n) by (nonlinear_arith);
    assert((s * one) * n == (k * n - f) * n) by (nonlinear_arith)
        requires
            s * one == k * n - f,
    ;
    assert((k * n - f) * n == k * (n * n) - f * n) by (nonlinear_arith);
}

} // verus!
