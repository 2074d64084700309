//! Fixed-point real numbers.
//!
//! A [`Scalar`] stands for the real number `raw / 2^32`. Every operation
//! rounds toward zero and saturates at the largest magnitude instead of
//! overflowing. The two values of largest magnitude serve as signed
//! infinities where the tracer needs them: a non-zero number divided by
//! zero gives one of them, every other number compares strictly between
//! them, and the far end of an unbounded interval is one of them. They
//! are not absorbing: adding to an infinity or multiplying it gives the
//! saturated result of ordinary arithmetic.
use vstd::prelude::*;

verus! {

/// The raw value that stands for the number one.
pub const SCALE: i64 = 4294967296;

/// The largest raw magnitude an operation can produce.
pub const RAW_MAX: i64 = 9223372036854775807;

/// `x` forced into the symmetric range `[-RAW_MAX, RAW_MAX]`.
pub open spec fn clamp(x: int) -> int {
    if x > RAW_MAX {
        RAW_MAX as int
    } else if x < -RAW_MAX {
        -RAW_MAX
    } else {
        x
    }
}

/// Quotient of `a` by a non-zero `b`, rounded toward zero.
pub open spec fn tdiv(a: int, b: int) -> int {
    if b > 0 {
        if a >= 0 {
            a / b
        } else {
            -((-a) / b)
        }
    } else {
        if a >= 0 {
            -(a / (-b))
        } else {
            (-a) / (-b)
        }
    }
}

/// Whether `r` is the integer square root of `n`, rounded down.
pub open spec fn is_floor_sqrt(r: int, n: int) -> bool {
    0 <= r && r * r <= n && n < (r + 1) * (r + 1)
}

/// The integer square root of `n`, rounded down (zero for negative `n`).
pub open spec fn floor_sqrt(n: int) -> int {
    if n < 0 {
        0
    } else {
        choose|r: int| is_floor_sqrt(r, n)
    }
}

/// Two floor square roots of the same number coincide.
pub proof fn lemma_floor_sqrt_unique(r1: int, r2: int, n: int)
    requires
        is_floor_sqrt(r1, n),
        is_floor_sqrt(r2, n),
    ensures
        r1 == r2,
{
    if r1 < r2 {
        assert((r1 + 1) * (r1 + 1) <= r2 * r2) by (nonlinear_arith)
            requires
                0 <= r1 + 1 <= r2,
        ;
    } else if r2 < r1 {
        assert((r2 + 1) * (r2 + 1) <= r1 * r1) by (nonlinear_arith)
            requires
                0 <= r2 + 1 <= r1,
        ;
    }
}

/// A witness fixes the value of [`floor_sqrt`].
pub proof fn lemma_floor_sqrt_is(r: int, n: int)
    requires
        is_floor_sqrt(r, n),
    ensures
        floor_sqrt(n) == r,
{
    assert(n >= 0) by (nonlinear_arith)
        requires
            r * r <= n,
    ;
    lemma_floor_sqrt_unique(r, floor_sqrt(n), n);
}

/// Sum of two raw values.
pub open spec fn fx_add(a: int, b: int) -> int {
    clamp(a + b)
}

/// Difference of two raw values.
pub open spec fn fx_sub(a: int, b: int) -> int {
    clamp(a - b)
}

/// Product of two raw values.
pub open spec fn fx_mul(a: int, b: int) -> int {
    clamp(tdiv(a * b, SCALE as int))
}

/// Quotient of two raw values. Division by zero gives the extreme value
/// with the sign of the dividend, and zero for a zero dividend.
pub open spec fn fx_div(a: int, b: int) -> int {
    if b != 0 {
        clamp(tdiv(a * SCALE, b))
    } else if a > 0 {
        RAW_MAX as int
    } else if a < 0 {
        -RAW_MAX
    } else {
        0
    }
}

/// Square root of a raw value; zero for a negative one.
pub open spec fn fx_sqrt(a: int) -> int {
    floor_sqrt(a * SCALE)
}

/// A fixed-point number with 32 fractional bits.
#[derive(Clone, Copy, Debug, PartialEq, Eq, Structural)]
pub struct Scalar {
    pub raw: i64,
}

/// Floor square root of `n`.
pub fn isqrt(n: u128) -> (r: u64)
    ensures
        is_floor_sqrt(r as int, n as int),
        n < 0x1_0000_0000_0000_0000_0000_0000 ==> r < 0x1_0000_0000_0000,
{
    let mut lo: u128 = 0;
    let mut hi: u128 = if n < 0x1_0000_0000_0000_0000_0000_0000 {
        0x1_0000_0000_0000
    } else {
        0x1_0000_0000_0000_0000
    };
    assert(0x1_0000_0000_0000int * 0x1_0000_0000_0000int == 0x1_0000_0000_0000_0000_0000_0000int)
        by (nonlinear_arith);
    assert(0x1_0000_0000_0000_0000int * 0x1_0000_0000_0000_0000int
        == 0x1_0000_0000_0000_0000_0000_0000_0000_0000int) by (nonlinear_arith);
    while hi - lo > 1
        invariant
            lo < hi <= 0x1_0000_0000_0000_0000,
            n < 0x1_0000_0000_0000_0000_0000_0000 ==> hi <= 0x1_0000_0000_0000,
            lo * lo <= n,
            n < hi * hi,
        decreases hi - lo,
    {
        let mid: u128 = lo + (hi - lo) / 2;
        assert(mid * mid < 0x1_0000_0000_0000_0000_0000_0000_0000_0000) by (nonlinear_arith)
            requires
                0 <= mid < 0x1_0000_0000_0000_0000,
        ;
        let sq: u128 = mid * mid;
        if sq <= n {
            lo = mid;
        } else {
            hi = mid;
        }
    }
    lo as u64
}

impl Scalar {
    /// The number whose raw value is `raw`.
    pub fn from_raw(raw: i64) -> (r: Scalar)
        ensures
            r.raw == raw,
    {
        Scalar { raw }
    }

    /// The whole number `n`, saturated.
    pub fn from_int(n: i64) -> (r: Scalar)
        ensures
            r.raw == clamp(n * SCALE),
    {
        let wide: i128 = (n as i128) * 4294967296i128;
        Scalar { raw: Self::saturate(wide) }
    }

    /// The fraction `num / den`, rounded toward zero; see [`fx_div`] for a
    /// zero denominator.
    pub fn from_ratio(num: i64, den: i64) -> (r: Scalar)
        ensures
            r.raw == fx_div(num as int, den as int),
    {
        Scalar { raw: num }.div(Scalar { raw: den })
    }

    pub open spec fn spec_zero() -> Scalar {
        Scalar { raw: 0 }
    }

    /// Zero.
    #[verifier::when_used_as_spec(spec_zero)]
    pub fn zero() -> (r: Scalar)
        ensures
            r == Self::spec_zero(),
    {
        Scalar { raw: 0 }
    }

    pub open spec fn spec_one() -> Scalar {
        Scalar { raw: SCALE }
    }

    /// One.
    #[verifier::when_used_as_spec(spec_one)]
    pub fn one() -> (r: Scalar)
        ensures
            r == Self::spec_one(),
    {
        Scalar { raw: SCALE }
    }

    pub open spec fn spec_two() -> Scalar {
        Scalar { raw: 8589934592 }
    }

    /// Two.
    #[verifier::when_used_as_spec(spec_two)]
    pub fn two() -> (r: Scalar)
        ensures
            r == Self::spec_two(),
    {
        Scalar { raw: 8589934592 }
    }

    pub open spec fn spec_infinity() -> Scalar {
        Scalar { raw: RAW_MAX }
    }

    /// The largest number, which stands for positive infinity.
    #[verifier::when_used_as_spec(spec_infinity)]
    pub fn infinity() -> (r: Scalar)
        ensures
            r == Self::spec_infinity(),
    {
        Scalar { raw: RAW_MAX }
    }

    fn magnitude(raw: i64) -> (r: u128)
        ensures
            r == if raw < 0 { -(raw as int) } else { raw as int },
    {
        if raw < 0 {
            (-(raw as i128)) as u128
        } else {
            raw as u128
        }
    }

    fn saturate(wide: i128) -> (r: i64)
        ensures
            r == clamp(wide as int),
    {
        if wide > RAW_MAX as i128 {
            RAW_MAX
        } else if wide < -(RAW_MAX as i128) {
            -RAW_MAX
        } else {
            wide as i64
        }
    }

    pub open spec fn spec_plus(self, rhs: Scalar) -> Scalar {
        Scalar { raw: fx_add(self.raw as int, rhs.raw as int) as i64 }
    }

    /// Saturating sum.
    #[verifier::when_used_as_spec(spec_plus)]
    pub fn plus(self, rhs: Scalar) -> (r: Scalar)
        ensures
            r == self.spec_plus(rhs),
    {
        Scalar { raw: Self::saturate(self.raw as i128 + rhs.raw as i128) }
    }

    pub open spec fn spec_minus(self, rhs: Scalar) -> Scalar {
        Scalar { raw: fx_sub(self.raw as int, rhs.raw as int) as i64 }
    }

    /// Saturating difference.
    #[verifier::when_used_as_spec(spec_minus)]
    pub fn minus(self, rhs: Scalar) -> (r: Scalar)
        ensures
            r == self.spec_minus(rhs),
    {
        Scalar { raw: Self::saturate(self.raw as i128 - rhs.raw as i128) }
    }

    pub open spec fn spec_neg(self) -> Scalar {
        Scalar { raw: clamp(-(self.raw as int)) as i64 }
    }

    /// Saturating negation.
    #[verifier::when_used_as_spec(spec_neg)]
    pub fn neg(self) -> (r: Scalar)
        ensures
            r == self.spec_neg(),
    {
        Scalar { raw: Self::saturate(-(self.raw as i128)) }
    }

    pub open spec fn spec_abs(self) -> Scalar {
        if self.raw < 0 {
            self.spec_neg()
        } else {
            self
        }
    }

    /// Absolute value.
    #[verifier::when_used_as_spec(spec_abs)]
    pub fn abs(self) -> (r: Scalar)
        ensures
            r == self.spec_abs(),
    {
        if self.raw < 0 {
            self.neg()
        } else {
            self
        }
    }

    pub open spec fn spec_times(self, rhs: Scalar) -> Scalar {
        Scalar { raw: fx_mul(self.raw as int, rhs.raw as int) as i64 }
    }

    /// Saturating product, rounded toward zero.
    #[verifier::when_used_as_spec(spec_times)]
    pub fn times(self, rhs: Scalar) -> (r: Scalar)
        ensures
            r == self.spec_times(rhs),
    {
        let a = self.raw;
        let b = rhs.raw;
        assert(-0x4000_0000_0000_0000_0000_0000_0000_0000 <= a * b
            <= 0x4000_0000_0000_0000_0000_0000_0000_0000) by (nonlinear_arith)
            requires
                -0x8000_0000_0000_0000 <= a <= 0x7fff_ffff_ffff_ffff,
                -0x8000_0000_0000_0000 <= b <= 0x7fff_ffff_ffff_ffff,
        ;
        let wide: i128 = (a as i128) * (b as i128);
        Scalar { raw: Self::saturate(wide / (SCALE as i128)) }
    }

    pub open spec fn spec_div(self, rhs: Scalar) -> Scalar {
        Scalar { raw: fx_div(self.raw as int, rhs.raw as int) as i64 }
    }

    /// Saturating quotient, rounded toward zero. A zero divisor gives the
    /// infinity with the sign of the dividend, or zero for zero over zero.
    #[verifier::when_used_as_spec(spec_div)]
    pub fn div(self, rhs: Scalar) -> (r: Scalar)
        ensures
            r == self.spec_div(rhs),
    {
        if rhs.raw == 0 {
            if self.raw > 0 {
                Scalar { raw: RAW_MAX }
            } else if self.raw < 0 {
                Scalar { raw: -RAW_MAX }
            } else {
                Scalar { raw: 0 }
            }
        } else {
            let negative = (self.raw < 0) != (rhs.raw < 0);
            let num: u128 = Self::magnitude(self.raw) * 4294967296u128;
            let quot: u128 = num / Self::magnitude(rhs.raw);
            let wide: i128 = if negative {
                -(quot as i128)
            } else {
                quot as i128
            };
            Scalar { raw: Self::saturate(wide) }
        }
    }

    pub open spec fn spec_recip(self) -> Scalar {
        Self::spec_one().spec_div(self)
    }

    /// One over `self`.
    #[verifier::when_used_as_spec(spec_recip)]
    pub fn recip(self) -> (r: Scalar)
        ensures
            r == self.spec_recip(),
    {
        Self::one().div(self)
    }

    pub open spec fn spec_sqrt(self) -> Scalar {
        Scalar { raw: fx_sqrt(self.raw as int) as i64 }
    }

    /// Square root, rounded down; zero for a negative number.
    #[verifier::when_used_as_spec(spec_sqrt)]
    pub fn sqrt(self) -> (r: Scalar)
        ensures
            r == self.spec_sqrt(),
            self.raw >= 0 ==> is_floor_sqrt(r.raw as int, self.raw * SCALE),
            self.raw < 0 ==> r.raw == 0,
    {
        if self.raw < 0 {
            Scalar { raw: 0 }
        } else {
            let n: u128 = (self.raw as u128) * 4294967296u128;
            let root = isqrt(n);
            proof {
                lemma_floor_sqrt_is(root as int, n as int);
            }
            Scalar { raw: root as i64 }
        }
    }

    pub open spec fn spec_min(self, rhs: Scalar) -> Scalar {
        if rhs.raw < self.raw {
            rhs
        } else {
            self
        }
    }

    /// The smaller of two numbers.
    #[verifier::when_used_as_spec(spec_min)]
    pub fn min(self, rhs: Scalar) -> (r: Scalar)
        ensures
            r == self.spec_min(rhs),
    {
        if rhs.raw < self.raw {
            rhs
        } else {
            self
        }
    }

    pub open spec fn spec_max(self, rhs: Scalar) -> Scalar {
        if rhs.raw > self.raw {
            rhs
        } else {
            self
        }
    }

    /// The larger of two numbers.
    #[verifier::when_used_as_spec(spec_max)]
    pub fn max(self, rhs: Scalar) -> (r: Scalar)
        ensures
            r == self.spec_max(rhs),
    {
        if rhs.raw > self.raw {
            rhs
        } else {
            self
        }
    }
}

/// Truncating division by a positive number keeps the order.
pub proof fn lemma_tdiv_monotone(a: int, b: int, d: int)
    requires
        a <= b,
        d > 0,
    ensures
        tdiv(a, d) <= tdiv(b, d),
{
    if a >= 0 {
        vstd::arithmetic::div_mod::lemma_div_is_ordered(a, b, d);
    } else if b < 0 {
        vstd::arithmetic::div_mod::lemma_div_is_ordered(-b, -a, d);
    } else {
        vstd::arithmetic::div_mod::lemma_div_pos_is_pos(-a, d);
        vstd::arithmetic::div_mod::lemma_div_pos_is_pos(b, d);
    }
}

/// Subtracting the same number from both sides keeps the order.
pub proof fn lemma_minus_monotone(a: Scalar, b: Scalar, c: Scalar)
    requires
        a.raw <= b.raw,
    ensures
        a.minus(c).raw <= b.minus(c).raw,
{
}

/// Multiplying both sides by a number that is not negative keeps the
/// order; multiplying by one that is not positive reverses it.
pub proof fn lemma_times_monotone(a: Scalar, b: Scalar, k: Scalar)
    requires
        a.raw <= b.raw,
    ensures
        k.raw >= 0 ==> a.times(k).raw <= b.times(k).raw,
        k.raw <= 0 ==> a.times(k).raw >= b.times(k).raw,
{
    let x = a.raw as int;
    let y = b.raw as int;
    let m = k.raw as int;
    if m >= 0 {
        assert(x * m <= y * m) by (nonlinear_arith)
            requires
                x <= y,
                m >= 0,
        ;
        lemma_tdiv_monotone(x * m, y * m, SCALE as int);
    }
    if m <= 0 {
        assert(y * m <= x * m) by (nonlinear_arith)
            requires
                x <= y,
                m <= 0,
        ;
        lemma_tdiv_monotone(y * m, x * m, SCALE as int);
    }
}

/// Dividing both sides by a number that is not negative keeps the order,
/// also when that number is zero; dividing by a negative one reverses
/// it.
pub proof fn lemma_div_monotone(a: Scalar, b: Scalar, k: Scalar)
    requires
        a.raw <= b.raw,
    ensures
        k.raw >= 0 ==> a.div(k).raw <= b.div(k).raw,
        k.raw < 0 ==> a.div(k).raw >= b.div(k).raw,
{
    if k.raw > 0 {
        lemma_tdiv_monotone(a.raw * SCALE, b.raw * SCALE, k.raw as int);
    } else if k.raw < 0 {
        lemma_tdiv_monotone(a.raw * SCALE, b.raw * SCALE, -(k.raw as int));
    }
}

/// A number times itself is not negative.
pub proof fn lemma_square_nonnegative(a: Scalar)
    ensures
        a.times(a).raw >= 0,
{
    let x = a.raw as int;
    assert(x * x >= 0) by (nonlinear_arith);
}

/// A square root is not negative.
pub proof fn lemma_sqrt_nonnegative(a: Scalar)
    ensures
        a.spec_sqrt().raw >= 0,
{
    let n = a.raw * SCALE;
    if n >= 0 {
        lemma_floor_sqrt_exists(n);
        let r = floor_sqrt(n);
        assert(r < 0x1_0000_0000_0000) by (nonlinear_arith)
            requires
                0 <= r,
                r * r <= n,
                n < 0x1_0000_0000_0000_0000_0000_0000,
        ;
    }
}

/// Every number that is not negative has a floor square root.
pub proof fn lemma_floor_sqrt_exists(n: int)
    requires
        n >= 0,
    ensures
        exists|r: int| is_floor_sqrt(r, n),
{
    let r = lemma_floor_sqrt_search(n, 0);
    assert(is_floor_sqrt(r, n));
}

proof fn lemma_floor_sqrt_search(n: int, lo: int) -> (r: int)
    requires
        0 <= lo,
        lo * lo <= n,
    ensures
        is_floor_sqrt(r, n),
    decreases n - lo,
{
    if (lo + 1) * (lo + 1) <= n {
        assert(lo + 1 <= n) by (nonlinear_arith)
            requires
                0 <= lo,
                (lo + 1) * (lo + 1) <= n,
        ;
        lemma_floor_sqrt_search(n, lo + 1)
    } else {
        lo
    }
}

/// A multiple of `d` divided by `d` gives the multiplier back.
pub proof fn lemma_tdiv_exact(a: int, d: int)
    requires
        d > 0,
    ensures
        tdiv(a * d, d) == a,
{
    if a >= 0 {
        assert(a * d >= 0) by (nonlinear_arith)
            requires
                a >= 0,
                d > 0,
        ;
        vstd::arithmetic::div_mod::lemma_div_by_multiple(a, d);
    } else {
        assert(-(a * d) == (-a) * d) by (nonlinear_arith);
        assert((-a) * d > 0) by (nonlinear_arith)
            requires
                a < 0,
                d > 0,
        ;
        vstd::arithmetic::div_mod::lemma_div_by_multiple(-a, d);
    }
}

/// The order of the factors does not change a product.
pub proof fn lemma_times_commutes(a: Scalar, b: Scalar)
    ensures
        a.times(b) == b.times(a),
{
    assert(a.raw * b.raw == b.raw * a.raw) by (nonlinear_arith);
}

/// Multiplying by one, by minus one or by zero is exact: the product is
/// the number itself, its opposite or zero, forced into range.
pub proof fn lemma_times_unit(a: Scalar, unit: Scalar)
    ensures
        unit.raw == SCALE ==> a.times(unit).raw == clamp(a.raw as int),
        unit.raw == -SCALE ==> a.times(unit).raw == clamp(-a.raw),
        unit.raw == 0 ==> a.times(unit).raw == 0,
{
    let one = SCALE as int;
    if unit.raw == SCALE {
        lemma_tdiv_exact(a.raw as int, one);
    } else if unit.raw == -SCALE {
        assert(a.raw * (-one) == (-a.raw) * one) by (nonlinear_arith);
        lemma_tdiv_exact(-a.raw, one);
    } else if unit.raw == 0 {
        assert(a.raw * 0 == 0);
    }
}

} // verus!
