//! Single-precision numbers as bit patterns.
//!
//! The library compares and classifies numbers and carries them into arrays;
//! it does no arithmetic on them. A number is therefore its IEEE 754 bit
//! pattern, and its order is that of sign and magnitude.
use vstd::arithmetic::power2::pow2;
use vstd::prelude::*;

verus! {

/// A single-precision number by its bit pattern.
#[derive(Clone, Copy, Debug, PartialEq, Eq, Structural)]
pub struct F32 {
    pub bits: u32,
}

pub const SIGN: u32 = 0x8000_0000;

pub const INFINITY_BITS: u32 = 0x7f80_0000;

impl F32 {
    pub open spec fn spec_from_bits(bits: u32) -> F32 {
        F32 { bits }
    }

    #[verifier::when_used_as_spec(spec_from_bits)]
    pub fn from_bits(bits: u32) -> (r: F32)
        ensures
            r == F32::spec_from_bits(bits),
    {
        F32 { bits }
    }

    /// Zero.
    pub open spec fn spec_zero() -> F32 {
        F32 { bits: 0 }
    }

    #[verifier::when_used_as_spec(spec_zero)]
    pub fn zero() -> (r: F32)
        ensures
            r == F32::spec_zero(),
    {
        F32 { bits: 0 }
    }

    /// One.
    pub open spec fn spec_one() -> F32 {
        F32 { bits: 0x3f80_0000 }
    }

    #[verifier::when_used_as_spec(spec_one)]
    pub fn one() -> (r: F32)
        ensures
            r == F32::spec_one(),
    {
        F32 { bits: 0x3f80_0000 }
    }

    /// The bits below the sign.
    pub open spec fn magnitude(self) -> int {
        if self.bits >= SIGN {
            self.bits - SIGN
        } else {
            self.bits as int
        }
    }

    /// Whether this is no number.
    pub open spec fn spec_is_nan(self) -> bool {
        self.magnitude() > INFINITY_BITS
    }

    /// Whether this is a number other than the two infinities.
    pub open spec fn spec_is_finite(self) -> bool {
        self.magnitude() < INFINITY_BITS
    }

    /// The position of this number among all numbers; the two zeros share one.
    pub open spec fn rank(self) -> int {
        if self.bits >= SIGN {
            -self.magnitude()
        } else {
            self.magnitude()
        }
    }

    /// `self < other`; false where either is no number.
    pub open spec fn spec_lt(self, other: F32) -> bool {
        !self.spec_is_nan() && !other.spec_is_nan() && self.rank() < other.rank()
    }

    #[verifier::when_used_as_spec(spec_is_nan)]
    pub fn is_nan(self) -> (r: bool)
        ensures
            r == self.spec_is_nan(),
    {
        if self.bits >= SIGN {
            self.bits - SIGN > INFINITY_BITS
        } else {
            self.bits > INFINITY_BITS
        }
    }

    #[verifier::when_used_as_spec(spec_is_finite)]
    pub fn is_finite(self) -> (r: bool)
        ensures
            r == self.spec_is_finite(),
    {
        if self.bits >= SIGN {
            self.bits - SIGN < INFINITY_BITS
        } else {
            self.bits < INFINITY_BITS
        }
    }

    /// `self < other`; false where either is no number.
    #[verifier::when_used_as_spec(spec_lt)]
    pub fn lt(self, other: F32) -> (r: bool)
        ensures
            r == self.spec_lt(other),
    {
        if self.is_nan() || other.is_nan() {
            return false;
        }
        if self.bits >= SIGN {
            if other.bits >= SIGN {
                self.bits > other.bits
            } else {
                self.bits > SIGN || other.bits > 0
            }
        } else if other.bits >= SIGN {
            false
        } else {
            self.bits < other.bits
        }
    }

    /// Whether this is greater than zero.
    pub open spec fn spec_is_positive(self) -> bool {
        F32::spec_zero().spec_lt(self)
    }

    #[verifier::when_used_as_spec(spec_is_positive)]
    pub fn is_positive(self) -> (r: bool)
        ensures
            r == self.spec_is_positive(),
    {
        F32::zero().lt(self)
    }

    /// Whether this equals zero.
    pub open spec fn spec_is_zero(self) -> bool {
        self.rank() == 0
    }

    #[verifier::when_used_as_spec(spec_is_zero)]
    pub fn is_zero(self) -> (r: bool)
        ensures
            r == self.spec_is_zero(),
    {
        self.bits == 0 || self.bits == SIGN
    }

    /// The number kept between zero and one; zero for what is no number.
    pub open spec fn spec_clamp_unit(self) -> F32 {
        if self.is_nan() || self.spec_lt(F32::spec_zero()) {
            F32::spec_zero()
        } else if F32::spec_one().spec_lt(self) {
            F32::spec_one()
        } else {
            self
        }
    }

    #[verifier::when_used_as_spec(spec_clamp_unit)]
    pub fn clamp_unit(self) -> (r: F32)
        ensures
            r == self.spec_clamp_unit(),
    {
        if self.is_nan() || self.lt(F32::zero()) {
            F32::zero()
        } else if F32::one().lt(self) {
            F32::one()
        } else {
            self
        }
    }
}

/// Clamping to the unit interval gives a number between zero and one, leaves
/// each of them as it is, and changes nothing the second time.
pub proof fn clamp_unit_is_idempotent(x: F32)
    ensures
        !x.clamp_unit().is_nan(),
        !x.is_nan() && 0 <= x.rank() <= F32::one().rank() ==> x.clamp_unit() == x,
        0 <= x.clamp_unit().rank() <= F32::one().rank(),
        x.clamp_unit().clamp_unit() == x.clamp_unit(),
{
}

/// `x / d` rounded to the nearest integer, a tie to the even one.
pub open spec fn round_half_even(x: int, d: int) -> int {
    let q = x / d;
    let r = x % d;
    if 2 * r > d || (2 * r == d && q % 2 == 1) {
        q + 1
    } else {
        q
    }
}

/// The exponent of the highest bit of `x`.
pub open spec fn floor_log2(x: nat) -> nat
    decreases x,
{
    if x <= 1 {
        0
    } else {
        1 + floor_log2(x / 2)
    }
}

/// The bit pattern of the single-precision number nearest to `x`, a tie going
/// to the even significand: 24 significant bits under a biased exponent. A
/// significand that rounds up to `2^24` carries into the exponent.
pub open spec fn nearest_bits(x: nat) -> int {
    if x == 0 {
        0
    } else {
        let k = floor_log2(x);
        let significand = if k <= 23 {
            (x * pow2((23 - k) as nat)) as int
        } else {
            round_half_even(x as int, pow2((k - 23) as nat) as int)
        };
        (k + 126) * 0x80_0000 + significand
    }
}

pub(crate) proof fn lemma_floor_log2(x: nat)
    requires
        x >= 1,
    ensures
        pow2(floor_log2(x)) <= x < pow2(floor_log2(x) + 1),
    decreases x,
{
    vstd::arithmetic::power2::lemma2_to64();
    if x > 1 {
        lemma_floor_log2(x / 2);
        vstd::arithmetic::power2::lemma_pow2_unfold(floor_log2(x));
        vstd::arithmetic::power2::lemma_pow2_unfold(floor_log2(x) + 1);
    }
}

proof fn lemma_floor_log2_is(x: nat, k: nat)
    requires
        pow2(k) <= x < pow2(k + 1),
    ensures
        floor_log2(x) == k,
{
    vstd::arithmetic::power2::lemma_pow2_pos(k);
    lemma_floor_log2(x);
    let f = floor_log2(x);
    if f < k {
        if f + 1 < k {
            vstd::arithmetic::power2::lemma_pow2_strictly_increases(f + 1, k);
        }
    } else if f > k {
        if k + 1 < f {
            vstd::arithmetic::power2::lemma_pow2_strictly_increases(k + 1, f);
        }
    }
}

impl F32 {
    /// The number nearest to `x`, a tie going to the even significand.
    pub fn from_u32(x: u32) -> (r: F32)
        ensures
            r.bits == nearest_bits(x as nat),
    {
        if x == 0 {
            return F32 { bits: 0 };
        }
        proof {
            vstd::arithmetic::power2::lemma2_to64();
        }
        let mut k: u32 = 0;
        let mut p: u64 = 1;
        while 2 * p <= x as u64
            invariant
                p == pow2(k as nat),
                1 <= p <= x,
                k <= 31,
            decreases x - p,
        {
            proof {
                vstd::arithmetic::power2::lemma_pow2_unfold((k + 1) as nat);
                if k == 31 {
                    vstd::arithmetic::power2::lemma2_to64();
                }
            }
            p = 2 * p;
            k = k + 1;
        }
        proof {
            vstd::arithmetic::power2::lemma2_to64();
            vstd::arithmetic::power2::lemma_pow2_unfold((k + 1) as nat);
            lemma_floor_log2_is(x as nat, k as nat);
        }
        let significand: u64 = if k <= 23 {
            let up: u64 = 0x80_0000 / p;
            proof {
                vstd::arithmetic::power2::lemma_pow2_adds(k as nat, (23 - k) as nat);
                let g = pow2((23 - k) as nat);
                vstd::arithmetic::power2::lemma_pow2_pos((23 - k) as nat);
                assert(0x80_0000int / (p as int) == g) by (nonlinear_arith)
                    requires
                        0x80_0000 == p * g,
                        p >= 1,
                ;
                assert(x * up < 0x100_0000) by (nonlinear_arith)
                    requires
                        x < 2 * p,
                        p * up == 0x80_0000,
                        up >= 0,
                ;
            }
            x as u64 * up
        } else {
            let d: u64 = p / 0x80_0000;
            proof {
                vstd::arithmetic::power2::lemma_pow2_adds(23, (k - 23) as nat);
                vstd::arithmetic::power2::lemma_pow2_pos((k - 23) as nat);
                let g = pow2((k - 23) as nat);
                assert(p / 0x80_0000 == g) by (nonlinear_arith)
                    requires
                        p == 0x80_0000 * g,
                ;
            }
            let q: u64 = x as u64 / d;
            let rest: u64 = x as u64 % d;
            proof {
                assert(q <= 0xff_ffff) by (nonlinear_arith)
                    requires
                        x < 2 * p,
                        p == 0x80_0000 * d,
                        d >= 1,
                        q == x as int / d as int,
                ;
            }
            if 2 * rest > d || (2 * rest == d && q % 2 == 1) {
                q + 1
            } else {
                q
            }
        };
        let bits: u64 = (k as u64 + 126) * 0x80_0000 + significand;
        F32 { bits: bits as u32 }
    }
}

/// A number below zero is kept at zero and one above one at one.
pub proof fn clamping_keeps_to_the_ends(x: F32)
    ensures
        x.is_nan() || x.rank() < 0 ==> x.clamp_unit() == F32::zero(),
        !x.is_nan() && x.rank() > F32::one().rank() ==> x.clamp_unit() == F32::one(),
{
}

/// Rounding goes to the nearest whole number, and from the middle between two
/// to the even one.
pub proof fn rounding_goes_to_the_nearest(x: int, d: int)
    requires
        d >= 1,
    ensures
        ({
            let r = round_half_even(x, d);
            &&& -d <= 2 * (r * d - x) <= d
            &&& 2 * (r * d - x) == d || 2 * (r * d - x) == -d ==> r % 2 == 0
        }),
{
    let (q, r) = (x / d, x % d);
    vstd::arithmetic::div_mod::lemma_fundamental_div_mod(x, d);
    assert((q + 1) * d == q * d + d) by (nonlinear_arith);
    assert(d * q == q * d) by (nonlinear_arith);
}

} // verus!
