//! Double-precision values as bit patterns, read exactly.
//!
//! A pattern has a sign bit, eleven exponent bits and fifty-two fraction bits.
//! Every finite value is a whole multiple of 2^-1074, so a value is modelled by
//! that multiple, an integer: see [`Binary64::scaled`].
use vstd::arithmetic::div_mod::*;
use vstd::arithmetic::mul::*;
use vstd::arithmetic::power2::*;
use vstd::bits::*;
use vstd::prelude::*;

verus! {

/// The sign bit of a pattern, and the number of patterns of one sign.
pub const SIGN_BIT: u64 = 0x8000_0000_0000_0000;

/// Two to the fifty-second: the number of fractions in one binade.
pub const FRACTION_SPAN: u64 = 0x10_0000_0000_0000;

/// Two to the eleventh: the number of exponent fields.
pub const EXPONENT_SPAN: u64 = 0x800;

/// The exponent field of the value one.
pub const EXPONENT_OF_ONE: u64 = 1023;

/// The exponent field shared by the infinities and the values that are not numbers.
pub const EXPONENT_SPECIAL: u64 = 2047;

/// The bit pattern of the value one.
pub const ONE: u64 = 0x3FF0_0000_0000_0000;

/// The bit pattern of the value minus one.
pub const MINUS_ONE: u64 = 0xBFF0_0000_0000_0000;

/// The value one in units of 2^-1074.
pub open spec fn unit() -> nat {
    pow2(1074)
}

/// A double-precision value, held as the sixty-four bits that encode it.
#[derive(Clone, Copy, Debug)]
pub struct Binary64 {
    pub bits: u64,
}

impl Binary64 {
    /// The sign bit is set.
    pub open spec fn negative(self) -> bool {
        self.bits >= SIGN_BIT
    }

    /// The exponent field, from 0 to 2047.
    pub open spec fn exponent(self) -> nat {
        ((self.bits / FRACTION_SPAN) % EXPONENT_SPAN) as nat
    }

    /// The fraction field, below two to the fifty-second.
    pub open spec fn fraction(self) -> nat {
        (self.bits % FRACTION_SPAN) as nat
    }

    /// The pattern is not a number: it compares with nothing, itself included.
    pub open spec fn nan(self) -> bool {
        self.exponent() == EXPONENT_SPECIAL && self.fraction() != 0
    }

    /// The pattern without its sign bit. Among patterns that are numbers it grows
    /// with the absolute value.
    pub open spec fn rank(self) -> nat {
        (self.bits % SIGN_BIT) as nat
    }

    /// The absolute value in units of 2^-1074. An infinity comes out as 2^2098,
    /// the first power of two beyond the finite values, so that the order of
    /// the values is the order of these integers.
    pub open spec fn magnitude(self) -> nat {
        if self.exponent() == 0 {
            self.fraction()
        } else {
            (FRACTION_SPAN as nat + self.fraction()) * pow2((self.exponent() - 1) as nat)
        }
    }

    /// The value in units of 2^-1074, for a pattern that is a number.
    pub open spec fn scaled(self) -> int {
        if self.negative() {
            -(self.magnitude() as int)
        } else {
            self.magnitude() as int
        }
    }

    /// `self < other` as values: both are numbers and the first is the smaller.
    pub open spec fn below(self, other: Binary64) -> bool {
        !self.nan() && !other.nan() && self.scaled() < other.scaled()
    }

    /// `self <= other` as values: both are numbers and the first is not the greater.
    pub open spec fn at_most(self, other: Binary64) -> bool {
        !self.nan() && !other.nan() && self.scaled() <= other.scaled()
    }

    /// The value is exactly the whole number `n`.
    pub open spec fn holds(self, n: int) -> bool {
        !self.nan() && self.scaled() == n * unit()
    }

    /// The value lies strictly between zero and the whole number `limit`.
    pub open spec fn within(self, limit: nat) -> bool {
        !self.nan() && 0 < self.scaled() < limit * unit()
    }

    /// The whole part of the absolute value.
    pub open spec fn whole(self) -> nat {
        self.magnitude() / unit()
    }

    /// The value with the given bit pattern.
    pub fn from_bits(bits: u64) -> (value: Binary64)
        ensures
            value.bits == bits,
    {
        Binary64 { bits }
    }

    /// The bit pattern of the value.
    pub fn to_bits(self) -> (bits: u64)
        ensures
            bits == self.bits,
    {
        self.bits
    }

    /// The exponent field.
    pub fn exponent_field(self) -> (e: u64)
        ensures
            e == self.exponent(),
            e <= EXPONENT_SPECIAL,
    {
        (self.bits / FRACTION_SPAN) % EXPONENT_SPAN
    }

    /// The fraction field.
    pub fn fraction_field(self) -> (f: u64)
        ensures
            f == self.fraction(),
            f < FRACTION_SPAN,
    {
        self.bits % FRACTION_SPAN
    }

    /// Whether the sign bit is set.
    pub fn is_sign_negative(self) -> (b: bool)
        ensures
            b == self.negative(),
    {
        self.bits >= SIGN_BIT
    }

    /// Whether the pattern is not a number.
    pub fn is_nan(self) -> (b: bool)
        ensures
            b == self.nan(),
    {
        self.exponent_field() == EXPONENT_SPECIAL && self.fraction_field() != 0
    }

    /// The rank splits into the two fields.
    pub proof fn lemma_rank_fields(self)
        ensures
            self.rank() == self.exponent() * FRACTION_SPAN + self.fraction(),
            self.exponent() <= EXPONENT_SPECIAL,
            self.fraction() < FRACTION_SPAN,
    {
    }

    /// A greater rank encodes a greater absolute value.
    pub proof fn lemma_magnitude_increases(self, other: Binary64)
        requires
            self.rank() < other.rank(),
        ensures
            self.magnitude() < other.magnitude(),
    {
        self.lemma_rank_fields();
        other.lemma_rank_fields();
        let ea = self.exponent();
        let eb = other.exponent();
        let fa = self.fraction();
        let fb = other.fraction();
        let span = FRACTION_SPAN as nat;
        if ea == eb {
            if ea != 0 {
                let p = pow2((ea - 1) as nat);
                lemma_pow2_pos((ea - 1) as nat);
                lemma_mul_strict_inequality((span + fa) as int, (span + fb) as int, p as int);
            }
        } else {
            assert(ea < eb);
            // The first value stays under span * 2^ea, which the second reaches.
            assert(self.magnitude() < span * pow2(ea)) by {
                if ea == 0 {
                    lemma2_to64();
                } else {
                    let p = pow2((ea - 1) as nat);
                    lemma_pow2_pos((ea - 1) as nat);
                    lemma_pow2_unfold(ea);
                    lemma_mul_strict_inequality((span + fa) as int, (2 * span) as int, p as int);
                    assert((2 * span) * p == span * (2 * p)) by (nonlinear_arith);
                }
            }
            let q = pow2((eb - 1) as nat);
            assert(pow2(ea) <= q) by {
                if ea < eb - 1 {
                    lemma_pow2_strictly_increases(ea, (eb - 1) as nat);
                }
            }
            assert(span * pow2(ea) <= span * q) by (nonlinear_arith)
                requires
                    pow2(ea) <= q,
            ;
            assert(span * q <= (span + fb) * q) by (nonlinear_arith)
                requires
                    0 <= q,
                    0 <= fb,
            ;
        }
    }

    /// The order of the ranks is the order of the absolute values.
    pub proof fn lemma_magnitude_order(self, other: Binary64)
        ensures
            self.rank() < other.rank() <==> self.magnitude() < other.magnitude(),
            self.rank() == other.rank() <==> self.magnitude() == other.magnitude(),
    {
        self.lemma_rank_fields();
        other.lemma_rank_fields();
        if self.rank() < other.rank() {
            self.lemma_magnitude_increases(other);
        } else if other.rank() < self.rank() {
            other.lemma_magnitude_increases(self);
        } else {
            assert(self.exponent() == other.exponent());
            assert(self.fraction() == other.fraction());
        }
    }

    /// Only the two zeros have no magnitude.
    pub proof fn lemma_zero_magnitude(self)
        ensures
            self.magnitude() == 0 <==> self.rank() == 0,
    {
        let zero = Binary64 { bits: 0 };
        assert(zero.magnitude() == 0);
        zero.lemma_magnitude_order(self);
    }

    /// Whether `self < other` as values. False when either is not a number.
    pub fn lt(self, other: Binary64) -> (r: bool)
        ensures
            r == self.below(other),
    {
        if self.is_nan() || other.is_nan() {
            return false;
        }
        let a: u64 = self.bits % SIGN_BIT;
        let b: u64 = other.bits % SIGN_BIT;
        proof {
            self.lemma_magnitude_order(other);
            self.lemma_zero_magnitude();
            other.lemma_zero_magnitude();
        }
        if self.bits >= SIGN_BIT {
            if other.bits >= SIGN_BIT {
                b < a
            } else {
                a != 0 || b != 0
            }
        } else {
            if other.bits >= SIGN_BIT {
                false
            } else {
                a < b
            }
        }
    }

    /// Whether `self <= other` as values. False when either is not a number.
    pub fn le(self, other: Binary64) -> (r: bool)
        ensures
            r == self.at_most(other),
    {
        if self.is_nan() || other.is_nan() {
            return false;
        }
        let a: u64 = self.bits % SIGN_BIT;
        let b: u64 = other.bits % SIGN_BIT;
        proof {
            self.lemma_magnitude_order(other);
            self.lemma_zero_magnitude();
            other.lemma_zero_magnitude();
        }
        if self.bits >= SIGN_BIT {
            if other.bits >= SIGN_BIT {
                b <= a
            } else {
                true
            }
        } else {
            if other.bits >= SIGN_BIT {
                a == 0 && b == 0
            } else {
                a <= b
            }
        }
    }

    /// A pattern whose exponent field is under that of one is under one.
    pub proof fn lemma_below_one(self)
        requires
            self.exponent() < EXPONENT_OF_ONE,
        ensures
            self.magnitude() < unit(),
    {
        let e = self.exponent();
        let f = self.fraction();
        let span = FRACTION_SPAN as nat;
        lemma2_to64_rest();
        if e == 0 {
            lemma_pow2_strictly_increases(52, 1074);
        } else {
            let p = pow2((e - 1) as nat);
            lemma_pow2_pos((e - 1) as nat);
            lemma_mul_strict_inequality((span + f) as int, (2 * span) as int, p as int);
            lemma_pow2_adds(53, (e - 1) as nat);
            if 52 + e < 1074 {
                lemma_pow2_strictly_increases(52 + e, 1074);
            }
        }
    }

    /// A pattern whose exponent field is `k` over that of one has a magnitude of
    /// its significand times 2^(1022 + k), which is at least 2^k units of one.
    pub proof fn lemma_from_one_up(self, k: nat)
        requires
            self.exponent() == EXPONENT_OF_ONE + k,
        ensures
            self.magnitude() == (FRACTION_SPAN + self.fraction()) * pow2(1022 + k),
            self.magnitude() >= pow2(k) * unit(),
    {
        let f = self.fraction();
        let span = FRACTION_SPAN as nat;
        let p = pow2(1022 + k);
        lemma2_to64_rest();
        lemma_pow2_adds(52, 1022 + k);
        lemma_pow2_adds(k, 1074);
        assert(span * p <= (span + f) * p) by (nonlinear_arith)
            requires
                0 <= p,
                0 <= f,
        ;
    }

    /// Whether the value is zero, of either sign.
    pub fn is_zero(self) -> (b: bool)
        ensures
            b == self.holds(0),
    {
        proof {
            self.lemma_zero_magnitude();
            self.lemma_rank_fields();
        }
        self.bits % SIGN_BIT == 0
    }

    /// Whether the value is one.
    pub fn is_one(self) -> (b: bool)
        ensures
            b == self.holds(1),
    {
        proof {
            let one = Binary64 { bits: ONE };
            lemma_unit_patterns();
            lemma_pow2_pos(1074);
            self.lemma_magnitude_order(one);
            self.lemma_rank_fields();
            one.lemma_rank_fields();
        }
        self.bits == ONE
    }

    /// The whole part of the value, where the value lies strictly between zero
    /// and `limit`; `None` for every other pattern.
    pub fn whole_part_within(self, limit: usize) -> (r: Option<usize>)
        ensures
            r is Some <==> self.within(limit as nat),
            r matches Some(w) ==> w == self.whole() && w < limit,
    {
        if self.bits >= SIGN_BIT || self.bits == 0 {
            proof {
                self.lemma_zero_magnitude();
            }
            return None;
        }
        let e = self.exponent_field();
        let f = self.fraction_field();
        proof {
            self.lemma_zero_magnitude();
            lemma_pow2_pos(1074);
        }
        if e < EXPONENT_OF_ONE {
            proof {
                self.lemma_below_one();
                lemma_basic_div(self.magnitude() as int, unit() as int);
                lemma_below_multiple(self.magnitude() as int, unit() as int, limit as int);
            }
            return if limit > 0 {
                Some(0)
            } else {
                None
            };
        }
        let k: u64 = e - EXPONENT_OF_ONE;
        if k >= 64 {
            proof {
                // The value is 2^64 or more, or not a number at all.
                self.lemma_from_one_up(k as nat);
                lemma2_to64();
                if 64 < k {
                    lemma_pow2_strictly_increases(64, k as nat);
                }
                let u = unit();
                let top = pow2(k as nat);
                assert(limit * u < top * u) by (nonlinear_arith)
                    requires
                        limit < top,
                        0 < u,
                ;
            }
            return None;
        }
        let m: u64 = FRACTION_SPAN + f;
        let whole: u128 = if k <= 52 {
            let shift: u64 = 52 - k;
            proof {
                self.lemma_from_one_up(k as nat);
                let p = pow2((1022 + k) as nat);
                lemma_pow2_pos((1022 + k) as nat);
                lemma_pow2_pos(shift as nat);
                lemma_pow2_adds((1022 + k) as nat, shift as nat);
                lemma_div_multiples_vanish_quotient(p as int, m as int, pow2(shift as nat) as int);
                lemma_mul_is_commutative(p as int, m as int);
                lemma_u64_shr_is_div(m, shift);
            }
            (m >> shift) as u128
        } else {
            let shift: u64 = k - 52;
            proof {
                self.lemma_from_one_up(k as nat);
                let q = pow2(shift as nat);
                lemma_pow2_pos(shift as nat);
                lemma_pow2_adds(shift as nat, 1074);
                lemma2_to64();
                lemma_pow2_strictly_increases(shift as nat, 12);
                assert(m * q < 0x20_0000_0000_0000 * 0x1000) by (nonlinear_arith)
                    requires
                        m < 0x20_0000_0000_0000,
                        0 < q < 0x1000,
                ;
                lemma_u64_shl_is_mul(1, shift);
                assert(m * (q * unit()) == (m * q) * unit()) by (nonlinear_arith);
                lemma_div_by_multiple((m * q) as int, unit() as int);
            }
            (m as u128) * ((1u64 << shift) as u128)
        };
        proof {
            lemma_below_multiple(self.magnitude() as int, unit() as int, limit as int);
        }
        if whole < limit as u128 {
            Some(whole as usize)
        } else {
            None
        }
    }
}

/// The patterns [`ONE`] and [`MINUS_ONE`] are the values one and minus one.
pub proof fn lemma_unit_patterns()
    ensures
        (Binary64 { bits: ONE }).holds(1),
        (Binary64 { bits: MINUS_ONE }).holds(-1),
{
    let one = Binary64 { bits: ONE };
    let minus_one = Binary64 { bits: MINUS_ONE };
    assert(one.exponent() == EXPONENT_OF_ONE && one.fraction() == 0);
    assert(minus_one.exponent() == EXPONENT_OF_ONE && minus_one.fraction() == 0);
    one.lemma_from_one_up(0);
    minus_one.lemma_from_one_up(0);
    lemma2_to64_rest();
    lemma_pow2_adds(52, 1022);
}

/// A value is under `limit` units exactly when its whole number of units is.
pub proof fn lemma_below_multiple(a: int, u: int, limit: int)
    requires
        0 <= a,
        0 < u,
        0 <= limit,
    ensures
        a < limit * u <==> a / u < limit,
{
    lemma_fundamental_div_mod(a, u);
    lemma_mod_pos_bound(a, u);
    let q = a / u;
    if q < limit {
        assert(u * q + u <= limit * u) by (nonlinear_arith)
            requires
                q + 1 <= limit,
                0 < u,
        ;
    } else {
        assert(limit * u <= u * q) by (nonlinear_arith)
            requires
                limit <= q,
                0 < u,
        ;
    }
}

} // verus!
