//! The numeric payload of a representation node: an IEEE-754 binary64 value,
//! held by its bit pattern, and its conversions from and to the integer
//! types.

use vstd::arithmetic::div_mod::{
    lemma_fundamental_div_mod, lemma_fundamental_div_mod_converse,
};
use vstd::arithmetic::power2::{
    lemma2_to64, lemma2_to64_rest, lemma_pow2_adds, lemma_pow2_pos, lemma_pow2_strictly_increases,
    lemma_pow2_unfold, pow2,
};
use vstd::prelude::*;

verus! {

/// A binary64 number, identified by its 64 bits: one sign bit, eleven bits of
/// biased exponent, fifty-two bits of fraction.
#[derive(Clone, Copy, Debug, PartialEq, Eq, Structural)]
pub struct Number {
    pub bits: u64,
}

impl DeepView for Number {
    type V = Number;

    open spec fn deep_view(&self) -> Number {
        *self
    }
}

/// Two to the power of 52: the weight of the hidden bit of the significand.
pub const HIDDEN_BIT: u64 = 0x10_0000_0000_0000;

/// Two to the power of 63: the sign bit.
pub const SIGN_BIT: u64 = 0x8000_0000_0000_0000;

/// The position of the leading one of `m`, counted from zero; zero for zero.
pub open spec fn floor_log2(m: nat) -> nat
    decreases m,
{
    if m <= 1 {
        0
    } else {
        1 + floor_log2(m / 2)
    }
}

/// The 53-bit significand of the binary64 number nearest to the positive
/// integer `m`: `m` scaled so that its leading one lands on the hidden bit,
/// rounded to the nearest integer, ties going to the even one.
pub open spec fn rounded_significand(m: nat) -> nat {
    let e = floor_log2(m);
    if e <= 52 {
        m * pow2((52 - e) as nat)
    } else {
        let d = pow2((e - 52) as nat);
        let q = m / d;
        let r = m % d;
        if 2 * r > d || (2 * r == d && q % 2 == 1) {
            q + 1
        } else {
            q
        }
    }
}

/// The bits, sign left out, of the binary64 number nearest to the natural
/// number `m`.
pub open spec fn magnitude_bits(m: nat) -> nat {
    if m == 0 {
        0
    } else {
        ((floor_log2(m) + 1022) * pow2(52) + rounded_significand(m)) as nat
    }
}

/// The binary64 number nearest to the integer `i`, ties going to the even
/// significand.
pub open spec fn number_of(i: int) -> Number
    recommends
        -0x1_0000_0000_0000_0000 < i < 0x1_0000_0000_0000_0000,
{
    if i < 0 {
        Number { bits: (SIGN_BIT + magnitude_bits((-i) as nat)) as u64 }
    } else {
        Number { bits: magnitude_bits(i as nat) as u64 }
    }
}

/// The least of `hi` and the greatest of `lo` and `v`.
pub open spec fn clamp(v: int, lo: int, hi: int) -> int {
    if v < lo {
        lo
    } else if v > hi {
        hi
    } else {
        v
    }
}

impl Number {
    /// The number with the given bit pattern.
    pub fn from_bits(bits: u64) -> (n: Number)
        ensures
            n.bits == bits,
    {
        Number { bits }
    }

    /// The bit pattern of the number.
    pub fn to_bits(&self) -> (bits: u64)
        ensures
            bits == self.bits,
    {
        self.bits
    }

    /// The biased exponent.
    pub open spec fn exponent(self) -> nat {
        (self.bits as nat / pow2(52)) % 2048
    }

    /// The fraction: the significand without its hidden bit.
    pub open spec fn fraction(self) -> nat {
        self.bits as nat % pow2(52)
    }

    /// Whether the sign bit is set.
    pub open spec fn is_negative(self) -> bool {
        self.bits >= SIGN_BIT
    }

    /// Whether the number is not a number.
    pub open spec fn is_nan(self) -> bool {
        self.exponent() == 2047 && self.fraction() != 0
    }

    /// The number rounded toward zero to an integer; zero for what is not a
    /// number. An infinity counts as two to the power of 1024, with its
    /// sign.
    pub open spec fn integer_part(self) -> int {
        if self.is_nan() || self.exponent() < 1023 {
            0
        } else {
            let e = (self.exponent() - 1023) as nat;
            let significand = pow2(52) + self.fraction();
            let magnitude = if e <= 52 {
                significand / pow2((52 - e) as nat)
            } else {
                significand * pow2((e - 52) as nat)
            };
            if self.is_negative() {
                -(magnitude as int)
            } else {
                magnitude as int
            }
        }
    }

    /// The integer part of the number, held to the range from `lo` to `hi`.
    pub open spec fn saturated(self, lo: int, hi: int) -> int {
        clamp(self.integer_part(), lo, hi)
    }

    /// The number nearest to `m`.
    pub fn from_u64(m: u64) -> (n: Number)
        ensures
            n == number_of(m as int),
    {
        Number { bits: magnitude(m) }
    }

    /// The number nearest to `i`.
    pub fn from_i64(i: i64) -> (n: Number)
        ensures
            n == number_of(i as int),
    {
        if i < 0 {
            let m: u64 = if i == i64::MIN {
                SIGN_BIT
            } else {
                (-i) as u64
            };
            let bits = magnitude(m);
            proof {
                lemma_magnitude_bits_bound(m as nat);
            }
            Number { bits: SIGN_BIT + bits }
        } else {
            Number { bits: magnitude(i as u64) }
        }
    }

    /// The integer part of the number, held to the range from `lo` to `hi`.
    #[verifier::spinoff_prover]
    pub(crate) fn to_int_saturating(&self, lo: i128, hi: i128) -> (v: i128)
        requires
            -0x1_0000_0000_0000_0000 <= lo <= 0,
            0 <= hi <= 0x1_0000_0000_0000_0000,
        ensures
            v == self.saturated(lo as int, hi as int),
    {
        proof {
            lemma2_to64();
            lemma2_to64_rest();
        }
        let high: u64 = self.bits / HIDDEN_BIT;
        let exponent: u64 = high % 2048;
        let fraction: u64 = self.bits % HIDDEN_BIT;
        let negative = self.bits >= SIGN_BIT;
        assert(self.exponent() == exponent);
        assert(self.fraction() == fraction);
        assert(self.is_negative() == negative);
        if exponent == 2047 && fraction != 0 {
            return 0;
        }
        if exponent < 1023 {
            return 0;
        }
        let e: u64 = exponent - 1023;
        let significand: u64 = HIDDEN_BIT + fraction;
        let ghost part = self.integer_part();
        if e >= 64 {
            proof {
                let p = pow2((e - 52) as nat) as int;
                lemma_pow2_at_least((e - 52) as nat, 12);
                assert(p >= 0x1000);
                assert(significand * p >= 0x1_0000_0000_0000_0000) by (nonlinear_arith)
                    requires
                        significand >= 0x10_0000_0000_0000,
                        p >= 0x1000,
                ;
                assert(part == if negative {
                    -(significand * p)
                } else {
                    significand * p
                });
            }
            return if negative {
                lo
            } else {
                hi
            };
        }
        let magnitude: u64 = if e <= 52 {
            let d = power_of_two((52 - e) as u32);
            proof {
                lemma_pow2_pos((52 - e) as nat);
            }
            assert(part == if negative {
                -((significand / d) as int)
            } else {
                (significand / d) as int
            });
            significand / d
        } else {
            let d = power_of_two((e - 52) as u32);
            proof {
                lemma_pow2_at_most((e - 52) as nat, 11);
                assert(d <= 0x800);
                assert(significand * d < 0x1_0000_0000_0000_0000) by (nonlinear_arith)
                    requires
                        significand < 0x20_0000_0000_0000,
                        d <= 0x800,
                ;
                assert(part == if negative {
                    -(significand * d)
                } else {
                    significand * d
                });
            }
            significand * d
        };
        let signed: i128 = if negative {
            -(magnitude as i128)
        } else {
            magnitude as i128
        };
        assert(signed == part);
        if signed < lo {
            lo
        } else if signed > hi {
            hi
        } else {
            signed
        }
    }
}

/// Two to the power of `k`.
pub(crate) fn power_of_two(k: u32) -> (p: u64)
    requires
        k < 64,
    ensures
        p == pow2(k as nat),
{
    proof {
        lemma2_to64();
    }
    let mut p: u64 = 1;
    let mut i: u32 = 0;
    while i < k
        invariant
            i <= k < 64,
            p == pow2(i as nat),
        decreases k - i,
    {
        proof {
            lemma_pow2_unfold((i + 1) as nat);
            lemma_pow2_at_most((i + 1) as nat, 63);
            lemma2_to64_rest();
        }
        p = p * 2;
        i = i + 1;
    }
    p
}

/// A power of two with an exponent of at most `top` is at most two to the
/// power of `top`.
pub proof fn lemma_pow2_at_most(e: nat, top: nat)
    requires
        e <= top,
    ensures
        pow2(e) <= pow2(top),
{
    if e < top {
        lemma_pow2_strictly_increases(e, top);
    }
}

/// A power of two with an exponent of at least `bottom` is at least two to
/// the power of `bottom`.
pub proof fn lemma_pow2_at_least(e: nat, bottom: nat)
    requires
        bottom <= e,
    ensures
        pow2(bottom) <= pow2(e),
{
    if bottom < e {
        lemma_pow2_strictly_increases(bottom, e);
    }
}

/// A positive integer lies between the power of two of its leading one and
/// the next power of two.
pub proof fn lemma_floor_log2_bounds(m: nat)
    requires
        m > 0,
    ensures
        pow2(floor_log2(m)) <= m < 2 * pow2(floor_log2(m)),
    decreases m,
{
    lemma2_to64();
    if m > 1 {
        lemma_floor_log2_bounds(m / 2);
        lemma_pow2_unfold(floor_log2(m));
    }
}

/// An integer between a power of two and the next has its leading one at
/// that power.
pub proof fn lemma_floor_log2_unique(m: nat, e: nat)
    requires
        pow2(e) <= m < 2 * pow2(e),
    ensures
        floor_log2(m) == e,
{
    lemma_pow2_pos(e);
    lemma_floor_log2_bounds(m);
    let f = floor_log2(m);
    if f < e {
        lemma_pow2_unfold((f + 1) as nat);
        lemma_pow2_at_most((f + 1) as nat, e);
    } else if e < f {
        lemma_pow2_unfold((e + 1) as nat);
        lemma_pow2_at_most((e + 1) as nat, f);
    }
}

/// The significand of a positive integer has 53 bits, or is two to the
/// power of 53 where rounding carried.
#[verifier::spinoff_prover]
pub proof fn lemma_rounded_significand_bounds(m: nat)
    requires
        m > 0,
    ensures
        pow2(52) <= rounded_significand(m) <= 2 * pow2(52),
{
    let e = floor_log2(m);
    lemma_floor_log2_bounds(m);
    if e <= 52 {
        let s = pow2((52 - e) as nat);
        lemma_pow2_adds(e, (52 - e) as nat);
        lemma_pow2_pos((52 - e) as nat);
        assert(pow2(e) * s <= m * s < 2 * pow2(e) * s) by (nonlinear_arith)
            requires
                pow2(e) <= m < 2 * pow2(e),
                s > 0,
        ;
        assert(2 * pow2(e) * s == 2 * (pow2(e) * s)) by (nonlinear_arith);
    } else {
        let d = pow2((e - 52) as nat);
        lemma_pow2_adds(52, (e - 52) as nat);
        lemma_pow2_pos((e - 52) as nat);
        lemma_fundamental_div_mod(m as int, d as int);
        let q = m / d;
        let r = m % d;
        assert(pow2(52) <= q < 2 * pow2(52)) by (nonlinear_arith)
            requires
                pow2(52) * d <= m < 2 * (pow2(52) * d),
                m == d * q + r,
                0 <= r < d,
                d > 0,
        ;
    }
}

/// The bits of a magnitude below two to the power of 64 leave the sign bit
/// clear.
#[verifier::spinoff_prover]
pub proof fn lemma_magnitude_bits_bound(m: nat)
    requires
        m < 0x1_0000_0000_0000_0000,
    ensures
        magnitude_bits(m) < SIGN_BIT,
{
    lemma2_to64();
    lemma2_to64_rest();
    if m > 0 {
        let e = floor_log2(m);
        lemma_floor_log2_bounds(m);
        lemma_rounded_significand_bounds(m);
        if e >= 64 {
            lemma_pow2_at_least(e, 64);
        }
        assert((e + 1022) * pow2(52) + 2 * pow2(52) < SIGN_BIT) by (nonlinear_arith)
            requires
                e <= 63,
                pow2(52) == 0x10_0000_0000_0000,
        ;
    }
}

/// The bits, sign left out, of the number nearest to `m`.
#[verifier::spinoff_prover]
pub fn magnitude(m: u64) -> (bits: u64)
    ensures
        bits == magnitude_bits(m as nat),
{
    if m == 0 {
        return 0;
    }
    proof {
        lemma2_to64();
        lemma2_to64_rest();
    }
    let mut e: u32 = 0;
    let mut p: u64 = 1;
    while m / 2 >= p
        invariant
            p == pow2(e as nat),
            0 < p <= m,
            e <= 63,
        decreases m - p,
    {
        proof {
            lemma2_to64_rest();
            lemma_pow2_unfold((e + 1) as nat);
            if e >= 63 {
                lemma_pow2_at_least(e as nat, 63);
            }
        }
        p = p * 2;
        e = e + 1;
    }
    proof {
        lemma_floor_log2_unique(m as nat, e as nat);
        lemma_rounded_significand_bounds(m as nat);
    }
    let significand: u64 = if e <= 52 {
        let s = power_of_two(52 - e);
        proof {
            lemma_pow2_adds(e as nat, (52 - e) as nat);
            assert(m * s < 2 * (p * s)) by (nonlinear_arith)
                requires
                    m < 2 * p,
                    s > 0,
            ;
        }
        m * s
    } else {
        let d = power_of_two(e - 52);
        let q = m / d;
        let r = m % d;
        proof {
            lemma_pow2_at_most((e - 52) as nat, 11);
        }
        if 2 * r > d || (2 * r == d && q % 2 == 1) {
            q + 1
        } else {
            q
        }
    };
    proof {
        assert((e + 1022) * pow2(52) + 2 * pow2(52) < SIGN_BIT) by (nonlinear_arith)
            requires
                e <= 63,
                pow2(52) == 0x10_0000_0000_0000,
        ;
        assert((e as u64 + 1022) * HIDDEN_BIT == (e + 1022) * pow2(52));
    }
    (e as u64 + 1022) * HIDDEN_BIT + significand
}

/// The fields of a number whose bits are put together from a sign, a biased
/// exponent and a fraction.
#[verifier::spinoff_prover]
pub proof fn lemma_fields(n: Number, sign: nat, exponent: nat, fraction: nat)
    requires
        sign <= 1,
        exponent < 2048,
        fraction < pow2(52),
        n.bits == (sign * 2048 + exponent) * pow2(52) + fraction,
    ensures
        n.exponent() == exponent,
        n.fraction() == fraction,
        n.is_negative() == (sign == 1),
{
    lemma2_to64();
    lemma2_to64_rest();
    let unit = pow2(52);
    let high = sign * 2048 + exponent;
    lemma_fundamental_div_mod_converse(n.bits as int, unit as int, high as int, fraction as int);
    assert(n.bits as nat / unit == high);
    assert(n.bits as nat % unit == fraction);
    assert(high % 2048 == exponent);
    if sign == 1 {
        assert(n.bits >= 2048 * unit) by (nonlinear_arith)
            requires
                n.bits == (2048 + exponent) * unit + fraction,
        ;
    } else {
        assert(n.bits < 2048 * unit) by (nonlinear_arith)
            requires
                n.bits == exponent * unit + fraction,
                exponent < 2048,
                fraction < unit,
        ;
    }
}

/// The bits of the number nearest to an integer of magnitude `m` and sign
/// `sign` are put together from that sign, the exponent of the leading one
/// of `m` and the significand of `m` without its hidden bit, where rounding
/// did not carry.
#[verifier::spinoff_prover]
pub proof fn lemma_number_of_fields(i: int, m: nat, sign: nat)
    requires
        0 < m < 0x1_0000_0000_0000_0000,
        if i < 0 {
            m == -i && sign == 1
        } else {
            m == i && sign == 0
        },
        rounded_significand(m) < 2 * pow2(52),
    ensures
        number_of(i).exponent() == floor_log2(m) + 1023,
        number_of(i).fraction() == rounded_significand(m) - pow2(52),
        number_of(i).is_negative() == (i < 0),
{
    lemma2_to64();
    lemma2_to64_rest();
    let unit = pow2(52);
    let e = floor_log2(m);
    let significand = rounded_significand(m);
    lemma_floor_log2_bounds(m);
    lemma_rounded_significand_bounds(m);
    lemma_magnitude_bits_bound(m);
    if e >= 64 {
        lemma_pow2_at_least(e, 64);
    }
    let n = number_of(i);
    let rest = (significand - unit) as nat;
    assert(magnitude_bits(m) == (e + 1022) * unit + significand);
    assert(n.bits == sign * 2048 * unit + magnitude_bits(m));
    assert(n.bits == (sign * 2048 + (e + 1023)) * unit + rest) by (nonlinear_arith)
        requires
            n.bits == sign * 2048 * unit + ((e + 1022) * unit + significand),
            rest == significand - unit,
    ;
    lemma_fields(n, sign, e + 1023, rest);
}

/// The integers of magnitude up to two to the power of 53 are numbers
/// themselves: converting one to a number and taking the integer part of
/// that number gives the integer back.
#[verifier::spinoff_prover]
pub proof fn lemma_integers_are_exact(i: int)
    requires
        -0x20_0000_0000_0000 <= i <= 0x20_0000_0000_0000,
    ensures
        number_of(i).integer_part() == i,
        !number_of(i).is_nan(),
{
    lemma2_to64();
    lemma2_to64_rest();
    let m: nat = if i < 0 {
        (-i) as nat
    } else {
        i as nat
    };
    let sign: nat = if i < 0 {
        1
    } else {
        0
    };
    let n = number_of(i);
    let unit = pow2(52);
    if m == 0 {
        assert(n.bits == 0);
        lemma_fields(n, 0, 0, 0);
    } else {
        let e = floor_log2(m);
        lemma_floor_log2_bounds(m);
        if e >= 54 {
            lemma_pow2_at_least(e, 54);
        }
        assert(e <= 53);
        let significand = rounded_significand(m);
        if e <= 52 {
            let scale = pow2((52 - e) as nat);
            lemma_pow2_adds(e, (52 - e) as nat);
            lemma_pow2_pos((52 - e) as nat);
            assert(significand == m * scale);
            assert(m * scale < 2 * (pow2(e) * scale)) by (nonlinear_arith)
                requires
                    m < 2 * pow2(e),
                    scale > 0,
            ;
            lemma_number_of_fields(i, m, sign);
            assert(n.exponent() == e + 1023);
            assert(n.fraction() == significand - unit);
            lemma_fundamental_div_mod_converse(significand as int, scale as int, m as int, 0);
            assert(significand / scale == m);
            assert((n.exponent() - 1023) as nat == e);
            assert(unit + n.fraction() == significand);
            assert(n.integer_part() == i);
        } else {
            assert(m == 0x20_0000_0000_0000);
            assert(pow2(1) == 2);
            assert((e - 52) as nat == 1);
            assert(m / 2 == unit);
            assert(m % 2 == 0);
            assert(significand == unit);
            lemma_number_of_fields(i, m, sign);
            assert(n.exponent() == 1076);
            assert(n.fraction() == 0);
            assert((n.exponent() - 1023) as nat == 53);
            assert((unit + n.fraction()) * pow2(1) == m);
            assert(n.integer_part() == i);
        }
    }
}

/// The integer types that convert to and from numbers as the language's own
/// casts do: to the nearest number, ties going to the even significand; and
/// back toward zero, held to the range of the type, with zero for what is
/// not a number.
pub trait F64Convertable: Sized + Copy {
    /// The integer that the value is.
    spec fn to_int(self) -> int;

    /// The least value of the type.
    spec fn least() -> int;

    /// The greatest value of the type.
    spec fn greatest() -> int;

    /// Every value lies in the range of its type.
    proof fn lemma_in_range(self)
        ensures
            Self::least() <= self.to_int() <= Self::greatest(),
            -0x8000_0000_0000_0000 <= Self::least() <= 0,
            0 <= Self::greatest() < 0x1_0000_0000_0000_0000,
    ;

    /// Two values that are the same integer are the same value.
    proof fn lemma_same_int(self, other: Self)
        requires
            self.to_int() == other.to_int(),
        ensures
            self == other,
    ;

    /// The number nearest to the value.
    fn into_f64(self) -> (n: Number)
        ensures
            n == number_of(self.to_int()),
    ;

    /// The integer part of `value`, held to the range of the type.
    fn from_f64(value: Number) -> (v: Self)
        ensures
            v.to_int() == value.saturated(Self::least(), Self::greatest()),
    ;
}

impl F64Convertable for i8 {
    open spec fn to_int(self) -> int {
        self as int
    }

    open spec fn least() -> int {
        i8::MIN as int
    }

    open spec fn greatest() -> int {
        i8::MAX as int
    }

    proof fn lemma_in_range(self) {
    }

    proof fn lemma_same_int(self, other: Self) {
    }

    fn into_f64(self) -> (n: Number) {
        Number::from_i64(self as i64)
    }

    fn from_f64(value: Number) -> (v: Self) {
        value.to_int_saturating(i8::MIN as i128, i8::MAX as i128) as i8
    }
}

impl F64Convertable for i16 {
    open spec fn to_int(self) -> int {
        self as int
    }

    open spec fn least() -> int {
        i16::MIN as int
    }

    open spec fn greatest() -> int {
        i16::MAX as int
    }

    proof fn lemma_in_range(self) {
    }

    proof fn lemma_same_int(self, other: Self) {
    }

    fn into_f64(self) -> (n: Number) {
        Number::from_i64(self as i64)
    }

    fn from_f64(value: Number) -> (v: Self) {
        value.to_int_saturating(i16::MIN as i128, i16::MAX as i128) as i16
    }
}

impl F64Convertable for i32 {
    open spec fn to_int(self) -> int {
        self as int
    }

    open spec fn least() -> int {
        i32::MIN as int
    }

    open spec fn greatest() -> int {
        i32::MAX as int
    }

    proof fn lemma_in_range(self) {
    }

    proof fn lemma_same_int(self, other: Self) {
    }

    fn into_f64(self) -> (n: Number) {
        Number::from_i64(self as i64)
    }

    fn from_f64(value: Number) -> (v: Self) {
        value.to_int_saturating(i32::MIN as i128, i32::MAX as i128) as i32
    }
}

impl F64Convertable for i64 {
    open spec fn to_int(self) -> int {
        self as int
    }

    open spec fn least() -> int {
        i64::MIN as int
    }

    open spec fn greatest() -> int {
        i64::MAX as int
    }

    proof fn lemma_in_range(self) {
    }

    proof fn lemma_same_int(self, other: Self) {
    }

    fn into_f64(self) -> (n: Number) {
        Number::from_i64(self as i64)
    }

    fn from_f64(value: Number) -> (v: Self) {
        value.to_int_saturating(i64::MIN as i128, i64::MAX as i128) as i64
    }
}

impl F64Convertable for isize {
    open spec fn to_int(self) -> int {
        self as int
    }

    open spec fn least() -> int {
        isize::MIN as int
    }

    open spec fn greatest() -> int {
        isize::MAX as int
    }

    proof fn lemma_in_range(self) {
    }

    proof fn lemma_same_int(self, other: Self) {
    }

    fn into_f64(self) -> (n: Number) {
        Number::from_i64(self as i64)
    }

    fn from_f64(value: Number) -> (v: Self) {
        value.to_int_saturating(isize::MIN as i128, isize::MAX as i128) as isize
    }
}

impl F64Convertable for u8 {
    open spec fn to_int(self) -> int {
        self as int
    }

    open spec fn least() -> int {
        u8::MIN as int
    }

    open spec fn greatest() -> int {
        u8::MAX as int
    }

    proof fn lemma_in_range(self) {
    }

    proof fn lemma_same_int(self, other: Self) {
    }

    fn into_f64(self) -> (n: Number) {
        Number::from_u64(self as u64)
    }

    fn from_f64(value: Number) -> (v: Self) {
        value.to_int_saturating(u8::MIN as i128, u8::MAX as i128) as u8
    }
}

impl F64Convertable for u16 {
    open spec fn to_int(self) -> int {
        self as int
    }

    open spec fn least() -> int {
        u16::MIN as int
    }

    open spec fn greatest() -> int {
        u16::MAX as int
    }

    proof fn lemma_in_range(self) {
    }

    proof fn lemma_same_int(self, other: Self) {
    }

    fn into_f64(self) -> (n: Number) {
        Number::from_u64(self as u64)
    }

    fn from_f64(value: Number) -> (v: Self) {
        value.to_int_saturating(u16::MIN as i128, u16::MAX as i128) as u16
    }
}

impl F64Convertable for u32 {
    open spec fn to_int(self) -> int {
        self as int
    }

    open spec fn least() -> int {
        u32::MIN as int
    }

    open spec fn greatest() -> int {
        u32::MAX as int
    }

    proof fn lemma_in_range(self) {
    }

    proof fn lemma_same_int(self, other: Self) {
    }

    fn into_f64(self) -> (n: Number) {
        Number::from_u64(self as u64)
    }

    fn from_f64(value: Number) -> (v: Self) {
        value.to_int_saturating(u32::MIN as i128, u32::MAX as i128) as u32
    }
}

impl F64Convertable for u64 {
    open spec fn to_int(self) -> int {
        self as int
    }

    open spec fn least() -> int {
        u64::MIN as int
    }

    open spec fn greatest() -> int {
        u64::MAX as int
    }

    proof fn lemma_in_range(self) {
    }

    proof fn lemma_same_int(self, other: Self) {
    }

    fn into_f64(self) -> (n: Number) {
        Number::from_u64(self as u64)
    }

    fn from_f64(value: Number) -> (v: Self) {
        value.to_int_saturating(u64::MIN as i128, u64::MAX as i128) as u64
    }
}

impl F64Convertable for usize {
    open spec fn to_int(self) -> int {
        self as int
    }

    open spec fn least() -> int {
        usize::MIN as int
    }

    open spec fn greatest() -> int {
        usize::MAX as int
    }

    proof fn lemma_in_range(self) {
    }

    proof fn lemma_same_int(self, other: Self) {
    }

    fn into_f64(self) -> (n: Number) {
        Number::from_u64(self as u64)
    }

    fn from_f64(value: Number) -> (v: Self) {
        value.to_int_saturating(usize::MIN as i128, usize::MAX as i128) as usize
    }
}

} // verus!
