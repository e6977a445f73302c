//! Doubles as bit patterns.
//!
//! The library does no floating-point arithmetic. It carries a double as its 64
//! IEEE 754 bits and decides on those bits alone.

use vstd::prelude::*;
use vstd::arithmetic::power2;
use std::collections::HashMap;

verus! {

/// A number of a worksheet.
#[derive(Debug, Clone, Copy, PartialEq, Eq, Structural)]
pub enum Number {
    /// The double with these bits.
    Double(u64),
    /// A hundredth of the double with these bits.
    Hundredths(u64),
}

/// What floating-point code says of a number: the bits of its double and its two
/// decimal texts.
pub struct NumberImage {
    pub bits: u64,
    /// The shortest text that reads back as the double, with a fraction or an
    /// exponent in it.
    pub shortest: String,
    /// The text that the double displays as.
    pub display: String,
}

/// The images of the numbers in play. A number that was not recorded reads as
/// zero; what is written takes tables that hold all of its numbers.
pub struct NumberTable {
    doubles: HashMap<u64, NumberImage>,
    hundredths: HashMap<u64, NumberImage>,
}

impl NumberTable {
    /// The image recorded for a number.
    pub closed spec fn image(self, number: Number) -> Option<NumberImage> {
        match number {
            Number::Double(bits) => if self.doubles@.contains_key(bits) {
                Some(self.doubles@[bits])
            } else {
                None
            },
            Number::Hundredths(bits) => if self.hundredths@.contains_key(bits) {
                Some(self.hundredths@[bits])
            } else {
                None
            },
        }
    }

    /// The bits of a number's double.
    pub open spec fn bits(self, number: Number) -> u64 {
        match number {
            Number::Double(bits) => bits,
            Number::Hundredths(_) => match self.image(number) {
                Some(image) => image.bits,
                None => 0,
            },
        }
    }

    /// A number's shortest text.
    pub open spec fn shortest(self, number: Number) -> Seq<char> {
        match self.image(number) {
            Some(image) => image.shortest@,
            None => "0.0"@,
        }
    }

    /// The text a number displays as.
    pub open spec fn display(self, number: Number) -> Seq<char> {
        match self.image(number) {
            Some(image) => image.display@,
            None => "0"@,
        }
    }

    /// A table that holds no image.
    pub fn new() -> (table: NumberTable)
        ensures
            forall|number: Number| table.image(number) is None,
    {
        broadcast use vstd::std_specs::hash::group_hash_axioms;

        NumberTable { doubles: HashMap::new(), hundredths: HashMap::new() }
    }

    /// Records the image of a number, in place of an earlier one.
    pub fn record(&mut self, number: Number, image: NumberImage)
        ensures
            final(self).image(number) == Some(image),
            forall|other: Number| other != number ==> final(self).image(other) == old(self).image(
                other,
            ),
    {
        broadcast use vstd::std_specs::hash::group_hash_axioms;

        match number {
            Number::Double(bits) => {
                self.doubles.insert(bits, image);
            },
            Number::Hundredths(bits) => {
                self.hundredths.insert(bits, image);
            },
        }
    }

    fn lookup(&self, number: Number) -> (r: Option<&NumberImage>)
        ensures
            match r {
                Some(image) => self.image(number) == Some(*image),
                None => self.image(number) is None,
            },
    {
        broadcast use vstd::std_specs::hash::group_hash_axioms;

        match number {
            Number::Double(bits) => self.doubles.get(&bits),
            Number::Hundredths(bits) => self.hundredths.get(&bits),
        }
    }

    /// The bits of a number's double.
    pub fn bits_of(&self, number: Number) -> (bits: u64)
        ensures
            bits == self.bits(number),
    {
        match number {
            Number::Double(bits) => bits,
            Number::Hundredths(_) => match self.lookup(number) {
                Some(image) => image.bits,
                None => 0,
            },
        }
    }

    /// A number's shortest text.
    pub fn shortest_text(&self, number: Number) -> (s: &str)
        ensures
            s@ == self.shortest(number),
    {
        match self.lookup(number) {
            Some(image) => image.shortest.as_str(),
            None => "0.0",
        }
    }

    /// The text a number displays as.
    pub fn display_text(&self, number: Number) -> (s: &str)
        ensures
            s@ == self.display(number),
    {
        match self.lookup(number) {
            Some(image) => image.display.as_str(),
            None => "0",
        }
    }
}

/// The exponent field of a double.
pub open spec fn exponent_field(bits: u64) -> int {
    (bits as int / 0x10_0000_0000_0000) % 0x800
}

/// The mantissa field of a double.
pub open spec fn mantissa_field(bits: u64) -> int {
    bits as int % 0x10_0000_0000_0000
}

/// The sign bit of a double.
pub open spec fn is_negative(bits: u64) -> bool {
    bits >= 0x8000_0000_0000_0000
}

/// A double is finite unless its exponent field is all ones.
pub open spec fn is_finite(bits: u64) -> bool {
    exponent_field(bits) != 0x7ff
}

/// Whether the double with these bits is finite.
pub fn finite(bits: u64) -> (b: bool)
    ensures
        b == is_finite(bits),
{
    (bits / 0x10_0000_0000_0000) % 0x800 != 0x7ff
}

/// The number of binary digits of `n`.
pub open spec fn bit_length(n: nat) -> nat
    decreases n,
{
    if n == 0 {
        0
    } else {
        1 + bit_length(n / 2)
    }
}

/// `n` over 2^`shift`, rounded to the nearest integer, a tie to the even one.
pub open spec fn round_shift(n: nat, shift: nat) -> nat {
    let unit = power2::pow2(shift);
    let q = n / unit;
    let r = n % unit;
    if 2 * r > unit || (2 * r == unit && q % 2 == 1) {
        q + 1
    } else {
        q
    }
}

/// The bits of the double nearest to a natural number below 2^64. The 53 leading
/// binary digits make the significand; a significand that rounds up to 2^53
/// carries into the exponent.
pub open spec fn double_of_nat(n: nat) -> nat {
    let len = bit_length(n);
    if n == 0 {
        0
    } else {
        ((1021 + len) * 0x10_0000_0000_0000 + if len <= 53 {
            n * power2::pow2((53 - len) as nat)
        } else {
            round_shift(n, (len - 53) as nat)
        }) as nat
    }
}

/// The bits of the double nearest to an integer of 64 bits.
pub open spec fn double_of_int(n: int) -> int {
    if n < 0 {
        (0x8000_0000_0000_0000 + double_of_nat((-n) as nat)) as int
    } else {
        double_of_nat(n as nat) as int
    }
}

proof fn lemma_bit_length(n: nat)
    requires
        n > 0,
    ensures
        bit_length(n) > 0,
        power2::pow2((bit_length(n) - 1) as nat) <= n < power2::pow2(bit_length(n)),
    decreases n,
{
    if n < 2 {
        assert(bit_length(n / 2) == 0);
        power2::lemma2_to64();
    } else {
        let half = n / 2;
        lemma_bit_length(half);
        let k = bit_length(half);
        power2::lemma_pow2_unfold(k);
        power2::lemma_pow2_unfold(k + 1);
    }
}

proof fn lemma_bit_length_unique(n: nat, k: nat)
    requires
        power2::pow2(k) <= n < power2::pow2(k + 1),
    ensures
        bit_length(n) == k + 1,
{
    power2::lemma_pow2_pos(k);
    lemma_bit_length(n);
    let len = bit_length(n);
    if len > k + 1 {
        if len - 1 > k + 1 {
            power2::lemma_pow2_strictly_increases(k + 1, (len - 1) as nat);
        }
    } else if len < k + 1 {
        if len < k {
            power2::lemma_pow2_strictly_increases(len, k);
        }
    }
}

/// The power of two with the given exponent.
fn power_of_two(k: usize) -> (p: u64)
    requires
        k < 64,
    ensures
        p == power2::pow2(k as nat),
{
    let mut p: u64 = 1;
    let mut i: usize = 0;
    proof {
        power2::lemma2_to64();
    }
    while i < k
        invariant
            i <= k < 64,
            p == power2::pow2(i as nat),
        decreases k - i,
    {
        proof {
            power2::lemma_pow2_unfold(i as nat + 1);
            power2::lemma2_to64_rest();
            if i < 62 {
                power2::lemma_pow2_strictly_increases(i as nat, 62);
            }
        }
        p = p * 2;
        i += 1;
    }
    p
}

/// The bits of the double nearest to `n`, a tie to the even significand.
pub fn double_bits(n: i64) -> (bits: u64)
    ensures
        bits == double_of_int(n as int),
{
    if n == 0 {
        return 0;
    }
    let negative = n < 0;
    let m: u64 = if negative {
        (-(n as i128)) as u64
    } else {
        n as u64
    };
    let mut len: usize = 0;
    let mut rest: u64 = m;
    proof {
        lemma_bit_length(m as nat);
        power2::lemma2_to64_rest();
        let full = bit_length(m as nat);
        if full > 64 {
            assert(full - 1 >= 64);
            if full - 1 > 64 {
                power2::lemma_pow2_strictly_increases(64, (full - 1) as nat);
            }
        }
    }
    while rest > 0
        invariant
            len + bit_length(rest as nat) == bit_length(m as nat),
            bit_length(m as nat) <= 64,
        decreases rest,
    {
        rest = rest / 2;
        len += 1;
    }
    let significand: u64 = if len <= 53 {
        let unit: u64 = power_of_two(53 - len);
        proof {
            power2::lemma_pow2_adds(len as nat, (53 - len) as nat);
            power2::lemma2_to64();
            assert(m * unit < power2::pow2(len as nat) * unit) by (nonlinear_arith)
                requires
                    m < power2::pow2(len as nat),
                    unit > 0,
            ;
        }
        m * unit
    } else {
        let unit: u64 = power_of_two(len - 53);
        proof {
            power2::lemma_pow2_adds(53, (len - 53) as nat);
            power2::lemma2_to64();
            assert(m / unit <= power2::pow2(53)) by (nonlinear_arith)
                requires
                    m < power2::pow2(53) * unit,
                    unit > 0,
            ;
            if len < 64 {
                power2::lemma_pow2_strictly_increases((len - 53) as nat, 11);
            }
        }
        let q: u64 = m / unit;
        let r: u64 = m % unit;
        if 2 * r > unit || (2 * r == unit && q % 2 == 1) {
            q + 1
        } else {
            q
        }
    };
    proof {
        power2::lemma2_to64();
    }
    let magnitude: u64 = (1021 + len as u64) * 0x10_0000_0000_0000 + significand;
    if negative {
        0x8000_0000_0000_0000 + magnitude
    } else {
        magnitude
    }
}

/// The smallest and the largest integer that a packed (RK) cell holds.
pub const RK_LOWER: i64 = -0x2000_0000;

pub const RK_UPPER: i64 = 0x1fff_ffff;

/// The integer that a double stands for, where there is one and it fits a packed
/// cell. Negative zero counts as zero.
pub open spec fn packed_integer(bits: u64) -> Option<int> {
    let exponent = exponent_field(bits);
    let significand = 0x10_0000_0000_0000 + mantissa_field(bits);
    let unit = power2::pow2((1075 - exponent) as nat);
    let magnitude = significand / unit as int;
    let value = if is_negative(bits) {
        -magnitude
    } else {
        magnitude
    };
    if exponent == 0 && mantissa_field(bits) == 0 {
        Some(0)
    } else if 1023 <= exponent <= 1052 && significand % unit as int == 0 && RK_LOWER <= value
        <= RK_UPPER {
        Some(value)
    } else {
        None
    }
}

/// The integer that a double stands for, where it fits a packed cell.
pub fn as_packed_integer(bits: u64) -> (r: Option<i32>)
    ensures
        match r {
            Some(n) => packed_integer(bits) == Some(n as int),
            None => packed_integer(bits) is None,
        },
{
    let exponent: u64 = (bits / 0x10_0000_0000_0000) % 0x800;
    let mantissa: u64 = bits % 0x10_0000_0000_0000;
    if exponent == 0 && mantissa == 0 {
        return Some(0);
    }
    if exponent < 1023 || exponent > 1052 {
        return None;
    }
    let significand: u64 = 0x10_0000_0000_0000 + mantissa;
    let unit: u64 = power_of_two((1075 - exponent) as usize);
    proof {
        power2::lemma2_to64();
        if exponent < 1052 {
            power2::lemma_pow2_strictly_increases(23, (1075 - exponent) as nat);
        }
        assert(significand / unit < 0x4000_0000) by (nonlinear_arith)
            requires
                significand < 0x20_0000_0000_0000,
                unit >= 0x80_0000,
        ;
    }
    if significand % unit != 0 {
        return None;
    }
    let magnitude: i64 = (significand / unit) as i64;
    let value: i64 = if bits >= 0x8000_0000_0000_0000 {
        -magnitude
    } else {
        magnitude
    };
    if RK_LOWER <= value && value <= RK_UPPER {
        Some(value as i32)
    } else {
        None
    }
}

/// A double that stands for an integer of a packed cell, and is not negative
/// zero, is exactly the double of that integer.
pub proof fn law_packed_integer_is_exact(bits: u64)
    requires
        packed_integer(bits) is Some,
        bits != 0x8000_0000_0000_0000,
    ensures
        double_of_int(packed_integer(bits)->0) == bits,
{
    let exponent = exponent_field(bits);
    let mantissa = mantissa_field(bits);
    let negative = is_negative(bits);
    let sign: int = if negative {
        0x8000_0000_0000_0000
    } else {
        0
    };
    assert(bits == sign + exponent * 0x10_0000_0000_0000 + mantissa);
    if exponent == 0 && mantissa == 0 {
        assert(bits == 0);
    } else {
        let significand = (0x10_0000_0000_0000 + mantissa) as nat;
        let shift = (1075 - exponent) as nat;
        let unit = power2::pow2(shift);
        let n = (significand / unit) as nat;
        let len = (exponent - 1022) as nat;
        power2::lemma_pow2_pos(shift);
        assert(significand == n * unit) by (nonlinear_arith)
            requires
                significand % unit == 0,
                n == significand / unit,
                unit > 0,
        ;
        power2::lemma2_to64_rest();
        power2::lemma_pow2_adds((len - 1) as nat, shift);
        power2::lemma_pow2_adds(len, shift);
        assert((len - 1) as nat + shift == 52 && len + shift == 53);
        assert(power2::pow2(52) == 0x10_0000_0000_0000 && power2::pow2(53) == 0x20_0000_0000_0000);
        let low = power2::pow2((len - 1) as nat);
        let high = power2::pow2(len);
        assert(low <= n < high) by (nonlinear_arith)
            requires
                n * unit < high * unit,
                low * unit <= n * unit,
                unit > 0,
        ;
        lemma_bit_length_unique(n, (len - 1) as nat);
        power2::lemma_pow2_pos((len - 1) as nat);
        assert(53 - len == shift);
    }
}


} // verus!
