//! Arithmetic on field elements, carried out by `num_bigint`.
//!
//! Every function here hands its arguments to `num_bigint::BigUint` as
//! big-endian bytes and takes the result back the same way. What is stated of
//! a result is what `num_bigint` documents; none of it is proved here.

use vstd::prelude::*;
use vstd::arithmetic::power::pow;
use vstd::arithmetic::power2::pow2;
use num_bigint::BigUint;
use crate::felt::Felt;

verus! {

/// The bitwise conjunction of two natural numbers.
pub open spec fn nat_and(a: nat, b: nat) -> nat
    decreases a,
{
    if a == 0 || b == 0 {
        0
    } else {
        2 * nat_and(a / 2, b / 2) + (if a % 2 == 1 && b % 2 == 1 {
            1nat
        } else {
            0nat
        })
    }
}

/// The value of a digit: `0` to `9`, then the letters in either case.
pub open spec fn digit_value(b: u8) -> Option<nat> {
    if 0x30 <= b <= 0x39 {
        Some((b - 0x30) as nat)
    } else if 0x61 <= b <= 0x7a {
        Some((b - 0x61 + 10) as nat)
    } else if 0x41 <= b <= 0x5a {
        Some((b - 0x41 + 10) as nat)
    } else {
        None
    }
}

/// The number that digits denote in a radix, highest first. Underscores
/// between them count for nothing.
pub open spec fn digits_value(s: Seq<u8>, radix: nat) -> Option<nat>
    decreases s.len(),
{
    if s.len() == 0 {
        Some(0)
    } else {
        match digits_value(s.drop_last(), radix) {
            None => None,
            Some(v) => if s.last() == 0x5f {
                Some(v)
            } else {
                match digit_value(s.last()) {
                    None => None,
                    Some(d) => if d < radix {
                        Some(v * radix + d)
                    } else {
                        None
                    },
                }
            },
        }
    }
}

/// The number that a text denotes in a radix: digits, with underscores
/// among them but not in front, and at most one plus sign before them.
pub open spec fn radix_value(s: Seq<u8>, radix: nat) -> Option<nat> {
    let t = if s.len() > 0 && s[0] == 0x2b {
        s.skip(1)
    } else {
        s
    };
    if t.len() == 0 || t[0] == 0x5f {
        None
    } else {
        digits_value(t, radix)
    }
}

/// The character of a digit: `0` to `9`, then the small letters.
pub open spec fn digit_char(d: nat) -> char {
    if d < 10 {
        ((0x30 + d) as u8) as char
    } else {
        ((0x57 + d) as u8) as char
    }
}

/// The digits of a number in a radix, highest first; a single `0` for
/// zero.
pub open spec fn radix_digits(n: nat, radix: nat) -> Seq<char>
    decreases n,
    via radix_digits_decreases
{
    if radix < 2 {
        Seq::empty()
    } else if n < radix {
        seq![digit_char(n)]
    } else {
        radix_digits(n / radix, radix).push(digit_char(n % radix))
    }
}

#[via_fn]
proof fn radix_digits_decreases(n: nat, radix: nat) {
    if radix >= 2 && n >= radix {
        vstd::arithmetic::div_mod::lemma_div_decreases(n as int, radix as int);
    }
}

impl Felt {
    /// `BigUint::parse_bytes`, on the bytes from `from` up to `to`: the
    /// number that they denote in the radix, where they denote one.
    #[verifier::external_body]
    pub(crate) fn parse_bytes(buf: &[u8], from: usize, to: usize, radix: u32) -> (r: Option<Felt>)
        requires
            from <= to <= buf@.len(),
            2 <= radix <= 36,
        ensures
            match r {
                Some(f) => radix_value(buf@.subrange(from as int, to as int), radix as nat)
                    == Some(f@),
                None => radix_value(buf@.subrange(from as int, to as int), radix as nat) is None,
            },
    {
        match BigUint::parse_bytes(&buf[from..to], radix) {
            Some(x) => Some(Felt { bytes: x.to_bytes_be() }),
            None => None,
        }
    }

    /// `BigUint::to_str_radix`: the digits of the element in a radix.
    #[verifier::external_body]
    pub(crate) fn to_str_radix(&self, radix: u32) -> (r: String)
        requires
            2 <= radix <= 36,
        ensures
            r@ == radix_digits(self@, radix as nat),
    {
        BigUint::from_bytes_be(&self.bytes).to_str_radix(radix)
    }

    /// `BigUint`'s `+`: the sum.
    #[verifier::external_body]
    pub(crate) fn plus(&self, b: &Felt) -> (r: Felt)
        ensures
            r@ == self@ + b@,
    {
        let x = BigUint::from_bytes_be(&self.bytes) + BigUint::from_bytes_be(&b.bytes);
        Felt { bytes: x.to_bytes_be() }
    }

    /// `BigUint`'s `-`: the difference. It panics where the result would be
    /// negative, so the subtrahend may not be the larger.
    #[verifier::external_body]
    pub(crate) fn minus(&self, b: &Felt) -> (r: Felt)
        requires
            b@ <= self@,
        ensures
            r@ == self@ - b@,
    {
        let x = BigUint::from_bytes_be(&self.bytes) - BigUint::from_bytes_be(&b.bytes);
        Felt { bytes: x.to_bytes_be() }
    }

    /// `BigUint`'s `*`: the product.
    #[verifier::external_body]
    pub(crate) fn times(&self, b: &Felt) -> (r: Felt)
        ensures
            r@ == self@ * b@,
    {
        let x = BigUint::from_bytes_be(&self.bytes) * BigUint::from_bytes_be(&b.bytes);
        Felt { bytes: x.to_bytes_be() }
    }

    /// `BigUint`'s `/`: the quotient, rounded down. It panics on a zero
    /// divisor.
    #[verifier::external_body]
    pub(crate) fn quotient(&self, b: &Felt) -> (r: Felt)
        requires
            b@ != 0,
        ensures
            r@ == self@ / b@,
    {
        let x = BigUint::from_bytes_be(&self.bytes) / BigUint::from_bytes_be(&b.bytes);
        Felt { bytes: x.to_bytes_be() }
    }

    /// `BigUint`'s `%`: the remainder. It panics on a zero divisor.
    #[verifier::external_body]
    pub(crate) fn remainder(&self, b: &Felt) -> (r: Felt)
        requires
            b@ != 0,
        ensures
            r@ == self@ % b@,
    {
        let x = BigUint::from_bytes_be(&self.bytes) % BigUint::from_bytes_be(&b.bytes);
        Felt { bytes: x.to_bytes_be() }
    }

    /// `BigUint::modpow`: the power `self ^ exponent`, reduced by `modulus`.
    /// It panics on a zero modulus.
    #[verifier::external_body]
    pub(crate) fn modpow(&self, exponent: &Felt, modulus: &Felt) -> (r: Felt)
        requires
            modulus@ != 0,
        ensures
            r@ == pow(self@ as int, exponent@) % (modulus@ as int),
    {
        let e = BigUint::from_bytes_be(&exponent.bytes);
        let m = BigUint::from_bytes_be(&modulus.bytes);
        let x = BigUint::from_bytes_be(&self.bytes).modpow(&e, &m);
        Felt { bytes: x.to_bytes_be() }
    }

    /// `BigUint`'s `&`: the bitwise conjunction.
    #[verifier::external_body]
    pub(crate) fn bit_and(&self, b: &Felt) -> (r: Felt)
        ensures
            r@ == nat_and(self@, b@),
    {
        let x = BigUint::from_bytes_be(&self.bytes) & BigUint::from_bytes_be(&b.bytes);
        Felt { bytes: x.to_bytes_be() }
    }

    /// `BigUint`'s `>>`: the element without its `n` lowest bits.
    #[verifier::external_body]
    pub(crate) fn shift_right(&self, n: usize) -> (r: Felt)
        ensures
            r@ == self@ / pow2(n as nat),
    {
        let x = BigUint::from_bytes_be(&self.bytes) >> n;
        Felt { bytes: x.to_bytes_be() }
    }

    /// `BigUint`'s `<<`: the element with `n` zero bits below it. The shift
    /// is kept small, as the result takes that much memory.
    #[verifier::external_body]
    pub(crate) fn shift_left(&self, n: usize) -> (r: Felt)
        requires
            n <= 0xffff,
        ensures
            r@ == self@ * pow2(n as nat),
    {
        let x = BigUint::from_bytes_be(&self.bytes) << n;
        Felt { bytes: x.to_bytes_be() }
    }

    /// `BigUint`'s `<`.
    #[verifier::external_body]
    pub(crate) fn less_than(&self, b: &Felt) -> (r: bool)
        ensures
            r == (self@ < b@),
    {
        BigUint::from_bytes_be(&self.bytes) < BigUint::from_bytes_be(&b.bytes)
    }

    /// `BigUint`'s `==`.
    #[verifier::external_body]
    pub(crate) fn same_value(&self, b: &Felt) -> (r: bool)
        ensures
            r == (self@ == b@),
    {
        BigUint::from_bytes_be(&self.bytes) == BigUint::from_bytes_be(&b.bytes)
    }
}

} // verus!
