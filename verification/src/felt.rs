//! Field elements: non-negative integers of any size, held as big-endian
//! bytes. Contracts speak of an element by the number that its bytes denote,
//! its view; the arithmetic on elements is that of `num_bigint`.

use vstd::prelude::*;
use vstd::string::{StringExecFns, StringSliceAdditionalSpecFns};
use crate::arith::{radix_digits, radix_value};

verus! {

/// The number that a sequence of bytes denotes, most significant byte first.
pub open spec fn be_nat(s: Seq<u8>) -> nat
    decreases s.len(),
{
    if s.len() == 0 {
        0
    } else {
        be_nat(s.drop_last()) * 256 + s.last() as nat
    }
}

/// A byte behind a byte string is a further digit to the base 256.
pub proof fn lemma_be_nat_push(s: Seq<u8>, b: u8)
    ensures
        be_nat(s.push(b)) == be_nat(s) * 256 + b as nat,
{
    assert(s.push(b).drop_last() =~= s);
}

/// A prefix of a byte string denotes no more than the whole string.
pub proof fn lemma_be_nat_prefix(s: Seq<u8>, k: int)
    requires
        0 <= k <= s.len(),
    ensures
        be_nat(s.take(k)) <= be_nat(s),
    decreases s.len() - k,
{
    if k == s.len() {
        assert(s.take(k) =~= s);
    } else {
        lemma_be_nat_prefix(s, k + 1);
        assert(s.take(k + 1).drop_last() =~= s.take(k));
    }
}

/// A byte string denotes zero exactly when all its bytes are zero.
pub proof fn lemma_be_nat_zero(s: Seq<u8>)
    ensures
        be_nat(s) == 0 <==> (forall|i: int| 0 <= i < s.len() ==> s[i] == 0),
    decreases s.len(),
{
    if s.len() > 0 {
        lemma_be_nat_zero(s.drop_last());
        if be_nat(s) == 0 {
            assert forall|i: int| 0 <= i < s.len() implies s[i] == 0 by {
                if i < s.len() - 1 {
                    assert(s.drop_last()[i] == s[i]);
                }
            }
        } else {
            if forall|i: int| 0 <= i < s.len() ==> s[i] == 0 {
                assert forall|i: int| 0 <= i < s.drop_last().len() implies s.drop_last()[i]
                    == 0 by {
                    assert(s.drop_last()[i] == s[i]);
                }
            }
        }
    }
}

/// A field element. Two elements are equal, to `==` as well, when they
/// denote the same number; zero bytes in front count for nothing.
#[derive(Debug)]
pub struct Felt {
    pub(crate) bytes: Vec<u8>,
}

impl View for Felt {
    type V = nat;

    open spec fn view(&self) -> nat {
        be_nat(self.bytes_spec())
    }
}

/// The values of a sequence of field elements.
pub open spec fn values(s: Seq<Felt>) -> Seq<nat> {
    Seq::new(s.len(), |i: int| s[i]@)
}

impl PartialEq for Felt {
    fn eq(&self, other: &Felt) -> (r: bool) {
        self.same_value(other)
    }
}

impl Eq for Felt {

}

impl vstd::std_specs::cmp::PartialEqSpecImpl for Felt {
    open spec fn obeys_eq_spec() -> bool {
        true
    }

    open spec fn eq_spec(&self, other: &Felt) -> bool {
        self@ == other@
    }
}

impl Clone for Felt {
    fn clone(&self) -> (r: Felt)
        ensures
            r@ == self@,
    {
        let bytes = self.bytes.clone();
        assert(bytes@ =~= self.bytes@);
        Felt { bytes }
    }
}

impl Felt {
    /// The bytes of the element, most significant first.
    pub closed spec fn bytes_spec(&self) -> Seq<u8> {
        self.bytes@
    }

    /// The element that the bytes denote, most significant byte first.
    pub fn from_bytes_be(bytes: Vec<u8>) -> (r: Felt)
        ensures
            r@ == be_nat(bytes@),
            r.bytes_spec() == bytes@,
    {
        Felt { bytes }
    }

    /// The bytes of the element, most significant first.
    pub fn to_bytes_be(&self) -> (r: Vec<u8>)
        ensures
            be_nat(r@) == self@,
            r@ == self.bytes_spec(),
    {
        let r = self.bytes.clone();
        assert(r@ =~= self.bytes@);
        r
    }

    /// The element that a text denotes in a radix, if it denotes one.
    pub fn parse_radix(text: &str, radix: u32) -> (r: Option<Felt>)
        ensures
            match r {
                Some(f) => 2 <= radix <= 36 && radix_value(text.spec_bytes(), radix as nat)
                    == Some(f@),
                None => !(2 <= radix <= 36) || radix_value(text.spec_bytes(), radix as nat)
                    is None,
            },
    {
        if radix < 2 || radix > 36 {
            return None;
        }
        let bytes = text.as_bytes();
        assert(bytes@.subrange(0, bytes@.len() as int) =~= bytes@);
        Felt::parse_bytes(bytes, 0, bytes.len(), radix)
    }

    /// The hexadecimal digits of the element behind `0x`.
    pub fn to_hex(&self) -> (r: String)
        ensures
            r@ == seq!['0', 'x'] + radix_digits(self@, 16),
    {
        proof {
            reveal_strlit("0x");
        }
        let digits = self.to_str_radix(16);
        let r = String::from_str("0x").concat(digits.as_str());
        assert("0x"@ =~= seq!['0', 'x']);
        r
    }

    /// The binary digits of the element behind `0b`.
    pub fn to_binary(&self) -> (r: String)
        ensures
            r@ == seq!['0', 'b'] + radix_digits(self@, 2),
    {
        proof {
            reveal_strlit("0b");
        }
        let digits = self.to_str_radix(2);
        let r = String::from_str("0b").concat(digits.as_str());
        assert("0b"@ =~= seq!['0', 'b']);
        r
    }

    /// The decimal digits of the element.
    pub fn to_decimal(&self) -> (r: String)
        ensures
            r@ == radix_digits(self@, 10),
    {
        self.to_str_radix(10)
    }

    /// The element zero.
    pub fn zero() -> (r: Felt)
        ensures
            r@ == 0,
    {
        let mut bytes: Vec<u8> = Vec::new();
        bytes.push(0u8);
        proof {
            lemma_be_nat_push(Seq::<u8>::empty(), 0u8);
            assert(bytes@ =~= Seq::<u8>::empty().push(0u8));
        }
        Felt { bytes }
    }

    /// Whether the element is zero.
    pub fn is_zero(&self) -> (r: bool)
        ensures
            r == (self@ == 0),
    {
        let mut i: usize = 0;
        while i < self.bytes.len()
            invariant
                i <= self.bytes@.len(),
                forall|j: int| 0 <= j < i ==> self.bytes@[j] == 0,
            decreases self.bytes@.len() - i,
        {
            if self.bytes[i] != 0 {
                proof {
                    lemma_be_nat_zero(self.bytes@);
                }
                return false;
            }
            i = i + 1;
        }
        proof {
            lemma_be_nat_zero(self.bytes@);
        }
        true
    }

    /// The element as a `u64`, where it fits.
    pub fn to_u64(&self) -> (r: Option<u64>)
        ensures
            r == (if self@ <= u64::MAX {
                Some(self@ as u64)
            } else {
                None
            }),
    {
        let mut acc: u64 = 0;
        let mut i: usize = 0;
        while i < self.bytes.len()
            invariant
                i <= self.bytes@.len(),
                acc == be_nat(self.bytes@.take(i as int)),
            decreases self.bytes@.len() - i,
        {
            proof {
                lemma_be_nat_prefix(self.bytes@, i + 1);
                assert(self.bytes@.take(i + 1).drop_last() =~= self.bytes@.take(i as int));
            }
            if acc > 0xff_ffff_ffff_ffff {
                return None;
            }
            acc = acc * 256 + self.bytes[i] as u64;
            i = i + 1;
        }
        assert(self.bytes@.take(i as int) =~= self.bytes@);
        Some(acc)
    }

    /// The element as a `usize`, where it fits.
    pub fn to_usize(&self) -> (r: Option<usize>)
        ensures
            r == (if self@ <= usize::MAX {
                Some(self@ as usize)
            } else {
                None
            }),
    {
        match self.to_u64() {
            Some(v) => if v <= usize::MAX as u64 {
                Some(v as usize)
            } else {
                None
            },
            None => None,
        }
    }

    /// The element of a `u64`.
    pub fn from_u64(x: u64) -> (r: Felt)
        ensures
            r@ == x,
    {
        let mut bytes: Vec<u8> = Vec::new();
        let mut i: usize = 0;
        let mut d: u64 = 0x100_0000_0000_0000;
        proof {
            reveal_with_fuel(pow256, 9);
            assert(pow256(7) == 0x100_0000_0000_0000);
            assert(pow256(8) == 0x1_0000_0000_0000_0000);
            assert(x as nat / pow256(8) == 0);
        }
        while i < 8
            invariant
                i <= 8,
                i < 8 ==> d == pow256((7 - i) as nat),
                d > 0,
                be_nat(bytes@) == x as nat / pow256((8 - i) as nat),
            decreases 8 - i,
        {
            let q: u64 = x / d;
            proof {
                assert(pow256((8 - i) as nat) == 256 * pow256((7 - i) as nat));
                vstd::arithmetic::div_mod::lemma_div_denominator(x as int, d as int, 256);
                assert(d as int * 256 == 256 * d as int);
            }
            push_byte(&mut bytes, (q % 256) as u8);
            if i < 7 {
                proof {
                    assert(pow256((7 - i) as nat) == 256 * pow256((6 - i) as nat));
                    lemma_pow256_pos((6 - i) as nat);
                }
                d = d / 256;
            }
            i = i + 1;
        }
        proof {
            let one = pow256((8 - i) as nat);
            assert(one == 1);
            assert(x as nat / one == x as nat) by (nonlinear_arith)
                requires
                    one == 1,
            ;
        }
        Felt { bytes }
    }
}

/// Powers of 256.
pub open spec fn pow256(n: nat) -> nat
    decreases n,
{
    if n == 0 {
        1
    } else {
        256 * pow256((n - 1) as nat)
    }
}

/// No power of 256 is zero.
pub proof fn lemma_pow256_pos(n: nat)
    ensures
        pow256(n) > 0,
    decreases n,
{
    if n > 0 {
        lemma_pow256_pos((n - 1) as nat);
    }
}

fn push_byte(bytes: &mut Vec<u8>, b: u8)
    ensures
        final(bytes)@ == old(bytes)@.push(b),
        be_nat(final(bytes)@) == be_nat(old(bytes)@) * 256 + b as nat,
{
    proof {
        lemma_be_nat_push(bytes@, b);
    }
    bytes.push(b);
}

} // verus!
