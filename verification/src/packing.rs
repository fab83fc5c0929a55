//! The packed word of a contract update: class flag, nonce and number of
//! storage updates in one field element, in the layout of a format version.

use vstd::prelude::*;
use vstd::arithmetic::power2::*;
use vstd::arithmetic::div_mod::*;
use vstd::arithmetic::mul::*;
use crate::arith::nat_and;
use crate::felt::Felt;

pub mod v0_13_1;
pub mod v0_13_3;

verus! {

/// The mask of `width` bits that starts at bit `shift`.
pub open spec fn field_mask(width: nat, shift: nat) -> nat {
    ((pow2(width) - 1) * pow2(shift)) as nat
}

/// The `width` bits of `x` that start at bit `shift`.
pub open spec fn bit_field(x: nat, width: nat, shift: nat) -> nat {
    (x / pow2(shift)) % pow2(width)
}

/// The bit masks and shifts that lay out a packed contract update.
pub struct PackConst {
    pub top_mask: Felt,
    pub short_top_mask: Felt,
    pub class_flag_mask: Felt,
    pub nonce_mask: Felt,
    pub short_nonce_mask: Felt,
    pub nonce_shift: usize,
    pub short_nonce_shift: usize,
    pub update_count_mask: Felt,
    pub update_count_shift: usize,
    pub short_update_count_mask: Felt,
    pub short_flag_mask: Felt,
    pub one: Felt,
    pub two: Felt,
}

/// Why a packed word was refused.
#[derive(Debug, Clone, Copy, PartialEq, Eq, Structural)]
pub enum PackError {
    /// A bit that the layout keeps clear is set.
    ExtraHighBits,
}

/// The masks and shifts of a layout as numbers.
pub struct PackLayout {
    pub top_mask: nat,
    pub short_top_mask: nat,
    pub class_flag_mask: nat,
    pub nonce_mask: nat,
    pub short_nonce_mask: nat,
    pub nonce_shift: nat,
    pub short_nonce_shift: nat,
    pub update_count_mask: nat,
    pub update_count_shift: nat,
    pub short_update_count_mask: nat,
    pub short_flag_mask: nat,
    pub one: nat,
    pub two: nat,
}

impl View for PackConst {
    type V = PackLayout;

    open spec fn view(&self) -> PackLayout {
        PackLayout {
            top_mask: self.top_mask@,
            short_top_mask: self.short_top_mask@,
            class_flag_mask: self.class_flag_mask@,
            nonce_mask: self.nonce_mask@,
            short_nonce_mask: self.short_nonce_mask@,
            nonce_shift: self.nonce_shift as nat,
            short_nonce_shift: self.short_nonce_shift as nat,
            update_count_mask: self.update_count_mask@,
            update_count_shift: self.update_count_shift as nat,
            short_update_count_mask: self.short_update_count_mask@,
            short_flag_mask: self.short_flag_mask@,
            one: self.one@,
            two: self.two@,
        }
    }
}

impl PackLayout {
    /// The masks select nothing that would leave a `u64` once shifted, and
    /// the two sentinels are one and two.
    pub open spec fn wf(self) -> bool {
        &&& self.nonce_mask / pow2(self.nonce_shift) <= u64::MAX
        &&& self.short_nonce_mask / pow2(self.short_nonce_shift) <= u64::MAX
        &&& self.update_count_mask / pow2(self.update_count_shift) <= u64::MAX
        &&& self.short_update_count_mask / pow2(self.update_count_shift) <= u64::MAX
        &&& self.one == 1
        &&& self.two == 2
    }

    /// Whether the word is in the short layout.
    pub open spec fn spec_short(self, packed: nat) -> bool {
        nat_and(self.short_flag_mask, packed) != 0
    }

    /// The bits of the word that the layout keeps clear.
    pub open spec fn spec_top(self, packed: nat) -> nat {
        if self.spec_short(packed) {
            nat_and(self.short_top_mask, packed)
        } else {
            nat_and(self.top_mask, packed)
        }
    }

    /// Whether the word has the class flag.
    pub open spec fn spec_class_flag(self, packed: nat) -> bool {
        nat_and(self.class_flag_mask, packed) != 0
    }

    /// The nonce of the word.
    pub open spec fn spec_nonce(self, packed: nat) -> nat {
        if self.spec_short(packed) {
            nat_and(self.short_nonce_mask, packed) / pow2(self.short_nonce_shift)
        } else {
            nat_and(self.nonce_mask, packed) / pow2(self.nonce_shift)
        }
    }

    /// The number of storage updates of the word.
    pub open spec fn spec_update_count(self, packed: nat) -> nat {
        if self.spec_short(packed) {
            nat_and(self.short_update_count_mask, packed) / pow2(self.update_count_shift)
        } else {
            nat_and(self.update_count_mask, packed) / pow2(self.update_count_shift)
        }
    }

    /// What a packed word holds: the class flag, the nonce and the number of
    /// storage updates, unless a bit under the top mask is set.
    pub open spec fn spec_unpack(self, packed: nat) -> Result<(bool, u64, u64), PackError> {
        if self.spec_top(packed) != 0 {
            Err(PackError::ExtraHighBits)
        } else {
            Ok(
                (
                    self.spec_class_flag(packed),
                    self.spec_nonce(packed) as u64,
                    self.spec_update_count(packed) as u64,
                ),
            )
        }
    }
}

impl PackConst {
    /// The constants are those of a layout whose fields fit a `u64`.
    pub open spec fn wf(&self) -> bool {
        self@.wf()
    }

    /// Takes a packed contract update apart.
    pub fn unpack_contract_update(&self, packed: &Felt) -> (r: Result<(bool, u64, u64), PackError>)
        requires
            self.wf(),
        ensures
            r == self@.spec_unpack(packed@),
            r is Ok ==> self@.spec_nonce(packed@) <= u64::MAX && self@.spec_update_count(packed@)
                <= u64::MAX,
            self@ == v0_13_1::layout() ==> r == v0_13_1::unpacked(packed@),
            self@ == v0_13_3::layout() ==> r == v0_13_3::unpacked(packed@),
    {
        proof {
            v0_13_1::lemma_layout_unpacks(packed@);
            v0_13_3::lemma_layout_unpacks(packed@);
        }
        let short_flag = !self.short_flag_mask.bit_and(packed).is_zero();
        let top = if short_flag {
            self.short_top_mask.bit_and(packed)
        } else {
            self.top_mask.bit_and(packed)
        };
        if !top.is_zero() {
            return Err(PackError::ExtraHighBits);
        }
        let class_flag = !self.class_flag_mask.bit_and(packed).is_zero();
        let nonce_high = if short_flag {
            self.short_nonce_mask.bit_and(packed)
        } else {
            self.nonce_mask.bit_and(packed)
        };
        let nonce_shift = if short_flag {
            self.short_nonce_shift
        } else {
            self.nonce_shift
        };
        let nonce = nonce_high.shift_right(nonce_shift);
        let update_count_high = if short_flag {
            self.short_update_count_mask.bit_and(packed)
        } else {
            self.update_count_mask.bit_and(packed)
        };
        let update_count = update_count_high.shift_right(self.update_count_shift);
        proof {
            lemma_and_le(self.nonce_mask@, packed@);
            lemma_and_le(self.short_nonce_mask@, packed@);
            lemma_and_le(self.update_count_mask@, packed@);
            lemma_and_le(self.short_update_count_mask@, packed@);
            lemma_pow2_pos(nonce_shift as nat);
            lemma_pow2_pos(self.update_count_shift as nat);
            lemma_div_is_ordered(
                nonce_high@ as int,
                (if short_flag {
                    self.short_nonce_mask@
                } else {
                    self.nonce_mask@
                }) as int,
                pow2(nonce_shift as nat) as int,
            );
            lemma_div_is_ordered(
                update_count_high@ as int,
                (if short_flag {
                    self.short_update_count_mask@
                } else {
                    self.update_count_mask@
                }) as int,
                pow2(self.update_count_shift as nat) as int,
            );
        }
        let nonce = nonce.to_u64();
        let update_count = update_count.to_u64();
        Ok((class_flag, nonce.unwrap(), update_count.unwrap()))
    }
}

/// A conjunction is no larger than its first argument.
pub proof fn lemma_and_le(a: nat, b: nat)
    ensures
        nat_and(a, b) <= a,
    decreases a,
{
    if a != 0 && b != 0 {
        lemma_and_le(a / 2, b / 2);
    }
}

/// A conjunction with a mask of `width` bits at `shift` keeps those bits of
/// the other argument where they are and clears the rest.
pub proof fn lemma_and_field(x: nat, width: nat, shift: nat)
    ensures
        nat_and(field_mask(width, shift), x) == bit_field(x, width, shift) * pow2(shift),
    decreases shift, width,
{
    let m = field_mask(width, shift);
    lemma_pow2_pos(width);
    lemma_pow2_pos(shift);
    if shift == 0 {
        assert(pow2(0) == 1) by {
            lemma2_to64();
        }
        assert(m == pow2(width) - 1) by (nonlinear_arith)
            requires
                m == (pow2(width) - 1) * pow2(shift),
                pow2(shift) == 1,
        ;
        assert(bit_field(x, width, shift) * pow2(shift) == x % pow2(width)) by (nonlinear_arith)
            requires
                bit_field(x, width, shift) == (x / pow2(shift)) % pow2(width),
                pow2(shift) == 1,
        ;
        if width == 0 {
            assert(m == 0);
            assert(x % 1 == 0);
        } else {
            lemma_pow2_unfold(width);
            let h = pow2((width - 1) as nat);
            lemma_pow2_pos((width - 1) as nat);
            assert(m == 2 * h - 1);
            assert(m / 2 == h - 1);
            assert(m % 2 == 1);
            assert(field_mask((width - 1) as nat, 0) == h - 1);
            if x == 0 {
                assert(0nat % pow2(width) == 0) by {
                    lemma_small_mod(0, pow2(width));
                }
            } else {
                lemma_and_field(x / 2, (width - 1) as nat, 0);
                assert((x / 2) / 1 == x / 2);
                assert(nat_and(m / 2, x / 2) == (x / 2) % h);
                lemma_mod_halves(x, h);
            }
        }
    } else {
        lemma_pow2_unfold(shift);
        let hs = pow2((shift - 1) as nat);
        lemma_pow2_pos((shift - 1) as nat);
        let w = (pow2(width) - 1) as nat;
        assert(m == w * (2 * hs));
        assert(m == 2 * (w * hs)) by (nonlinear_arith)
            requires
                m == w * (2 * hs),
        ;
        assert(field_mask(width, (shift - 1) as nat) == w * hs);
        assert(m / 2 == w * hs);
        assert(m % 2 == 0);
        lemma_div_denominator(x as int, 2, hs as int);
        assert(x / pow2(shift) == (x / 2) / hs);
        if m == 0 || x == 0 {
            if x == 0 {
                lemma_div_basics(pow2(shift) as int);
                lemma_small_mod(0, pow2(width));
            } else {
                assert(w == 0) by (nonlinear_arith)
                    requires
                        w * hs == 0,
                        hs > 0,
                ;
                assert(pow2(width) == 1);
                assert((x / pow2(shift)) % 1 == 0);
            }
            assert(bit_field(x, width, shift) * pow2(shift) == 0) by (nonlinear_arith)
                requires
                    bit_field(x, width, shift) == 0,
            ;
        } else {
            lemma_and_field(x / 2, width, (shift - 1) as nat);
            let f = bit_field(x, width, shift);
            assert(bit_field(x / 2, width, (shift - 1) as nat) == f);
            assert(nat_and(m, x) == 2 * (f * hs));
            assert(2 * (f * hs) == f * (2 * hs)) by (nonlinear_arith);
        }
    }
}

/// What a mask of `width` bits at `shift` yields once the conjunction is
/// shifted back down.
pub proof fn lemma_and_field_shifted(x: nat, width: nat, shift: nat)
    ensures
        nat_and(field_mask(width, shift), x) / pow2(shift) == bit_field(x, width, shift),
        nat_and(field_mask(width, shift), x) != 0 <==> bit_field(x, width, shift) != 0,
        field_mask(width, shift) / pow2(shift) == pow2(width) - 1,
        bit_field(x, width, shift) < pow2(width),
{
    lemma_and_field(x, width, shift);
    lemma_pow2_pos(shift);
    lemma_pow2_pos(width);
    let f = bit_field(x, width, shift);
    lemma_div_by_multiple(f as int, pow2(shift) as int);
    lemma_div_by_multiple(pow2(width) - 1, pow2(shift) as int);
    lemma_mod_bound((x / pow2(shift)) as int, pow2(width) as int);
    assert(f * pow2(shift) != 0 <==> f != 0) by (nonlinear_arith)
        requires
            pow2(shift) > 0,
    ;
}

/// A conjunction with zero selects nothing.
pub proof fn lemma_and_zero(x: nat)
    ensures
        nat_and(0, x) == 0,
{
}

/// The powers of two that the layouts use.
pub proof fn lemma_pow2_values()
    ensures
        pow2(0) == 1,
        pow2(1) == 2,
        pow2(2) == 4,
        pow2(8) == 0x100,
        pow2(10) == 0x400,
        pow2(64) == 0x1_0000_0000_0000_0000,
        pow2(66) == 0x4_0000_0000_0000_0000,
        pow2(74) == 0x400_0000_0000_0000_0000,
        pow2(128) == 0x1_0000_0000_0000_0000_0000_0000_0000_0000,
        pow2(129) == 0x2_0000_0000_0000_0000_0000_0000_0000_0000,
        pow2(130) == 0x4_0000_0000_0000_0000_0000_0000_0000_0000,
{
    lemma2_to64();
    lemma_pow2_adds(64, 2);
    lemma_pow2_adds(64, 10);
    lemma_pow2_adds(64, 64);
    lemma_pow2_adds(128, 1);
    lemma_pow2_adds(128, 2);
}

/// The remainder by twice `h`, from the remainder of the half by `h`.
pub proof fn lemma_mod_halves(x: nat, h: nat)
    requires
        h > 0,
    ensures
        x % (2 * h) == 2 * ((x / 2) % h) + x % 2,
{
    let q = (x / 2) / h;
    let r = (x / 2) % h;
    lemma_fundamental_div_mod((x / 2) as int, h as int);
    assert(x == 2 * (x / 2) + x % 2);
    assert(x == (2 * h) * q + (2 * r + x % 2)) by (nonlinear_arith)
        requires
            x == 2 * (x / 2) + x % 2,
            (x / 2) as int == h * q + r,
    ;
    lemma_fundamental_div_mod_converse(x as int, (2 * h) as int, q as int, (2 * r + x % 2) as int);
}

} // verus!
