//! The layout of format version 0.13.1: the number of storage updates in
//! bits 0 to 63, the nonce in bits 64 to 127, the class flag in bit 128.

use vstd::prelude::*;
use vstd::arithmetic::power2::*;
use crate::felt::Felt;
use crate::packing::{PackConst, PackError, PackLayout, field_mask, bit_field, lemma_and_field_shifted, lemma_and_zero, lemma_pow2_values};

verus! {

/// The layout of this version.
pub open spec fn layout() -> PackLayout {
    PackLayout {
        top_mask: field_mask(127, 129),
        short_top_mask: 0,
        class_flag_mask: field_mask(1, 128),
        nonce_mask: field_mask(64, 64),
        short_nonce_mask: 0,
        nonce_shift: 64,
        short_nonce_shift: 0,
        update_count_mask: field_mask(64, 0),
        update_count_shift: 0,
        short_update_count_mask: 0,
        short_flag_mask: 0,
        one: 1,
        two: 2,
    }
}

/// Whether the constants are those of this version.
pub open spec fn is_layout(pc: PackConst) -> bool {
    pc@ == layout()
}

/// The word that packs a class flag, a nonce and a number of storage
/// updates.
pub open spec fn packed_word(class_flag: bool, nonce: u64, update_count: u64) -> nat {
    ((if class_flag {
        1nat
    } else {
        0nat
    }) * pow2(128) + nonce as nat * pow2(64) + update_count as nat) as nat
}

/// What a word holds under this layout, said by its bits.
pub open spec fn unpacked(packed: nat) -> Result<(bool, u64, u64), PackError> {
    if bit_field(packed, 127, 129) != 0 {
        Err(PackError::ExtraHighBits)
    } else {
        Ok(
            (
                bit_field(packed, 1, 128) == 1,
                bit_field(packed, 64, 64) as u64,
                bit_field(packed, 64, 0) as u64,
            ),
        )
    }
}

/// The constants of this version.
pub fn make_pack_const() -> (r: PackConst)
    ensures
        r.wf(),
        is_layout(r),
{
    let one = Felt::from_u64(1);
    let two = Felt::from_u64(2);
    proof {
        lemma_pow2_pos(127);
        lemma_pow2_pos(64);
    }
    let top_mask_low = one.shift_left(127).minus(&one);
    let class_flag_mask = one.shift_left(128);
    let nonce_mask_low = one.shift_left(64).minus(&one);
    let update_count_mask = nonce_mask_low.clone();
    proof {
        lemma_pow2_values();
        lemma_pow2_pos(127);
        lemma_and_field_shifted(0, 64, 64);
        lemma_and_field_shifted(0, 64, 0);
    }
    PackConst {
        top_mask: top_mask_low.shift_left(129),
        short_top_mask: Felt::zero(),
        class_flag_mask,
        nonce_mask: nonce_mask_low.shift_left(64),
        short_nonce_mask: Felt::zero(),
        nonce_shift: 64,
        short_nonce_shift: 0,
        update_count_mask,
        update_count_shift: 0,
        short_update_count_mask: Felt::zero(),
        short_flag_mask: Felt::zero(),
        one,
        two,
    }
}

/// Under the constants of this version a word unpacks as its bits say.
pub proof fn lemma_layout_unpacks(packed: nat)
    ensures
        layout().spec_unpack(packed) == unpacked(packed),
{
    lemma_pow2_values();
    lemma_and_zero(packed);
    lemma_and_field_shifted(packed, 127, 129);
    lemma_and_field_shifted(packed, 1, 128);
    lemma_and_field_shifted(packed, 64, 64);
    lemma_and_field_shifted(packed, 64, 0);
}

/// Unpacking the word that packs a triple gives the triple back.
pub proof fn lemma_unpack_packed(class_flag: bool, nonce: u64, update_count: u64)
    ensures
        unpacked(packed_word(class_flag, nonce, update_count)) == Ok::<
            (bool, u64, u64),
            PackError,
        >((class_flag, nonce, update_count)),
{
    lemma_pow2_values();
    lemma_pow2_pos(127);
    let f: nat = if class_flag {
        1
    } else {
        0
    };
    let p = packed_word(class_flag, nonce, update_count);
    let n = nonce as nat;
    let c = update_count as nat;
    assert(p == f * 0x1_0000_0000_0000_0000_0000_0000_0000_0000nat + n * 0x1_0000_0000_0000_0000nat + c);
    assert(p / 0x2_0000_0000_0000_0000_0000_0000_0000_0000nat == 0);
    assert(0nat % pow2(127) == 0) by {
        vstd::arithmetic::div_mod::lemma_small_mod(0, pow2(127));
    }
    assert(p / 0x1_0000_0000_0000_0000_0000_0000_0000_0000nat == f);
    assert(p / 0x1_0000_0000_0000_0000nat == f * 0x1_0000_0000_0000_0000nat + n);
    assert(p / 1 == p);
    assert(p % 0x1_0000_0000_0000_0000nat == c);
}

} // verus!
