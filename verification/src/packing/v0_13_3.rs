//! The layout of format version 0.13.3. Bit 0 is the class flag and bit 1
//! tells which of two layouts the rest is in. The long one has the number of
//! storage updates in bits 2 to 65 and the nonce in bits 66 to 129; the short
//! one has the number of storage updates in bits 2 to 9 and the nonce in bits
//! 10 to 73.

use vstd::prelude::*;
use vstd::arithmetic::power2::*;
use crate::felt::Felt;
use crate::packing::{PackConst, PackError, PackLayout, field_mask, bit_field, lemma_and_field_shifted, lemma_pow2_values};

verus! {

/// The layout of this version.
pub open spec fn layout() -> PackLayout {
    PackLayout {
        top_mask: field_mask(126, 130),
        short_top_mask: field_mask(182, 74),
        class_flag_mask: field_mask(1, 0),
        nonce_mask: field_mask(64, 66),
        short_nonce_mask: field_mask(64, 10),
        nonce_shift: 66,
        short_nonce_shift: 10,
        update_count_mask: field_mask(64, 2),
        update_count_shift: 2,
        short_update_count_mask: field_mask(8, 2),
        short_flag_mask: field_mask(1, 1),
        one: 1,
        two: 2,
    }
}

/// Whether the constants are those of this version.
pub open spec fn is_layout(pc: PackConst) -> bool {
    pc@ == layout()
}

/// The word that packs a triple in the long layout.
pub open spec fn packed_long(class_flag: bool, nonce: u64, update_count: u64) -> nat {
    (nonce as nat * pow2(66) + update_count as nat * 4 + (if class_flag {
        1nat
    } else {
        0nat
    })) as nat
}

/// The word that packs a triple in the short layout, which has eight bits
/// for the number of storage updates.
pub open spec fn packed_short(class_flag: bool, nonce: u64, update_count: u64) -> nat {
    (nonce as nat * pow2(10) + update_count as nat * 4 + 2 + (if class_flag {
        1nat
    } else {
        0nat
    })) as nat
}

/// What a word holds under this layout, said by its bits.
pub open spec fn unpacked(packed: nat) -> Result<(bool, u64, u64), PackError> {
    if bit_field(packed, 1, 1) == 1 {
        if bit_field(packed, 182, 74) != 0 {
            Err(PackError::ExtraHighBits)
        } else {
            Ok(
                (
                    bit_field(packed, 1, 0) == 1,
                    bit_field(packed, 64, 10) as u64,
                    bit_field(packed, 8, 2) as u64,
                ),
            )
        }
    } else {
        if bit_field(packed, 126, 130) != 0 {
            Err(PackError::ExtraHighBits)
        } else {
            Ok(
                (
                    bit_field(packed, 1, 0) == 1,
                    bit_field(packed, 64, 66) as u64,
                    bit_field(packed, 64, 2) as u64,
                ),
            )
        }
    }
}

/// The constants of this version.
pub fn make_pack_const() -> (r: PackConst)
    ensures
        r.wf(),
        is_layout(r),
{
    let one = Felt::from_u64(1);
    let two = Felt::from_u64(2);
    proof {
        lemma_pow2_values();
        lemma_pow2_pos(126);
        lemma_pow2_pos(182);
        lemma_and_field_shifted(0, 64, 66);
        lemma_and_field_shifted(0, 64, 10);
        lemma_and_field_shifted(0, 64, 2);
        lemma_and_field_shifted(0, 8, 2);
    }
    let top_mask_low = one.shift_left(126).minus(&one);
    let short_top_mask_low = one.shift_left(182).minus(&one);
    let nonce_mask_low = one.shift_left(64).minus(&one);
    let update_count_mask_low = nonce_mask_low.clone();
    let short_update_count_mask_low = Felt::from_u64(255);
    PackConst {
        top_mask: top_mask_low.shift_left(130),
        short_top_mask: short_top_mask_low.shift_left(74),
        nonce_mask: nonce_mask_low.shift_left(66),
        short_nonce_mask: nonce_mask_low.shift_left(10),
        nonce_shift: 66,
        short_nonce_shift: 10,
        update_count_mask: update_count_mask_low.shift_left(2),
        short_update_count_mask: short_update_count_mask_low.shift_left(2),
        update_count_shift: 2,
        class_flag_mask: one.clone(),
        short_flag_mask: two.clone(),
        one,
        two,
    }
}

/// Under the constants of this version a word unpacks as its bits say.
pub proof fn lemma_layout_unpacks(packed: nat)
    ensures
        layout().spec_unpack(packed) == unpacked(packed),
{
    lemma_pow2_values();
    lemma_and_field_shifted(packed, 1, 1);
    lemma_and_field_shifted(packed, 1, 0);
    lemma_and_field_shifted(packed, 126, 130);
    lemma_and_field_shifted(packed, 182, 74);
    lemma_and_field_shifted(packed, 64, 66);
    lemma_and_field_shifted(packed, 64, 10);
    lemma_and_field_shifted(packed, 64, 2);
    lemma_and_field_shifted(packed, 8, 2);
}

/// Unpacking the long word that packs a triple gives the triple back.
pub proof fn lemma_unpack_packed_long(class_flag: bool, nonce: u64, update_count: u64)
    ensures
        unpacked(packed_long(class_flag, nonce, update_count)) == Ok::<
            (bool, u64, u64),
            PackError,
        >((class_flag, nonce, update_count)),
{
    lemma_pow2_values();
    lemma_pow2_pos(126);
    let f: nat = if class_flag {
        1
    } else {
        0
    };
    let n = nonce as nat;
    let c = update_count as nat;
    let p = packed_long(class_flag, nonce, update_count);
    assert(p == n * 0x4_0000_0000_0000_0000nat + c * 4 + f);
    assert(p / 2 == n * 0x2_0000_0000_0000_0000nat + c * 2);
    assert(p / 1 == p);
    assert(p / 4 == n * 0x1_0000_0000_0000_0000nat + c);
    assert(p / 0x4_0000_0000_0000_0000nat == n);
    assert(p / 0x4_0000_0000_0000_0000_0000_0000_0000_0000nat == 0);
    assert(0nat % pow2(126) == 0) by {
        vstd::arithmetic::div_mod::lemma_small_mod(0, pow2(126));
    }
}

/// Unpacking the short word that packs a triple gives the triple back,
/// where the number of storage updates fits its eight bits.
pub proof fn lemma_unpack_packed_short(class_flag: bool, nonce: u64, update_count: u64)
    requires
        update_count < 256,
    ensures
        unpacked(packed_short(class_flag, nonce, update_count)) == Ok::<
            (bool, u64, u64),
            PackError,
        >((class_flag, nonce, update_count)),
{
    lemma_pow2_values();
    lemma_pow2_pos(182);
    let f: nat = if class_flag {
        1
    } else {
        0
    };
    let n = nonce as nat;
    let c = update_count as nat;
    let p = packed_short(class_flag, nonce, update_count);
    assert(p == n * 0x400nat + c * 4 + 2 + f);
    assert(p / 2 == n * 0x200nat + c * 2 + 1);
    assert(p / 1 == p);
    assert(p / 4 == n * 0x100nat + c);
    assert(p / 0x400nat == n);
    assert(p / 0x400_0000_0000_0000_0000nat == 0);
    assert(0nat % pow2(182) == 0) by {
        vstd::arithmetic::div_mod::lemma_small_mod(0, pow2(182));
    }
}

} // verus!
