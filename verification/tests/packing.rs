use num_bigint::BigUint;
use num_traits::Num;
use starknet_scrape::felt::Felt;
use starknet_scrape::packing::v0_13_1;
use starknet_scrape::packing::v0_13_3;
use starknet_scrape::packing::PackError;

fn felt(n: &BigUint) -> Felt {
    Felt::from_bytes_be(n.to_bytes_be())
}

fn pack1(class_flag: bool, nonce: u64, update_count: u64) -> Felt {
    let word = (BigUint::from(class_flag as u8) << 128usize)
        + (BigUint::from(nonce) << 64usize)
        + BigUint::from(update_count);
    felt(&word)
}

fn pack3_long(class_flag: bool, nonce: u64, update_count: u64) -> Felt {
    let word = (BigUint::from(nonce) << 66usize)
        + (BigUint::from(update_count) << 2usize)
        + BigUint::from(class_flag as u8);
    felt(&word)
}

fn pack3_short(class_flag: bool, nonce: u64, update_count: u64) -> Felt {
    let word = (BigUint::from(nonce) << 10usize)
        + (BigUint::from(update_count) << 2usize)
        + BigUint::from(2u8)
        + BigUint::from(class_flag as u8);
    felt(&word)
}

#[test]
fn spec_example() {
    let pack_const = v0_13_1::make_pack_const();
    let u = Felt::parse_radix("18446744073709551617", 10).unwrap();
    let (class_flag_bit, nonce, update_count) = pack_const.unpack_contract_update(&u).unwrap();
    assert!(!class_flag_bit);
    assert_eq!(nonce, 1);
    assert_eq!(update_count, 1);
}

#[test]
fn wild_example_first() {
    let pack_const = v0_13_3::make_pack_const();
    let u = Felt::from_u64(46);
    assert_eq!(pack_const.unpack_contract_update(&u), Ok((false, 0, 11)));
}

#[test]
fn wild_example_zero_storage_updates() {
    let pack_const = v0_13_3::make_pack_const();
    let u = Felt::from_u64(3074);
    assert_eq!(pack_const.unpack_contract_update(&u), Ok((false, 3, 0)));
}

#[test]
fn wild_example_long() {
    let pack_const = v0_13_3::make_pack_const();
    let u = Felt::from_u64(0x5b8);
    assert_eq!(pack_const.unpack_contract_update(&u), Ok((false, 0, 366)));
}

#[test]
fn legacy_masks_have_their_values() {
    let pc = v0_13_1::make_pack_const();
    let one = BigUint::from(1u8);
    assert_eq!(pc.top_mask, felt(&(((&one << 127usize) - &one) << 129usize)));
    assert_eq!(pc.class_flag_mask, felt(&(&one << 128usize)));
    assert_eq!(pc.nonce_mask, felt(&(((&one << 64usize) - &one) << 64usize)));
    assert_eq!(pc.update_count_mask, Felt::from_u64(u64::MAX));
    assert_eq!(pc.nonce_shift, 64);
    assert_eq!(pc.update_count_shift, 0);
    assert!(pc.short_flag_mask.is_zero());
    assert_eq!(pc.one.to_u64(), Some(1));
    assert_eq!(pc.two.to_u64(), Some(2));
}

#[test]
fn later_masks_have_their_values() {
    let pc = v0_13_3::make_pack_const();
    let one = BigUint::from(1u8);
    assert_eq!(pc.top_mask, felt(&(((&one << 126usize) - &one) << 130usize)));
    assert_eq!(pc.short_top_mask, felt(&(((&one << 182usize) - &one) << 74usize)));
    assert_eq!(pc.nonce_mask, felt(&(((&one << 64usize) - &one) << 66usize)));
    assert_eq!(pc.short_nonce_mask, felt(&(((&one << 64usize) - &one) << 10usize)));
    assert_eq!(pc.update_count_mask, felt(&(((&one << 64usize) - &one) << 2usize)));
    assert_eq!(pc.short_update_count_mask.to_u64(), Some(255 << 2));
    assert_eq!(pc.class_flag_mask.to_u64(), Some(1));
    assert_eq!(pc.short_flag_mask.to_u64(), Some(2));
    assert_eq!(pc.nonce_shift, 66);
    assert_eq!(pc.short_nonce_shift, 10);
    assert_eq!(pc.update_count_shift, 2);
}

#[test]
fn legacy_round_trip() {
    let pc = v0_13_1::make_pack_const();
    let triples = [
        (false, 0u64, 0u64),
        (true, 5, 2),
        (true, u64::MAX, u64::MAX),
        (false, u64::MAX, 0),
        (true, 0, u64::MAX),
        (false, 1 << 63, 12345),
    ];
    for (f, n, c) in triples {
        assert_eq!(pc.unpack_contract_update(&pack1(f, n, c)), Ok((f, n, c)));
    }
}

#[test]
fn later_long_round_trip() {
    let pc = v0_13_3::make_pack_const();
    let triples = [
        (false, 0u64, 0u64),
        (true, 5, 2),
        (true, u64::MAX, u64::MAX),
        (false, u64::MAX, 256),
        (true, 0, u64::MAX),
    ];
    for (f, n, c) in triples {
        assert_eq!(pc.unpack_contract_update(&pack3_long(f, n, c)), Ok((f, n, c)));
    }
}

#[test]
fn later_short_round_trip() {
    let pc = v0_13_3::make_pack_const();
    let triples = [(false, 0u64, 0u64), (true, 5, 2), (true, u64::MAX, 255), (false, 77, 11)];
    for (f, n, c) in triples {
        assert_eq!(pc.unpack_contract_update(&pack3_short(f, n, c)), Ok((f, n, c)));
    }
}

#[test]
fn legacy_rejects_bit_129() {
    let pc = v0_13_1::make_pack_const();
    let word = felt(&(BigUint::from(1u8) << 129usize));
    assert_eq!(pc.unpack_contract_update(&word), Err(PackError::ExtraHighBits));
    let top = felt(&(BigUint::from(1u8) << 255usize));
    assert_eq!(pc.unpack_contract_update(&top), Err(PackError::ExtraHighBits));
}

#[test]
fn legacy_accepts_all_bits_below_129() {
    let pc = v0_13_1::make_pack_const();
    let word = felt(&((BigUint::from(1u8) << 129usize) - BigUint::from(1u8)));
    assert_eq!(pc.unpack_contract_update(&word), Ok((true, u64::MAX, u64::MAX)));
}

#[test]
fn later_long_rejects_bit_130() {
    let pc = v0_13_3::make_pack_const();
    let word = felt(&(BigUint::from(1u8) << 130usize));
    assert_eq!(pc.unpack_contract_update(&word), Err(PackError::ExtraHighBits));
    let below = felt(&(BigUint::from(1u8) << 129usize));
    assert_eq!(pc.unpack_contract_update(&below), Ok((false, 1 << 63, 0)));
}

#[test]
fn later_short_rejects_bit_74() {
    let pc = v0_13_3::make_pack_const();
    let word = felt(&((BigUint::from(1u8) << 74usize) + BigUint::from(2u8)));
    assert_eq!(pc.unpack_contract_update(&word), Err(PackError::ExtraHighBits));
    let below = felt(&((BigUint::from(1u8) << 73usize) + BigUint::from(2u8)));
    assert_eq!(pc.unpack_contract_update(&below), Ok((false, 1 << 63, 0)));
}

#[test]
fn unpack_takes_a_hexadecimal_word() {
    let pc = v0_13_1::make_pack_const();
    let n = BigUint::from_str_radix("10000000000000005000000000000000a", 16).unwrap();
    assert_eq!(pc.unpack_contract_update(&felt(&n)), Ok((true, 5, 10)));
}
