use num_bigint::BigUint;
use num_traits::Num;
use starknet_scrape::blob_util::{parse_blob_hex, parse_str_to_blob_data, parse_usize, BlobError};
use starknet_scrape::felt::Felt;

fn felt(n: &BigUint) -> Felt {
    Felt::from_bytes_be(n.to_bytes_be())
}

#[test]
fn from_u64_and_back() {
    for n in [0u64, 1, 255, 256, 65535, 1 << 32, u64::MAX - 1, u64::MAX] {
        let f = Felt::from_u64(n);
        assert_eq!(f.to_u64(), Some(n));
        assert_eq!(f.is_zero(), n == 0);
        assert_eq!(f, felt(&BigUint::from(n)));
        assert_eq!(BigUint::from_bytes_be(&f.to_bytes_be()), BigUint::from(n));
    }
}

#[test]
fn to_u64_of_large_elements() {
    let above = felt(&(BigUint::from(1u8) << 64usize));
    assert_eq!(above.to_u64(), None);
    assert_eq!(above.to_usize(), None);
    let top = felt(&((BigUint::from(1u8) << 64usize) - BigUint::from(1u8)));
    assert_eq!(top.to_u64(), Some(u64::MAX));
    let huge = felt(&(BigUint::from(1u8) << 255usize));
    assert_eq!(huge.to_u64(), None);
    assert!(!huge.is_zero());
}

#[test]
fn leading_zero_bytes_count_for_nothing() {
    let f = Felt::from_bytes_be(vec![0, 0, 0, 1, 2]);
    assert_eq!(f.to_u64(), Some(258));
    assert_eq!(f, Felt::from_u64(258));
    assert!(Felt::from_bytes_be(vec![0, 0, 0]).is_zero());
    assert!(Felt::from_bytes_be(Vec::new()).is_zero());
    assert_eq!(Felt::from_bytes_be(Vec::new()), Felt::zero());
    assert_eq!(Felt::from_bytes_be(vec![0; 20]).to_u64(), Some(0));
    assert_eq!(Felt::from_bytes_be(vec![0, 0, 0, 0, 0, 0, 0, 0, 0, 255]).to_u64(), Some(255));
}

#[test]
fn elements_compare_by_value() {
    assert_eq!(Felt::from_u64(7), Felt::from_u64(7));
    assert_ne!(Felt::from_u64(7), Felt::from_u64(8));
    assert_eq!(Felt::from_u64(7).clone(), Felt::from_u64(7));
}

#[test]
fn hexadecimal_and_decimal_text() {
    assert_eq!(Felt::from_u64(0).to_hex(), "0x0");
    assert_eq!(Felt::from_u64(1).to_hex(), "0x1");
    assert_eq!(Felt::from_u64(255).to_hex(), "0xff");
    assert_eq!(Felt::from_u64(0xCAFE).to_hex(), "0xcafe");
    assert_eq!(Felt::from_u64(u64::MAX).to_hex(), "0xffffffffffffffff");
    assert_eq!(Felt::from_u64(0).to_decimal(), "0");
    assert_eq!(Felt::from_u64(1234567890).to_decimal(), "1234567890");
    let p = BigUint::from_str_radix(
        "52435875175126190479447740508185965837690552500527637822603658699938581184513",
        10,
    )
    .unwrap();
    assert_eq!(
        felt(&p).to_hex(),
        "0x73eda753299d7d483339d80809a1d80553bda402fffe5bfeffffffff00000001"
    );
    assert_eq!(
        felt(&p).to_decimal(),
        "52435875175126190479447740508185965837690552500527637822603658699938581184513"
    );
}

#[test]
fn parse_radix_reads_numbers() {
    assert_eq!(Felt::parse_radix("0", 10), Some(Felt::from_u64(0)));
    assert_eq!(Felt::parse_radix("18446744073709551615", 10), Some(Felt::from_u64(u64::MAX)));
    assert_eq!(Felt::parse_radix("ff", 16), Some(Felt::from_u64(255)));
    assert_eq!(Felt::parse_radix("FF", 16), Some(Felt::from_u64(255)));
    assert_eq!(Felt::parse_radix("zz", 36), Some(Felt::from_u64(35 * 36 + 35)));
    assert_eq!(Felt::parse_radix("101", 2), Some(Felt::from_u64(5)));
    assert_eq!(Felt::parse_radix("+12", 10), Some(Felt::from_u64(12)));
    assert_eq!(Felt::parse_radix("1_000", 10), Some(Felt::from_u64(1000)));
    assert_eq!(Felt::parse_radix("1_", 10), Some(Felt::from_u64(1)));
    assert_eq!(Felt::parse_radix("0012", 10), Some(Felt::from_u64(12)));
    let big = Felt::parse_radix("10000000000000000", 16).unwrap();
    assert_eq!(big, felt(&(BigUint::from(1u8) << 64usize)));
}

#[test]
fn parse_radix_refuses_what_is_no_number() {
    assert_eq!(Felt::parse_radix("", 10), None);
    assert_eq!(Felt::parse_radix("+", 10), None);
    assert_eq!(Felt::parse_radix("++1", 10), None);
    assert_eq!(Felt::parse_radix("-1", 10), None);
    assert_eq!(Felt::parse_radix("_1", 10), None);
    assert_eq!(Felt::parse_radix("+_1", 10), None);
    assert_eq!(Felt::parse_radix("12a", 10), None);
    assert_eq!(Felt::parse_radix("g", 16), None);
    assert_eq!(Felt::parse_radix("2", 2), None);
    assert_eq!(Felt::parse_radix(" 1", 10), None);
    assert_eq!(Felt::parse_radix("1 ", 10), None);
    assert_eq!(Felt::parse_radix("0x1", 16), None);
    assert_eq!(Felt::parse_radix("\u{663}", 10), None);
    assert_eq!(Felt::parse_radix("1", 1), None);
    assert_eq!(Felt::parse_radix("1", 37), None);
    assert_eq!(Felt::parse_radix("1", 0), None);
}

#[test]
fn parse_usize_of_elements() {
    assert_eq!(parse_usize(&Felt::from_u64(0)), Ok(0));
    assert_eq!(parse_usize(&Felt::from_u64(4096)), Ok(4096));
    assert!(parse_usize(&felt(&(BigUint::from(1u8) << 64usize))).is_err());
}

#[test]
fn blob_of_zero_words() {
    let text = "0".repeat(4096 * 64);
    let data = parse_str_to_blob_data(&text).unwrap();
    assert_eq!(data.len(), 4096);
    assert!(data.iter().all(|f| f.is_zero()));
}

#[test]
fn blob_with_prefix_and_white_space() {
    let mut text = String::from("  0x");
    for i in 0..4096u32 {
        text.push_str(&format!("{:064x}", i));
    }
    text.push_str("\n\t ");
    let data = parse_str_to_blob_data(&text).unwrap();
    assert_eq!(data.len(), 4096);
    for (i, f) in data.iter().enumerate() {
        assert_eq!(f.to_u64(), Some(i as u64));
    }
}

#[test]
fn blob_words_are_big_endian() {
    let mut text = String::new();
    text.push_str("73eda753299d7d483339d80809a1d80553bda402fffe5bfeffffffff00000001");
    text.push_str(&"A".repeat(64));
    text.push_str(&"0".repeat(4094 * 64));
    let data = parse_blob_hex(text.as_bytes()).unwrap();
    assert_eq!(
        data[0].to_decimal(),
        "52435875175126190479447740508185965837690552500527637822603658699938581184513"
    );
    assert_eq!(data[1].to_hex(), format!("0x{}", "a".repeat(64)));
    assert!(data[2].is_zero());
}

#[test]
fn blob_of_the_wrong_length() {
    assert_eq!(
        parse_str_to_blob_data("").unwrap_err(),
        BlobError::WrongLength { expected: 262144, got: 0 }
    );
    assert_eq!(
        parse_str_to_blob_data("0x").unwrap_err(),
        BlobError::WrongLength { expected: 262144, got: 0 }
    );
    let text = "0".repeat(4096 * 64 - 1);
    assert_eq!(
        parse_str_to_blob_data(&text).unwrap_err(),
        BlobError::WrongLength { expected: 262144, got: 262143 }
    );
    let text = "0".repeat(4096 * 64 + 1);
    assert_eq!(
        parse_str_to_blob_data(&text).unwrap_err(),
        BlobError::WrongLength { expected: 262144, got: 262145 }
    );
    // the prefix is taken off once
    let text = format!("0x0x{}", "0".repeat(4096 * 64 - 2));
    assert_eq!(parse_str_to_blob_data(&text).unwrap_err(), BlobError::InvalidHex);
}

#[test]
fn blob_with_a_bad_digit() {
    let mut text = "0".repeat(4096 * 64);
    text.replace_range(64 * 100 + 5..64 * 100 + 6, "g");
    assert_eq!(parse_str_to_blob_data(&text).unwrap_err(), BlobError::InvalidHex);
    let mut text = "0".repeat(4096 * 64 - 1);
    text.push('\u{e9}');
    assert_eq!(
        parse_str_to_blob_data(&text).unwrap_err(),
        BlobError::WrongLength { expected: 262144, got: 262145 }
    );
    let mut text = "0".repeat(4096 * 64 - 2);
    text.push('\u{e9}');
    assert_eq!(parse_str_to_blob_data(&text).unwrap_err(), BlobError::InvalidHex);
}
