use num_bigint::BigUint;
use num_traits::Zero;
use starknet_scrape::decomp::{
    extend_with_repeats, get_bucket_offsets, get_n_elms_per_felt, unpack_felt, unpack_header,
    DecompError, Decompressor,
};
use starknet_scrape::felt::Felt;

fn felt(n: &BigUint) -> Felt {
    Felt::from_bytes_be(n.to_bytes_be())
}

fn big(f: &Felt) -> BigUint {
    BigUint::from_bytes_be(&f.to_bytes_be())
}

fn felts(ns: &[u64]) -> Vec<Felt> {
    ns.iter().map(|n| Felt::from_u64(*n)).collect()
}

fn header(sizes: [u64; 8]) -> BigUint {
    let mut h = BigUint::zero();
    for (i, s) in sizes.iter().enumerate() {
        h += BigUint::from(*s) << (20 * (i + 1));
    }
    h
}

fn pack(values: &[BigUint], bound: &BigUint, per_felt: usize) -> Vec<BigUint> {
    let mut out = Vec::new();
    for chunk in values.chunks(per_felt) {
        let mut word = BigUint::zero();
        for v in chunk.iter().rev() {
            word = word * bound + v;
        }
        out.push(word);
    }
    out
}

fn bucket_of(v: &BigUint) -> usize {
    let widths = [252u64, 125, 83, 62, 31, 15];
    let mut b = 0;
    for (i, w) in widths.iter().enumerate() {
        if v.bits() <= *w {
            b = i;
        }
    }
    b
}

// the compression that the decompressor undoes
fn compress(data: &[BigUint]) -> Vec<BigUint> {
    let mut buckets: Vec<Vec<BigUint>> = vec![Vec::new(); 6];
    let mut seen: Vec<BigUint> = Vec::new();
    for v in data {
        if !seen.contains(v) {
            seen.push(v.clone());
            buckets[bucket_of(v)].push(v.clone());
        }
    }
    let unique: Vec<BigUint> = buckets.iter().flatten().cloned().collect();
    let mut first = vec![true; unique.len()];
    let mut pointers = Vec::new();
    let mut indices = Vec::new();
    for v in data {
        let at = unique.iter().position(|u| u == v).unwrap();
        if first[at] {
            first[at] = false;
            indices.push(BigUint::from(bucket_of(v)));
        } else {
            pointers.push(BigUint::from(at));
            indices.push(BigUint::from(6u8));
        }
    }
    let mut sizes = [0u64; 8];
    sizes[0] = data.len() as u64;
    for b in 0..6 {
        sizes[b + 1] = buckets[b].len() as u64;
    }
    sizes[7] = pointers.len() as u64;
    let mut out = vec![header(sizes)];
    out.extend(buckets[0].iter().cloned());
    let widths = [125usize, 83, 62, 31, 15];
    let counts = [2usize, 3, 4, 8, 16];
    for b in 1..6 {
        let bound = BigUint::from(1u8) << widths[b - 1];
        out.extend(pack(&buckets[b], &bound, counts[b - 1]));
    }
    if !pointers.is_empty() {
        let bound = BigUint::from(unique.len());
        out.extend(pack(&pointers, &bound, get_n_elms_per_felt(unique.len())));
    }
    out.extend(pack(&indices, &BigUint::from(7u8), 83));
    out
}

fn decompress(seq: &[BigUint]) -> Result<(Vec<BigUint>, usize), DecompError> {
    let input: Vec<Felt> = seq.iter().map(felt).collect();
    Decompressor::decompress(input).map(|(data, n)| (data.iter().map(big).collect(), n))
}

#[test]
fn test_dyn_packing_count() {
    assert_eq!(get_n_elms_per_felt(2_usize.pow(15) - 1), 16);
    assert_eq!(get_n_elms_per_felt(7), 83);
}

#[test]
fn packing_count_of_small_bounds() {
    assert_eq!(get_n_elms_per_felt(0), 251);
    assert_eq!(get_n_elms_per_felt(1), 251);
    assert_eq!(get_n_elms_per_felt(2), 251);
    assert_eq!(get_n_elms_per_felt(3), 125);
    assert_eq!(get_n_elms_per_felt(4), 125);
    assert_eq!(get_n_elms_per_felt(5), 83);
    assert_eq!(get_n_elms_per_felt(2_usize.pow(15)), 16);
    assert_eq!(get_n_elms_per_felt(2_usize.pow(15) + 1), 15);
    assert_eq!(get_n_elms_per_felt(usize::MAX), 251 / (usize::BITS as usize));
}

#[test]
fn bucket_offsets_are_prefix_sums() {
    assert_eq!(get_bucket_offsets(&[3, 0, 2, 5]), vec![0, 3, 3, 5]);
    assert_eq!(get_bucket_offsets(&[]), Vec::<usize>::new());
    assert_eq!(get_bucket_offsets(&[7]), vec![0]);
}

#[test]
fn unpack_felt_takes_digits_from_the_low_end() {
    let (out, rest) = unpack_felt(Felt::from_u64(1234567), &Felt::from_u64(10), 4).unwrap();
    assert_eq!(out, felts(&[7, 6, 5, 4]));
    assert_eq!(rest, Felt::from_u64(123));
}

#[test]
fn unpack_felt_of_nothing_wants_zero() {
    let (out, rest) = unpack_felt(Felt::zero(), &Felt::from_u64(10), 0).unwrap();
    assert!(out.is_empty());
    assert!(rest.is_zero());
    assert_eq!(
        unpack_felt(Felt::from_u64(1), &Felt::from_u64(10), 0),
        Err(DecompError::LeftoverBits)
    );
}

#[test]
fn header_gives_eight_sizes() {
    let h = header([9, 1, 2, 3, 4, 5, 6, 7]);
    assert_eq!(unpack_header(felt(&h)), Ok(vec![9, 1, 2, 3, 4, 5, 6, 7]));
    let largest = header([0xfffff; 8]);
    assert_eq!(unpack_header(felt(&largest)), Ok(vec![0xfffff; 8]));
}

#[test]
fn header_with_a_version_is_refused() {
    let h = header([1, 1, 0, 0, 0, 0, 0, 0]) + BigUint::from(1u8);
    assert_eq!(unpack_header(felt(&h)), Err(DecompError::InvalidVersion));
}

#[test]
fn header_with_high_bits_is_refused() {
    let h = header([1, 1, 0, 0, 0, 0, 0, 0]) + (BigUint::from(1u8) << 180usize);
    assert_eq!(unpack_header(felt(&h)), Err(DecompError::HighHeaderBits));
    // the high bits are looked at before the version
    let both = h + BigUint::from(1u8);
    assert_eq!(unpack_header(felt(&both)), Err(DecompError::HighHeaderBits));
}

#[test]
fn repeats_are_appended() {
    let mut values = felts(&[10, 20, 30]);
    extend_with_repeats(&mut values, &felts(&[2, 0, 2]));
    assert_eq!(values, felts(&[10, 20, 30, 30, 10, 30]));
}

#[test]
fn nothing_to_decompress() {
    assert_eq!(decompress(&[]), Err(DecompError::NothingToDecompress));
}

#[test]
fn minimal_header() {
    let element = BigUint::from(1u8) << 200usize;
    let seq = vec![
        header([1, 1, 0, 0, 0, 0, 0, 0]),
        element.clone(),
        BigUint::zero(),
        BigUint::zero(),
        BigUint::zero(),
    ];
    assert_eq!(decompress(&seq), Ok((vec![element], 2)));
}

#[test]
fn minimal_header_without_tail() {
    let element = BigUint::from(77u8);
    let seq = vec![header([1, 1, 0, 0, 0, 0, 0, 0]), element.clone(), BigUint::zero()];
    assert_eq!(decompress(&seq), Ok((vec![element], 0)));
}

#[test]
fn empty_payload() {
    let seq = vec![header([0; 8]), BigUint::zero(), BigUint::zero()];
    assert_eq!(decompress(&seq), Ok((vec![], 2)));
}

#[test]
fn missing_large_element() {
    let seq = vec![header([3, 3, 0, 0, 0, 0, 0, 0]), BigUint::from(5u8)];
    assert_eq!(
        decompress(&seq),
        Err(DecompError::MissingLargeElement { index: 1, of: 3 })
    );
}

#[test]
fn exhausted_within_a_bucket() {
    // three values of 125 bits take two elements
    let seq = vec![header([3, 0, 3, 0, 0, 0, 0, 0]), BigUint::from(5u8)];
    assert_eq!(decompress(&seq), Err(DecompError::Exhausted));
}

#[test]
fn high_bits_in_a_full_element() {
    let word = BigUint::from(1u8) << 250usize;
    let seq = vec![header([2, 0, 2, 0, 0, 0, 0, 0]), word, BigUint::zero()];
    assert_eq!(decompress(&seq), Err(DecompError::HighBits));
}

#[test]
fn high_bits_in_the_last_element() {
    // the second element packs one value of 125 bits
    let word = BigUint::from(1u8) << 125usize;
    let seq = vec![header([3, 0, 3, 0, 0, 0, 0, 0]), BigUint::zero(), word, BigUint::zero()];
    assert_eq!(decompress(&seq), Err(DecompError::HighBits));
}

#[test]
fn length_mismatch() {
    let seq = vec![header([5, 1, 0, 0, 0, 0, 0, 1]), BigUint::from(9u8)];
    assert_eq!(
        decompress(&seq),
        Err(DecompError::LengthMismatch { uncompressed: 5, unique: 1, repeating: 1 })
    );
}

#[test]
fn repeats_of_nothing() {
    let seq = vec![header([1, 0, 0, 0, 0, 0, 0, 1]), BigUint::zero(), BigUint::zero()];
    assert_eq!(decompress(&seq), Err(DecompError::NoUniqueValues));
}

#[test]
fn bucket_overrun() {
    // two positions ask for the one value of bucket 0
    let seq = vec![
        header([2, 1, 0, 0, 0, 0, 1, 0]),
        BigUint::from(9u8),
        BigUint::from(3u8),
        BigUint::zero(),
    ];
    assert_eq!(decompress(&seq), Ok((vec![BigUint::from(9u8), BigUint::from(3u8)], 0)));
    let seq = vec![
        header([2, 1, 0, 0, 0, 0, 0, 1]),
        BigUint::from(9u8),
        BigUint::zero(),
        BigUint::from(6u8 * 7 + 6),
    ];
    assert_eq!(decompress(&seq), Err(DecompError::BucketOverrun));
}

#[test]
fn extra_tail() {
    let seq = vec![
        header([1, 1, 0, 0, 0, 0, 0, 0]),
        BigUint::from(9u8),
        BigUint::zero(),
        BigUint::zero(),
        BigUint::from(1u8),
    ];
    assert_eq!(decompress(&seq), Err(DecompError::ExtraTail));
}

#[test]
fn check_zero_tail_counts_the_rest() {
    let mut d = Decompressor { current: felts(&[5, 0, 0, 0]), pos: 1, sizes: vec![0; 8] };
    assert_eq!(d.check_zero_tail(), Ok(3));
    let mut d = Decompressor { current: felts(&[5, 0, 1, 0]), pos: 1, sizes: vec![0; 8] };
    assert_eq!(d.check_zero_tail(), Err(DecompError::ExtraTail));
    let mut d = Decompressor { current: felts(&[5]), pos: 1, sizes: vec![0; 8] };
    assert_eq!(d.check_zero_tail(), Ok(0));
}

#[test]
fn unpack_felts_reads_a_section() {
    let mut d = Decompressor { current: felts(&[321, 54]), pos: 0, sizes: vec![0; 8] };
    let mut dst = Vec::new();
    assert_eq!(d.unpack_felts(5, &Felt::from_u64(10), 3, &mut dst), Ok(()));
    assert_eq!(dst, felts(&[1, 2, 3, 4, 5]));
    assert_eq!(d.pos, 2);
}

#[test]
fn round_trip_of_mixed_widths() {
    let one = BigUint::from(1u8);
    let data = vec![
        BigUint::from(5u8),
        &one << 251usize,
        &one << 124usize,
        BigUint::from(5u8),
        &one << 82usize,
        &one << 61usize,
        &one << 30usize,
        &one << 14usize,
        &one << 251usize,
        BigUint::zero(),
        BigUint::from(5u8),
        (&one << 15usize) - &one,
        &one << 15usize,
    ];
    let mut seq = compress(&data);
    seq.push(BigUint::zero());
    seq.push(BigUint::zero());
    assert_eq!(decompress(&seq), Ok((data, 2)));
}

#[test]
fn round_trip_of_many_values() {
    let mut data = Vec::new();
    let mut x = BigUint::from(12345u32);
    let modulus = BigUint::from(1u8) << 251usize;
    for i in 0..700u32 {
        x = (&x * &x + BigUint::from(i)) % &modulus;
        let width = [15usize, 31, 62, 83, 125, 251][(i % 6) as usize];
        data.push(&x % (BigUint::from(1u8) << width));
        if i % 5 == 0 {
            data.push(data[(i / 2) as usize].clone());
        }
    }
    let seq = compress(&data);
    assert_eq!(decompress(&seq), Ok((data, 0)));
}

#[test]
fn round_trip_of_one_repeated_value() {
    let data = vec![BigUint::from(42u8); 200];
    let seq = compress(&data);
    assert_eq!(decompress(&seq), Ok((data, 0)));
}
