use num_bigint::BigUint;
use starknet_scrape::felt::Felt;
use starknet_scrape::lookup::{Lookup, LookupError};
use starknet_scrape::packing::v0_13_1;
use starknet_scrape::packing::v0_13_3;
use starknet_scrape::packing::PackError;
use starknet_scrape::parser::{
    Annotation, ContractError, DeclarationError, ParseError, StateUpdateParser, StorageError,
};
use starknet_scrape::state_diff::{BlockRange, StateDiff};

fn felt(n: &BigUint) -> Felt {
    Felt::from_bytes_be(n.to_bytes_be())
}

fn felts(ns: &[u64]) -> Vec<Felt> {
    ns.iter().map(|n| Felt::from_u64(*n)).collect()
}

fn pack1(class_flag: bool, nonce: u64, update_count: u64) -> Felt {
    let word = (BigUint::from(class_flag as u8) << 128usize)
        + (BigUint::from(nonce) << 64usize)
        + BigUint::from(update_count);
    felt(&word)
}

fn pack3(class_flag: bool, nonce: u64, update_count: u64) -> Felt {
    let word = (BigUint::from(nonce) << 66usize)
        + (BigUint::from(update_count) << 2usize)
        + BigUint::from(class_flag as u8);
    felt(&word)
}

fn parse1(seq: Vec<Felt>) -> Result<StateDiff, ParseError> {
    let mut lookup = Lookup::new();
    let mut anno = Vec::new();
    StateUpdateParser::parse(seq, v0_13_1::make_pack_const(), &mut lookup, &mut anno)
}

fn parse3(seq: Vec<Felt>, lookup: &mut Lookup) -> Result<StateDiff, ParseError> {
    let mut anno = Vec::new();
    StateUpdateParser::parse(seq, v0_13_3::make_pack_const(), lookup, &mut anno)
}

// the blob that brings stateful compression in: the sequence number
// contract with one update, then the alias contract with the counter and
// two aliases
fn introduction(a: u64, b: u64) -> Vec<Felt> {
    vec![
        Felt::from_u64(2),
        Felt::from_u64(1),
        pack3(false, 0, 1),
        Felt::from_u64(100),
        Felt::from_u64(42),
        Felt::from_u64(2),
        pack3(false, 0, 3),
        Felt::from_u64(0),
        Felt::from_u64(130),
        Felt::from_u64(a),
        Felt::from_u64(128),
        Felt::from_u64(b),
        Felt::from_u64(129),
        Felt::from_u64(0),
        Felt::from_u64(0),
        Felt::from_u64(0),
    ]
}

#[test]
fn empty_sequence() {
    assert_eq!(parse1(Vec::new()).unwrap_err(), ParseError::MissingContractCount);
}

#[test]
fn all_zero_sequence_is_an_empty_diff() {
    let diff = parse1(felts(&[0; 4096])).unwrap();
    assert!(diff.contract_updates.is_empty());
    assert!(diff.class_declarations.is_empty());
    assert_eq!(diff.range, BlockRange { min_seq_no: None, max_seq_no: None });
    assert_eq!(diff.tail_size, 4094);
}

#[test]
fn single_contract_no_storage() {
    let seq = vec![Felt::from_u64(1), Felt::from_u64(1), pack1(false, 0, 0), Felt::from_u64(0)];
    let diff = parse1(seq).unwrap();
    assert_eq!(diff.contract_updates.len(), 1);
    let cu = &diff.contract_updates[0];
    assert_eq!(cu.address, Felt::from_u64(1));
    assert_eq!(cu.nonce, 0);
    assert_eq!(cu.new_class_hash, None);
    assert!(cu.storage_updates.is_empty());
    assert!(diff.class_declarations.is_empty());
    assert_eq!(diff.tail_size, 0);
}

#[test]
fn contract_with_class_update() {
    let seq = vec![
        Felt::from_u64(1),
        Felt::from_u64(1),
        pack1(true, 5, 2),
        Felt::from_u64(0xCAFE),
        Felt::from_u64(11),
        Felt::from_u64(12),
        Felt::from_u64(21),
        Felt::from_u64(22),
        Felt::from_u64(0),
    ];
    let diff = parse1(seq).unwrap();
    assert_eq!(diff.contract_updates.len(), 1);
    let cu = &diff.contract_updates[0];
    assert_eq!(cu.address, Felt::from_u64(1));
    assert_eq!(cu.nonce, 5);
    assert_eq!(cu.new_class_hash, Some(Felt::from_u64(0xCAFE)));
    assert_eq!(cu.storage_updates.len(), 2);
    assert_eq!(cu.storage_updates[0].key, Felt::from_u64(11));
    assert_eq!(cu.storage_updates[0].value, Felt::from_u64(12));
    assert_eq!(cu.storage_updates[1].key, Felt::from_u64(21));
    assert_eq!(cu.storage_updates[1].value, Felt::from_u64(22));
    // the keys of contract 1 are sequence numbers
    assert_eq!(diff.range, BlockRange { min_seq_no: Some(11), max_seq_no: Some(21) });
    assert_eq!(diff.tail_size, 0);
}

#[test]
fn the_count_is_the_number_of_storage_updates() {
    for count in [0u64, 1, 3, 7] {
        for flag in [false, true] {
            let mut seq = vec![Felt::from_u64(1), Felt::from_u64(77), pack1(flag, 9, count)];
            if flag {
                seq.push(Felt::from_u64(0xabc));
            }
            for i in 0..count {
                seq.push(Felt::from_u64(1000 + i));
                seq.push(Felt::from_u64(2000 + i));
            }
            seq.push(Felt::from_u64(0));
            let diff = parse1(seq).unwrap();
            let cu = &diff.contract_updates[0];
            assert_eq!(cu.storage_updates.len() as u64, count);
            assert_eq!(cu.new_class_hash.is_some(), flag);
            assert_eq!(cu.nonce, 9);
        }
    }
}

#[test]
fn class_declarations_and_tail() {
    let seq = felts(&[0, 2, 10, 11, 20, 21, 0, 0, 0]);
    let diff = parse1(seq).unwrap();
    assert!(diff.contract_updates.is_empty());
    assert_eq!(diff.class_declarations.len(), 2);
    assert_eq!(diff.class_declarations[0].class_hash, Felt::from_u64(10));
    assert_eq!(diff.class_declarations[0].compiled_class_hash, Felt::from_u64(11));
    assert_eq!(diff.class_declarations[1].class_hash, Felt::from_u64(20));
    assert_eq!(diff.class_declarations[1].compiled_class_hash, Felt::from_u64(21));
    assert_eq!(diff.tail_size, 3);
}

#[test]
fn every_element_is_annotated() {
    let seq = vec![
        Felt::from_u64(1),
        Felt::from_u64(5),
        pack1(true, 3, 1),
        Felt::from_u64(0xabc),
        Felt::from_u64(7),
        Felt::from_u64(8),
        Felt::from_u64(1),
        Felt::from_u64(30),
        Felt::from_u64(31),
        Felt::from_u64(0),
    ];
    let mut lookup = Lookup::new();
    let mut anno = Vec::new();
    let packed = pack1(true, 3, 1);
    StateUpdateParser::parse(seq, v0_13_1::make_pack_const(), &mut lookup, &mut anno).unwrap();
    assert_eq!(anno.len(), 10);
    assert!(matches!(&anno[0], Annotation::Count(f) if *f == Felt::from_u64(1)));
    assert!(matches!(&anno[1], Annotation::Address(f) if *f == Felt::from_u64(5)));
    assert!(matches!(
        &anno[2],
        Annotation::Packed { word, nonce: 3, update_count: 1, class_flag: true } if *word == packed
    ));
    assert!(matches!(&anno[3], Annotation::ClassHash(f) if *f == Felt::from_u64(0xabc)));
    assert!(matches!(&anno[4], Annotation::Key(f) if *f == Felt::from_u64(7)));
    assert!(matches!(&anno[5], Annotation::Value(f) if *f == Felt::from_u64(8)));
    assert!(matches!(&anno[6], Annotation::Count(f) if *f == Felt::from_u64(1)));
    assert!(matches!(&anno[7], Annotation::DeclaredClassHash(f) if *f == Felt::from_u64(30)));
    assert!(matches!(&anno[8], Annotation::CompiledClassHash(f) if *f == Felt::from_u64(31)));
    assert!(matches!(&anno[9], Annotation::Tail(f) if f.is_zero()));
}

#[test]
fn annotations_are_appended() {
    let mut lookup = Lookup::new();
    let mut anno = vec![Annotation::Count(Felt::from_u64(9))];
    let r =
        StateUpdateParser::parse(felts(&[0, 0]), v0_13_1::make_pack_const(), &mut lookup, &mut anno);
    assert!(r.is_ok());
    assert_eq!(anno.len(), 3);
    assert!(matches!(&anno[0], Annotation::Count(f) if *f == Felt::from_u64(9)));
}

#[test]
fn zero_address() {
    let seq = felts(&[1, 0, 0, 0]);
    assert_eq!(
        parse1(seq).unwrap_err(),
        ParseError::Contract { index: 0, of: 1, kind: ContractError::ZeroAddress }
    );
}

#[test]
fn contract_whose_address_is_an_empty_packed_word() {
    // one contract, whose address is the packed word of nothing
    let seq = vec![Felt::from_u64(1), pack1(false, 0, 0), Felt::from_u64(0)];
    assert_eq!(
        parse1(seq).unwrap_err(),
        ParseError::Contract { index: 0, of: 1, kind: ContractError::ZeroAddress }
    );
}

#[test]
fn missing_parts_of_a_contract() {
    assert_eq!(
        parse1(felts(&[1])).unwrap_err(),
        ParseError::Contract { index: 0, of: 1, kind: ContractError::MissingAddress }
    );
    assert_eq!(
        parse1(felts(&[2, 5, 0])).unwrap_err(),
        ParseError::Contract { index: 1, of: 2, kind: ContractError::MissingAddress }
    );
    assert_eq!(
        parse1(felts(&[1, 5])).unwrap_err(),
        ParseError::Contract { index: 0, of: 1, kind: ContractError::MissingPacked }
    );
    assert_eq!(
        parse1(vec![Felt::from_u64(1), Felt::from_u64(5), pack1(true, 0, 0)]).unwrap_err(),
        ParseError::Contract { index: 0, of: 1, kind: ContractError::MissingClassHash }
    );
    assert_eq!(
        parse1(vec![Felt::from_u64(1), Felt::from_u64(5), pack1(false, 0, 2), Felt::from_u64(1), Felt::from_u64(1)])
            .unwrap_err(),
        ParseError::Contract {
            index: 0,
            of: 1,
            kind: ContractError::Storage { index: 1, of: 2, kind: StorageError::MissingKey }
        }
    );
    assert_eq!(
        parse1(vec![Felt::from_u64(1), Felt::from_u64(5), pack1(false, 0, 1), Felt::from_u64(1)])
            .unwrap_err(),
        ParseError::Contract {
            index: 0,
            of: 1,
            kind: ContractError::Storage { index: 0, of: 1, kind: StorageError::MissingValue }
        }
    );
}

#[test]
fn packed_word_with_high_bits() {
    let word = felt(&(BigUint::from(1u8) << 200usize));
    assert_eq!(
        parse1(vec![Felt::from_u64(1), Felt::from_u64(5), word]).unwrap_err(),
        ParseError::Contract {
            index: 0,
            of: 1,
            kind: ContractError::Unpack(PackError::ExtraHighBits)
        }
    );
}

#[test]
fn counts_that_are_too_large() {
    let huge = felt(&(BigUint::from(1u8) << 64usize));
    assert_eq!(parse1(vec![huge.clone()]).unwrap_err(), ParseError::ContractCountTooLarge);
    assert_eq!(
        parse1(vec![Felt::from_u64(0), huge]).unwrap_err(),
        ParseError::DeclarationCountTooLarge
    );
}

#[test]
fn missing_parts_of_the_declarations() {
    assert_eq!(parse1(felts(&[0])).unwrap_err(), ParseError::MissingDeclarationCount);
    assert_eq!(
        parse1(felts(&[0, 1])).unwrap_err(),
        ParseError::Declaration { index: 0, of: 1, kind: DeclarationError::MissingClassHash }
    );
    assert_eq!(
        parse1(felts(&[0, 2, 1, 1, 1])).unwrap_err(),
        ParseError::Declaration {
            index: 1,
            of: 2,
            kind: DeclarationError::MissingCompiledClassHash
        }
    );
}

#[test]
fn extra_tail_after_declarations() {
    assert_eq!(parse1(felts(&[0, 0, 0, 1, 0])).unwrap_err(), ParseError::ExtraTail);
}

#[test]
fn sequence_number_that_is_too_large() {
    let key = felt(&(BigUint::from(1u8) << 64usize));
    let seq = vec![Felt::from_u64(1), Felt::from_u64(1), pack1(false, 0, 1), key, Felt::from_u64(0)];
    assert_eq!(
        parse1(seq).unwrap_err(),
        ParseError::Contract {
            index: 0,
            of: 1,
            kind: ContractError::Storage { index: 0, of: 1, kind: StorageError::SeqNoTooLarge }
        }
    );
}

#[test]
fn sequence_numbers_widen_the_range() {
    let seq = vec![
        Felt::from_u64(1),
        Felt::from_u64(1),
        pack1(false, 0, 3),
        Felt::from_u64(50),
        Felt::from_u64(0),
        Felt::from_u64(40),
        Felt::from_u64(0),
        Felt::from_u64(60),
        Felt::from_u64(0),
        Felt::from_u64(0),
    ];
    let diff = parse1(seq).unwrap();
    assert_eq!(diff.range, BlockRange { min_seq_no: Some(40), max_seq_no: Some(60) });
}

#[test]
fn stateful_compression_introduction() {
    let mut lookup = Lookup::new();
    lookup.set_block_no(1000);
    let diff = parse3(introduction(0xA, 0xB), &mut lookup).unwrap();
    assert_eq!(diff.contract_updates.len(), 2);
    assert_eq!(diff.contract_updates[0].address, Felt::from_u64(1));
    assert_eq!(diff.contract_updates[1].address, Felt::from_u64(2));
    assert_eq!(diff.contract_updates[1].storage_updates.len(), 3);
    assert_eq!(diff.range, BlockRange { min_seq_no: Some(100), max_seq_no: Some(100) });
    assert_eq!(diff.tail_size, 2);
    assert_eq!(lookup.get_table_size(), 2);
    assert_eq!(lookup.get(128), Ok(Felt::from_u64(0xA)));
    assert_eq!(lookup.get(129), Ok(Felt::from_u64(0xB)));
    assert_eq!(lookup.get_crest(), Some(1000));
    assert_eq!(lookup.get_stateful_start(), Some(1000));

    // a later blob names the address and a key by their indices
    lookup.set_block_no(1001);
    let seq = vec![
        Felt::from_u64(2),
        Felt::from_u64(1),
        pack3(false, 0, 1),
        Felt::from_u64(101),
        Felt::from_u64(43),
        Felt::from_u64(128),
        pack3(false, 7, 2),
        Felt::from_u64(129),
        Felt::from_u64(5),
        Felt::from_u64(17),
        Felt::from_u64(6),
        Felt::from_u64(0),
    ];
    let diff = parse3(seq, &mut lookup).unwrap();
    assert_eq!(diff.contract_updates[1].address, Felt::from_u64(0xA));
    assert_eq!(diff.contract_updates[1].nonce, 7);
    assert_eq!(diff.contract_updates[1].storage_updates[0].key, Felt::from_u64(0xB));
    assert_eq!(diff.contract_updates[1].storage_updates[0].value, Felt::from_u64(5));
    // a key below the first index stands for itself
    assert_eq!(diff.contract_updates[1].storage_updates[1].key, Felt::from_u64(17));
    assert_eq!(lookup.get_table_size(), 2);
    assert_eq!(lookup.get_crest(), Some(1000));
}

#[test]
fn replay_of_a_committed_block() {
    let mut lookup = Lookup::new();
    lookup.set_block_no(1000);
    let first = parse3(introduction(0xA, 0xB), &mut lookup).unwrap();
    // the same blob again, with other aliases: the table is as it was
    let again = parse3(introduction(0xC, 0xD), &mut lookup).unwrap();
    assert_eq!(again.contract_updates.len(), first.contract_updates.len());
    assert_eq!(again.range, first.range);
    assert_eq!(again.contract_updates[1].storage_updates.len(), 3);
    assert_eq!(lookup.get_table_size(), 2);
    assert_eq!(lookup.get_scratchpad_size(), 0);
    assert_eq!(lookup.get(128), Ok(Felt::from_u64(0xA)));
    assert_eq!(lookup.get(129), Ok(Felt::from_u64(0xB)));
    assert_eq!(lookup.get_crest(), Some(1000));
}

#[test]
fn a_contract_after_the_alias_contract() {
    let mut lookup = Lookup::new();
    lookup.set_block_no(1000);
    let seq = vec![
        Felt::from_u64(3),
        Felt::from_u64(1),
        pack3(false, 0, 0),
        Felt::from_u64(2),
        pack3(false, 0, 1),
        Felt::from_u64(0xA),
        Felt::from_u64(128),
        Felt::from_u64(128),
        pack3(false, 0, 0),
        Felt::from_u64(0),
    ];
    // once the aliases are committed, the contracts behind are looked up
    let diff = parse3(seq, &mut lookup).unwrap();
    assert_eq!(diff.contract_updates[2].address, Felt::from_u64(0xA));
}

#[test]
fn an_address_without_its_alias() {
    let mut lookup = Lookup::new();
    lookup.set_block_no(1000);
    parse3(introduction(0xA, 0xB), &mut lookup).unwrap();
    lookup.set_block_no(1001);
    let seq = vec![
        Felt::from_u64(2),
        Felt::from_u64(1),
        pack3(false, 0, 0),
        Felt::from_u64(500),
        pack3(false, 0, 0),
        Felt::from_u64(0),
    ];
    assert_eq!(
        parse3(seq, &mut lookup).unwrap_err(),
        ParseError::Contract {
            index: 1,
            of: 2,
            kind: ContractError::Lookup(LookupError::NotFound(500))
        }
    );
    let seq = vec![
        Felt::from_u64(3),
        Felt::from_u64(1),
        pack3(false, 0, 0),
        Felt::from_u64(128),
        pack3(false, 0, 0),
        Felt::from_u64(100),
        pack3(false, 0, 0),
        Felt::from_u64(0),
    ];
    assert_eq!(
        parse3(seq, &mut lookup).unwrap_err(),
        ParseError::Contract {
            index: 2,
            of: 3,
            kind: ContractError::Lookup(LookupError::IndexTooSmall(100))
        }
    );
}

#[test]
fn without_a_table_addresses_stand_for_themselves() {
    let mut lookup = Lookup::new();
    lookup.set_block_no(1000);
    let seq = vec![
        Felt::from_u64(3),
        Felt::from_u64(1),
        pack3(false, 0, 0),
        Felt::from_u64(500),
        pack3(false, 0, 1),
        Felt::from_u64(600),
        Felt::from_u64(1),
        Felt::from_u64(1),
        pack3(false, 0, 0),
        Felt::from_u64(0),
    ];
    let diff = parse3(seq, &mut lookup).unwrap();
    assert_eq!(diff.contract_updates[1].address, Felt::from_u64(500));
    assert_eq!(diff.contract_updates[1].storage_updates[0].key, Felt::from_u64(600));
    assert_eq!(diff.contract_updates[2].address, Felt::from_u64(1));
}

#[test]
fn repeated_alias_is_refused() {
    let mut lookup = Lookup::new();
    lookup.set_block_no(1000);
    let seq = vec![
        Felt::from_u64(2),
        Felt::from_u64(1),
        pack3(false, 0, 0),
        Felt::from_u64(2),
        pack3(false, 0, 2),
        Felt::from_u64(0xA),
        Felt::from_u64(128),
        Felt::from_u64(0xB),
        Felt::from_u64(128),
        Felt::from_u64(0),
    ];
    assert_eq!(
        parse3(seq, &mut lookup).unwrap_err(),
        ParseError::Contract {
            index: 1,
            of: 2,
            kind: ContractError::Storage {
                index: 1,
                of: 2,
                kind: StorageError::Lookup(LookupError::IndexRepeated(128))
            }
        }
    );
}

#[test]
fn aliases_with_a_gap_are_refused() {
    let mut lookup = Lookup::new();
    lookup.set_block_no(1000);
    let seq = vec![
        Felt::from_u64(2),
        Felt::from_u64(1),
        pack3(false, 0, 0),
        Felt::from_u64(2),
        pack3(false, 0, 2),
        Felt::from_u64(0xA),
        Felt::from_u64(128),
        Felt::from_u64(0xB),
        Felt::from_u64(130),
        Felt::from_u64(0),
    ];
    assert_eq!(
        parse3(seq, &mut lookup).unwrap_err(),
        ParseError::Contract {
            index: 1,
            of: 2,
            kind: ContractError::Lookup(LookupError::NotConsecutive(130))
        }
    );
    assert_eq!(lookup.get_table_size(), 0);
}

#[test]
fn alias_index_that_is_too_large() {
    let mut lookup = Lookup::new();
    lookup.set_block_no(1000);
    let seq = vec![
        Felt::from_u64(2),
        Felt::from_u64(1),
        pack3(false, 0, 0),
        Felt::from_u64(2),
        pack3(false, 0, 1),
        Felt::from_u64(0xA),
        felt(&(BigUint::from(1u8) << 64usize)),
        Felt::from_u64(0),
    ];
    assert_eq!(
        parse3(seq, &mut lookup).unwrap_err(),
        ParseError::Contract {
            index: 1,
            of: 2,
            kind: ContractError::Storage {
                index: 0,
                of: 1,
                kind: StorageError::AliasIndexTooLarge
            }
        }
    );
}

#[test]
fn lookup_without_a_block() {
    let mut lookup = Lookup::restore(vec![Felt::from_u64(0xA)], Some(5), Some(5));
    let seq = vec![
        Felt::from_u64(2),
        Felt::from_u64(1),
        pack3(false, 0, 0),
        Felt::from_u64(128),
        pack3(false, 0, 0),
        Felt::from_u64(0),
    ];
    assert_eq!(
        parse3(seq, &mut lookup).unwrap_err(),
        ParseError::Contract {
            index: 1,
            of: 2,
            kind: ContractError::Lookup(LookupError::BlockNotSet)
        }
    );
}

#[test]
fn parser_reads_step_by_step() {
    let seq = vec![
        Felt::from_u64(7),
        pack1(true, 4, 1),
        Felt::from_u64(0xbeef),
        Felt::from_u64(1),
        Felt::from_u64(2),
        Felt::from_u64(9),
    ];
    let mut lookup = Lookup::new();
    let mut parser = StateUpdateParser::new(seq, v0_13_1::make_pack_const());
    let cu = parser.parse_contract_update(&mut lookup).unwrap();
    assert_eq!(cu.address, Felt::from_u64(7));
    assert_eq!(cu.nonce, 4);
    assert_eq!(cu.new_class_hash, Some(Felt::from_u64(0xbeef)));
    assert_eq!(cu.storage_updates.len(), 1);
    assert_eq!(parser.annotations().len(), 5);
    assert_eq!(
        parser.parse_storage_update(&mut lookup).unwrap_err(),
        StorageError::MissingValue
    );
    assert_eq!(parser.annotations().len(), 6);
}

#[test]
fn annotation_lines() {
    let lines: Vec<String> = vec![
        Annotation::Count(Felt::from_u64(12)),
        Annotation::Address(Felt::from_u64(255)),
        Annotation::Packed { word: Felt::from_u64(46), nonce: 0, update_count: 11, class_flag: false },
        Annotation::Packed { word: Felt::from_u64(5), nonce: 7, update_count: 1, class_flag: true },
        Annotation::ClassHash(Felt::from_u64(0xcafe)),
        Annotation::Key(Felt::from_u64(0)),
        Annotation::Value(Felt::from_u64(16)),
        Annotation::DeclaredClassHash(Felt::from_u64(10)),
        Annotation::CompiledClassHash(Felt::from_u64(11)),
        Annotation::Tail(Felt::from_u64(0)),
    ]
    .iter()
    .map(|a| a.to_line())
    .collect();
    assert_eq!(
        lines,
        vec![
            "12",
            "a: 0xff",
            "0b101110 -> n: 0, c: 11, f: 0",
            "0b101 -> n: 7, c: 1, f: 1",
            "h: 0xcafe",
            "k: 0x0",
            "v: 0x10",
            "d: 0xa",
            "c: 0xb",
            "0",
        ]
    );
}
