use num_bigint::BigUint;
use starknet_scrape::chain::{check_logs, check_transaction, ScanError, TxKind};
use starknet_scrape::decomp::DecompError;
use starknet_scrape::download::{
    reconstruct, Downloader, FetchAction, FetchEvent, Retry, FAILED_FETCH_RETRY_INTERVAL_S,
    MAX_RETRIES,
};
use starknet_scrape::felt::Felt;
use starknet_scrape::lookup::Lookup;
use starknet_scrape::parser::ParseError;
use starknet_scrape::process::{
    do_parse, json_file_name, make_pack_const, prepare, FormatVersion, ProcessError,
};

fn felt(n: &BigUint) -> Felt {
    Felt::from_bytes_be(n.to_bytes_be())
}

fn felts(ns: &[u64]) -> Vec<Felt> {
    ns.iter().map(|n| Felt::from_u64(*n)).collect()
}

fn header(sizes: [u64; 8]) -> Felt {
    let mut h = BigUint::from(0u8);
    for (i, s) in sizes.iter().enumerate() {
        h += BigUint::from(*s) << (20 * (i + 1));
    }
    felt(&h)
}

fn pack3(class_flag: bool, nonce: u64, update_count: u64) -> Felt {
    let word = (BigUint::from(nonce) << 66usize)
        + (BigUint::from(update_count) << 2usize)
        + BigUint::from(class_flag as u8);
    felt(&word)
}

#[test]
fn empty_sequence_is_refused() {
    assert_eq!(prepare(Vec::new(), false).unwrap_err(), ProcessError::EmptySequence);
    assert_eq!(prepare(Vec::new(), true).unwrap_err(), ProcessError::EmptySequence);
}

#[test]
fn small_first_element_means_the_earlier_format() {
    let p = prepare(felts(&[1, 5, 0, 0]), false).unwrap();
    assert_eq!(p.version, FormatVersion::V0_13_1);
    assert_eq!(p.seq, felts(&[1, 5, 0, 0]));
    assert_eq!(p.tail_size, None);
    let p = prepare(felts(&[u64::MAX >> 32, 5]), false).unwrap();
    assert_eq!(p.version, FormatVersion::V0_13_1);
}

#[test]
fn uncompressed_means_the_later_format() {
    let p = prepare(felts(&[1, 5, 0, 0]), true).unwrap();
    assert_eq!(p.version, FormatVersion::V0_13_3);
    assert_eq!(p.seq, felts(&[1, 5, 0, 0]));
    assert_eq!(p.tail_size, None);
}

#[test]
fn large_first_element_means_compression() {
    // two values of 15 bits: their size stands above the low 64 bits
    let seq = vec![
        header([2, 0, 0, 0, 0, 0, 2, 0]),
        Felt::from_u64(3 + (4 << 15)),
        Felt::from_u64(5 + 5 * 7),
        Felt::zero(),
    ];
    let p = prepare(seq, false).unwrap();
    assert_eq!(p.version, FormatVersion::V0_13_3);
    assert_eq!(p.seq, felts(&[3, 4]));
    assert_eq!(p.tail_size, Some(1));
}

#[test]
fn compressed_sequence_that_is_broken() {
    let seq = vec![header([2, 0, 0, 0, 0, 0, 2, 0])];
    assert_eq!(
        prepare(seq, false).unwrap_err(),
        ProcessError::Decompress(DecompError::Exhausted)
    );
    // a header of small sizes is taken for the number of contracts
    let seq = vec![header([70, 70, 0, 0, 0, 0, 0, 0]), Felt::from_u64(1)];
    assert_eq!(prepare(seq, false).unwrap().version, FormatVersion::V0_13_1);
    let seq = vec![felt(&(BigUint::from(1u8) << 200usize))];
    assert_eq!(
        prepare(seq, false).unwrap_err(),
        ProcessError::Decompress(DecompError::HighHeaderBits)
    );
}

#[test]
fn pack_constants_by_version() {
    assert_eq!(make_pack_const(FormatVersion::V0_13_1).nonce_shift, 64);
    assert_eq!(make_pack_const(FormatVersion::V0_13_3).nonce_shift, 66);
}

#[test]
fn sequence_numbers_are_ten_above_the_keys() {
    let seq = vec![
        Felt::from_u64(1),
        Felt::from_u64(1),
        pack3(false, 0, 2),
        Felt::from_u64(100),
        Felt::from_u64(42),
        Felt::from_u64(103),
        Felt::from_u64(43),
        Felt::from_u64(0),
    ];
    let mut lookup = Lookup::new();
    let mut anno = Vec::new();
    let prepared = prepare(seq.clone(), true).unwrap();
    let parsed = do_parse(&mut lookup, prepared, Some(113), &mut anno).unwrap();
    assert_eq!(parsed.from_seq_no, 110);
    assert_eq!(parsed.to_seq_no, 113);
    assert_eq!(parsed.state_diff.contract_updates.len(), 1);
    assert_eq!(anno.len(), 8);

    let prepared = prepare(seq.clone(), true).unwrap();
    let parsed = do_parse(&mut lookup, prepared, None, &mut anno).unwrap();
    assert_eq!((parsed.from_seq_no, parsed.to_seq_no), (110, 113));

    let prepared = prepare(seq, true).unwrap();
    assert_eq!(
        do_parse(&mut lookup, prepared, Some(112), &mut anno).unwrap_err(),
        ProcessError::SeqNoMismatch { logged: 112, parsed: 113 }
    );
}

#[test]
fn without_keys_the_sequence_numbers_are_zero() {
    let mut lookup = Lookup::new();
    let mut anno = Vec::new();
    let prepared = prepare(felts(&[0, 0]), false).unwrap();
    let parsed = do_parse(&mut lookup, prepared, None, &mut anno).unwrap();
    assert_eq!((parsed.from_seq_no, parsed.to_seq_no), (0, 0));
    let prepared = prepare(felts(&[0, 0]), false).unwrap();
    assert_eq!(
        do_parse(&mut lookup, prepared, Some(5), &mut anno).unwrap_err(),
        ProcessError::SeqNoMismatch { logged: 5, parsed: 0 }
    );
    let prepared = prepare(felts(&[0, 0]), false).unwrap();
    assert!(do_parse(&mut lookup, prepared, Some(0), &mut anno).is_ok());
}

#[test]
fn sequence_number_that_leaves_the_u64() {
    let seq = vec![
        Felt::from_u64(1),
        Felt::from_u64(1),
        pack3(false, 0, 1),
        Felt::from_u64(u64::MAX - 9),
        Felt::from_u64(42),
        Felt::from_u64(0),
    ];
    let mut lookup = Lookup::new();
    let mut anno = Vec::new();
    let prepared = prepare(seq, true).unwrap();
    assert_eq!(
        do_parse(&mut lookup, prepared, None, &mut anno).unwrap_err(),
        ProcessError::SeqNoOverflow
    );
}

#[test]
fn parse_errors_are_handed_on() {
    let mut lookup = Lookup::new();
    let mut anno = Vec::new();
    let prepared = prepare(felts(&[0]), false).unwrap();
    assert_eq!(
        do_parse(&mut lookup, prepared, None, &mut anno).unwrap_err(),
        ProcessError::Parse(ParseError::MissingDeclarationCount)
    );
    assert_eq!(anno.len(), 1);
}

#[test]
fn stateful_introduction_and_replay() {
    let seq = vec![
        Felt::from_u64(2),
        Felt::from_u64(1),
        pack3(false, 0, 1),
        Felt::from_u64(100),
        Felt::from_u64(42),
        Felt::from_u64(2),
        pack3(false, 0, 3),
        Felt::from_u64(0),
        Felt::from_u64(130),
        Felt::from_u64(0xA),
        Felt::from_u64(128),
        Felt::from_u64(0xB),
        Felt::from_u64(129),
        Felt::from_u64(0),
    ];
    let mut lookup = Lookup::new();
    lookup.set_block_no(21282183);
    let mut anno = Vec::new();
    let parsed = do_parse(&mut lookup, prepare(seq.clone(), true).unwrap(), Some(110), &mut anno).unwrap();
    assert_eq!((parsed.from_seq_no, parsed.to_seq_no), (110, 110));
    assert_eq!(lookup.get(128), Ok(Felt::from_u64(0xA)));
    assert_eq!(lookup.get(129), Ok(Felt::from_u64(0xB)));
    assert_eq!(lookup.get_crest(), Some(21282183));

    let again = do_parse(&mut lookup, prepare(seq, true).unwrap(), Some(110), &mut anno).unwrap();
    assert_eq!(again.state_diff.contract_updates.len(), 2);
    assert_eq!((again.from_seq_no, again.to_seq_no), (110, 110));
    assert_eq!(lookup.get_table_size(), 2);
    assert_eq!(lookup.get_crest(), Some(21282183));
}

#[test]
fn json_files_are_named_by_sequence_numbers() {
    assert_eq!(json_file_name(110, 113), "110-113.json");
    assert_eq!(json_file_name(0, 0), "0-0.json");
    assert_eq!(json_file_name(u64::MAX, 1), "18446744073709551615-1.json");
}

#[test]
fn retry_takes_good_answers() {
    let mut r = Retry::new();
    assert_eq!(r.on_event(FetchEvent::Status(200)), FetchAction::Accept);
    assert_eq!(r.attempt, 1);
    assert_eq!(r.on_event(FetchEvent::Status(399)), FetchAction::Accept);
    assert_eq!(r.on_event(FetchEvent::Status(302)), FetchAction::Accept);
}

#[test]
fn retry_rejects_low_statuses() {
    let mut r = Retry::new();
    assert_eq!(r.on_event(FetchEvent::Status(199)), FetchAction::Reject(199));
    assert_eq!(r.on_event(FetchEvent::Status(100)), FetchAction::Reject(100));
    assert_eq!(r.on_event(FetchEvent::Status(0)), FetchAction::Reject(0));
    assert_eq!(r.attempt, 1);
}

#[test]
fn retry_gives_up_after_five_tries() {
    assert_eq!(MAX_RETRIES, 5);
    assert_eq!(FAILED_FETCH_RETRY_INTERVAL_S, 10);
    let mut r = Retry::new();
    let events = [
        FetchEvent::Status(500),
        FetchEvent::Failed,
        FetchEvent::Status(400),
        FetchEvent::Status(404),
    ];
    for (i, e) in events.iter().enumerate() {
        assert_eq!(r.attempt, i + 1);
        assert_eq!(r.on_event(*e), FetchAction::Retry { wait_s: 10 });
    }
    assert_eq!(r.attempt, 5);
    assert_eq!(r.on_event(FetchEvent::Failed), FetchAction::GiveUp { wait_s: 10 });
    assert_eq!(r.attempt, 5);
    let mut r = Retry { attempt: 5 };
    assert_eq!(r.on_event(FetchEvent::Status(503)), FetchAction::GiveUp { wait_s: 10 });
    let mut r = Retry { attempt: 4 };
    assert_eq!(r.on_event(FetchEvent::Failed), FetchAction::Retry { wait_s: 10 });
    assert_eq!(r.on_event(FetchEvent::Status(200)), FetchAction::Accept);
}

#[test]
fn blob_urls() {
    let d = Downloader::new("https://blobs.example/".to_string(), false, "c".to_string(), false);
    assert_eq!(d.blob_url(&[0x01, 0xab, 0x00, 0xff]), "https://blobs.example/0x01ab00ff");
    assert_eq!(d.blob_url(&[]), "https://blobs.example/0x");
    let hash: Vec<u8> = (0..32u8).collect();
    assert_eq!(
        d.blob_url(&hash),
        "https://blobs.example/0x000102030405060708090a0b0c0d0e0f101112131415161718191a1b1c1d1e1f"
    );
    assert_eq!(d.cache_dir(), "c");
}

#[test]
fn save_actions() {
    let mut off = Downloader::new("u".to_string(), false, "c".to_string(), true);
    let a = off.save_action("abc");
    assert_eq!((a.target, a.doomed), (None, None));

    let mut keep = Downloader::new("u".to_string(), true, "c".to_string(), false);
    let a = keep.save_action("0xabc");
    assert_eq!((a.target, a.doomed), (Some("0xabc.blob".to_string()), None));
    let a = keep.save_action("0xdef");
    assert_eq!((a.target, a.doomed), (Some("0xdef.blob".to_string()), None));

    let mut prune = Downloader::new("u".to_string(), true, "c".to_string(), true);
    let a = prune.save_action("0xabc");
    assert_eq!((a.target, a.doomed), (Some("0xabc.blob".to_string()), None));
    let a = prune.save_action("0xdef");
    assert_eq!(
        (a.target, a.doomed),
        (Some("0xdef.blob".to_string()), Some("0xabc.blob".to_string()))
    );
}

#[test]
fn reconstruct_reads_and_transforms() {
    let d = Downloader::new("u".to_string(), false, "c".to_string(), false);
    let t = d.transformer();
    let text = format!("0x{}\n", "0".repeat(4096 * 64));
    let seq = reconstruct(&t, &text).unwrap();
    assert_eq!(seq.len(), 4096);
    assert!(seq.iter().all(|f| f.is_zero()));
    // the constant polynomial 7
    let word = format!("{:064x}", 7);
    let seq = reconstruct(&t, &word.repeat(4096)).unwrap();
    assert_eq!(seq[0], Felt::from_u64(7));
    assert!(seq[1..].iter().all(|f| f.is_zero()));
    assert!(reconstruct(&t, "0x12").is_err());
}

#[test]
fn scan_wants_logs_and_blob_transactions() {
    assert_eq!(check_logs(0), Err(ScanError::NoLogs));
    assert_eq!(check_logs(1), Ok(()));
    assert_eq!(check_logs(12), Ok(()));
    assert_eq!(check_transaction(TxKind::Other), Err(ScanError::NotEip4844));
    assert_eq!(check_transaction(TxKind::WithSidecar), Err(ScanError::AlreadyIncludesBlob));
    assert_eq!(check_transaction(TxKind::Eip4844 { blob_hashes: 0 }), Err(ScanError::NoBlobs));
    assert_eq!(check_transaction(TxKind::Eip4844 { blob_hashes: 3 }), Ok(3));
}
