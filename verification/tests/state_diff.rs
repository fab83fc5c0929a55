use num_bigint::BigUint;
use num_traits::Num;
use serde_json::Value;
use starknet_scrape::felt::Felt;
use starknet_scrape::state_diff::{
    BlockRange, ClassDeclaration, ContractStorageDiffItem, ContractUpdate, DeclaredClassItem,
    DeployedContractItem, NonceItem, StateDiff, StorageEntryItem, StorageUpdate,
};

fn felt(n: &BigUint) -> Felt {
    Felt::from_bytes_be(n.to_bytes_be())
}

fn object(fields: Vec<(&str, Value)>) -> Value {
    let mut m = serde_json::Map::new();
    for (k, v) in fields {
        m.insert(k.to_string(), v);
    }
    Value::Object(m)
}

fn entry_json(e: &StorageEntryItem) -> Value {
    object(vec![
        ("key", Value::String(e.key.clone())),
        ("value", Value::String(e.value.clone())),
    ])
}

fn storage_diff_json(item: &ContractStorageDiffItem) -> Value {
    object(vec![
        ("address", Value::String(item.address.clone())),
        (
            "storage_entries",
            Value::Array(item.storage_entries.iter().map(entry_json).collect()),
        ),
    ])
}

fn deployed_json(item: &DeployedContractItem) -> Value {
    object(vec![
        ("address", Value::String(item.address.clone())),
        (
            "class_hash",
            match &item.class_hash {
                Some(h) => Value::String(h.clone()),
                None => Value::Null,
            },
        ),
    ])
}

fn nonce_json(item: &NonceItem) -> Value {
    object(vec![
        ("contract_address", Value::String(item.contract_address.clone())),
        ("nonce", Value::String(item.nonce.clone())),
    ])
}

fn declared_json(item: &DeclaredClassItem) -> Value {
    object(vec![
        ("class_hash", Value::String(item.class_hash.clone())),
        ("compiled_class_hash", Value::String(item.compiled_class_hash.clone())),
    ])
}

fn update(address: u64, nonce: u64, class_hash: Option<u64>, storage: &[(u64, u64)]) -> ContractUpdate {
    ContractUpdate {
        address: Felt::from_u64(address),
        nonce,
        new_class_hash: class_hash.map(Felt::from_u64),
        storage_updates: storage
            .iter()
            .map(|(k, v)| StorageUpdate { key: Felt::from_u64(*k), value: Felt::from_u64(*v) })
            .collect(),
    }
}

#[test]
fn storage_update() {
    let su = StorageUpdate { key: Felt::from_u64(1), value: Felt::from_u64(20) };
    let j = entry_json(&su.to_item());
    assert_eq!(j.to_string(), "{\"key\":\"0x1\",\"value\":\"0x14\"}");
}

#[test]
fn contract_update() {
    let cu = ContractUpdate {
        address: Felt::from_u64(42),
        nonce: Default::default(),
        new_class_hash: Some(Felt::from_u64(37)),
        storage_updates: vec![StorageUpdate { key: Felt::from_u64(1), value: Felt::from_u64(20) }],
    };
    let sdi = storage_diff_json(&cu.to_contract_storage_diff_item());
    assert_eq!(
        sdi.to_string(),
        "{\"address\":\"0x2a\",\"storage_entries\":[{\"key\":\"0x1\",\"value\":\"0x14\"}]}"
    );

    let dci = deployed_json(&cu.to_deployed_contract_item());
    assert_eq!(dci.to_string(), "{\"address\":\"0x2a\",\"class_hash\":\"0x25\"}");

    let ni = nonce_json(&cu.to_nonce_item());
    assert_eq!(ni.to_string(), "{\"contract_address\":\"0x2a\",\"nonce\":\"0x0\"}");
}

#[test]
fn class_declaration() {
    let ch = BigUint::from_str_radix(
        "36078334509b514626504edc9fb252328d1a240e4e948bef8d0c08dff45927f",
        16,
    )
    .unwrap();
    let cc = ClassDeclaration { class_hash: felt(&ch), compiled_class_hash: Felt::from_u64(0) };
    let j = declared_json(&cc.to_item());
    assert_eq!(
        j.to_string(),
        "{\"class_hash\":\"0x36078334509b514626504edc9fb252328d1a240e4e948bef8d0c08dff45927f\",\"compiled_class_hash\":\"0x0\"}"
    );
}

#[test]
fn deployed_item_without_a_class() {
    let cu = update(42, 0, None, &[]);
    let dci = deployed_json(&cu.to_deployed_contract_item());
    assert_eq!(dci.to_string(), "{\"address\":\"0x2a\",\"class_hash\":null}");
}

#[test]
fn projection_filters_the_contracts() {
    let diff = StateDiff {
        contract_updates: vec![
            update(1, 0, None, &[(100, 42)]),
            update(2, 7, None, &[]),
            update(3, 0, Some(0xcafe), &[]),
            update(4, 0, None, &[]),
            update(5, 255, Some(16), &[(1, 2), (3, 4)]),
        ],
        class_declarations: vec![
            ClassDeclaration { class_hash: Felt::from_u64(10), compiled_class_hash: Felt::from_u64(11) },
            ClassDeclaration { class_hash: Felt::from_u64(0), compiled_class_hash: Felt::from_u64(4096) },
        ],
        range: BlockRange { min_seq_no: Some(100), max_seq_no: Some(100) },
        tail_size: 3,
    };
    let j = diff.to_json_state_diff();
    let storage: Vec<String> = j.storage_diffs.iter().map(|i| i.address.clone()).collect();
    assert_eq!(storage, vec!["0x1", "0x5"]);
    assert_eq!(j.storage_diffs[0].storage_entries.len(), 1);
    assert_eq!(j.storage_diffs[0].storage_entries[0].key, "0x64");
    assert_eq!(j.storage_diffs[0].storage_entries[0].value, "0x2a");
    assert_eq!(j.storage_diffs[1].storage_entries.len(), 2);
    assert_eq!(j.storage_diffs[1].storage_entries[1].key, "0x3");
    let deployed: Vec<(String, Option<String>)> = j
        .deployed_or_replaced
        .iter()
        .map(|i| (i.address.clone(), i.class_hash.clone()))
        .collect();
    assert_eq!(
        deployed,
        vec![
            ("0x3".to_string(), Some("0xcafe".to_string())),
            ("0x5".to_string(), Some("0x10".to_string()))
        ]
    );
    let nonces: Vec<(String, String)> =
        j.nonces.iter().map(|i| (i.contract_address.clone(), i.nonce.clone())).collect();
    assert_eq!(
        nonces,
        vec![("0x2".to_string(), "0x7".to_string()), ("0x5".to_string(), "0xff".to_string())]
    );
    assert_eq!(j.declared_classes.len(), 2);
    assert_eq!(j.declared_classes[0].class_hash, "0xa");
    assert_eq!(j.declared_classes[0].compiled_class_hash, "0xb");
    assert_eq!(j.declared_classes[1].class_hash, "0x0");
    assert_eq!(j.declared_classes[1].compiled_class_hash, "0x1000");
}

#[test]
fn projection_of_nothing() {
    let diff = StateDiff {
        contract_updates: Vec::new(),
        class_declarations: Vec::new(),
        range: BlockRange::new(),
        tail_size: 0,
    };
    let j = diff.to_json_state_diff();
    assert!(j.storage_diffs.is_empty());
    assert!(j.declared_classes.is_empty());
    assert!(j.deployed_or_replaced.is_empty());
    assert!(j.nonces.is_empty());
}

#[test]
fn range_observes_sequence_numbers() {
    let mut r = BlockRange::new();
    assert_eq!(r, BlockRange { min_seq_no: None, max_seq_no: None });
    r.observe(5);
    assert_eq!(r, BlockRange { min_seq_no: Some(5), max_seq_no: Some(5) });
    r.observe(9);
    assert_eq!(r, BlockRange { min_seq_no: Some(5), max_seq_no: Some(9) });
    r.observe(2);
    assert_eq!(r, BlockRange { min_seq_no: Some(2), max_seq_no: Some(9) });
    r.observe(4);
    assert_eq!(r, BlockRange { min_seq_no: Some(2), max_seq_no: Some(9) });
}
