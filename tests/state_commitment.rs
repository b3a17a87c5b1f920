use starknet_ff::FieldElement;
use state_commitment::{
    build_commitment_state_diff, build_storage_map, calculate_state_root, join_state_root,
    join_tx_and_event_commitments, narrow_contract_address, narrow_storage_key,
    CommitmentFailure, ContractStorageDiffItem, DeclaredClassItem, DeployedContractItem, Felt,
    Hasher, NarrowingError, NonceUpdate, ReplacedClassItem, StateDiff, StorageEntry,
};

fn felt(n: u64) -> Felt {
    let mut bytes = [0u8; 32];
    bytes[24..].copy_from_slice(&n.to_be_bytes());
    Felt::from_bytes_be(bytes).unwrap()
}

/// `2^251`, the first value that is no contract address.
fn key_bound() -> Felt {
    let mut bytes = [0u8; 32];
    bytes[0] = 8;
    Felt::from_bytes_be(bytes).unwrap()
}

fn to_fe(f: Felt) -> FieldElement {
    FieldElement::from_bytes_be(&f.to_bytes_be()).unwrap()
}

fn from_fe(fe: FieldElement) -> Felt {
    Felt::from_bytes_be(fe.to_bytes_be()).unwrap()
}

fn empty_diff() -> StateDiff {
    StateDiff {
        storage_diffs: vec![],
        declared_classes: vec![],
        deployed_contracts: vec![],
        replaced_classes: vec![],
        nonces: vec![],
    }
}

fn storage_item(address: u64, entries: &[(u64, u64)]) -> ContractStorageDiffItem {
    ContractStorageDiffItem {
        address: felt(address),
        storage_entries: entries
            .iter()
            .map(|&(k, v)| StorageEntry { key: felt(k), value: felt(v) })
            .collect(),
    }
}

#[test]
fn felt_bytes_round_trip() {
    let f = felt(0x0102_0304_0506_0708);
    let bytes = f.to_bytes_be();
    assert_eq!(&bytes[24..], &[1, 2, 3, 4, 5, 6, 7, 8]);
    assert_eq!(Felt::from_bytes_be(bytes), Some(f));
}

#[test]
fn felt_rejects_the_prime_and_above() {
    // p = 2^251 + 17 * 2^192 + 1
    let mut p = [0u8; 32];
    p[0] = 0x08;
    p[7] = 0x11;
    p[31] = 0x01;
    assert_eq!(Felt::from_bytes_be(p), None);
    let mut below = p;
    below[31] = 0x00;
    assert!(Felt::from_bytes_be(below).is_some());
    assert_eq!(Felt::from_bytes_be([0xff; 32]), None);
}

#[test]
fn felt_zero_and_key_range() {
    assert!(Felt::zero().is_zero());
    assert!(!felt(1).is_zero());
    assert!(felt(u64::MAX).fits_patricia_key());
    assert!(!key_bound().fits_patricia_key());
    let mut just_below = [0xffu8; 32];
    just_below[0] = 0x07;
    assert!(Felt::from_bytes_be(just_below).unwrap().fits_patricia_key());
}

#[test]
fn state_tag_is_the_ascii_label() {
    let expected = FieldElement::from_byte_slice_be(b"STARKNET_STATE_V0").unwrap();
    assert_eq!(to_fe(Felt::state_tag()), expected);
}

#[test]
fn narrowing_checks_the_key_range() {
    assert_eq!(narrow_contract_address(felt(5)), Ok(felt(5)));
    assert_eq!(narrow_contract_address(key_bound()), Err(NarrowingError::ContractAddress));
    assert_eq!(narrow_storage_key(felt(1)), Ok(felt(1)));
    assert_eq!(narrow_storage_key(key_bound()), Err(NarrowingError::StorageKey));
}

#[test]
fn empty_update_gives_empty_diff_and_zero_root() {
    let diff = build_commitment_state_diff(&empty_diff()).unwrap();
    assert!(diff.address_to_class_hash.is_empty());
    assert!(diff.address_to_nonce.is_empty());
    assert!(diff.storage_updates.is_empty());
    assert!(diff.class_hash_to_compiled_class_hash.is_empty());
    let root = calculate_state_root(Hasher::Poseidon, Felt::zero(), Felt::zero());
    assert_eq!(root, Felt::zero());
}

#[test]
fn one_contract_with_one_storage_entry() {
    let mut sd = empty_diff();
    sd.deployed_contracts.push(DeployedContractItem { address: felt(5), class_hash: felt(7) });
    sd.storage_diffs.push(storage_item(5, &[(1, 2)]));
    let diff = build_commitment_state_diff(&sd).unwrap();
    assert_eq!(diff.address_to_class_hash.len(), 1);
    assert_eq!(diff.address_to_class_hash.get(&felt(5)), Some(&felt(7)));
    assert_eq!(diff.storage_updates.len(), 1);
    let storage = diff.storage_updates.get(&felt(5)).unwrap();
    assert_eq!(storage.len(), 1);
    assert_eq!(storage.get(&felt(1)), Some(&felt(2)));
    assert!(diff.address_to_nonce.is_empty());
    assert!(diff.class_hash_to_compiled_class_hash.is_empty());
}

#[test]
fn system_contract_gets_zero_class_hash() {
    let mut sd = empty_diff();
    sd.deployed_contracts.push(DeployedContractItem { address: felt(0), class_hash: felt(99) });
    sd.deployed_contracts.push(DeployedContractItem { address: felt(3), class_hash: felt(4) });
    let diff = build_commitment_state_diff(&sd).unwrap();
    assert_eq!(diff.address_to_class_hash.get(&felt(0)), Some(&Felt::zero()));
    assert_eq!(diff.address_to_class_hash.get(&felt(3)), Some(&felt(4)));
}

#[test]
fn replacement_at_zero_address_keeps_its_class_hash() {
    let mut sd = empty_diff();
    sd.replaced_classes.push(ReplacedClassItem { contract_address: felt(0), class_hash: felt(9) });
    let diff = build_commitment_state_diff(&sd).unwrap();
    assert_eq!(diff.address_to_class_hash.get(&felt(0)), Some(&felt(9)));
}

#[test]
fn replacement_overwrites_deployment_in_place() {
    let mut sd = empty_diff();
    sd.deployed_contracts.push(DeployedContractItem { address: felt(10), class_hash: felt(1) });
    sd.deployed_contracts.push(DeployedContractItem { address: felt(11), class_hash: felt(2) });
    sd.replaced_classes.push(ReplacedClassItem { contract_address: felt(10), class_hash: felt(3) });
    sd.replaced_classes.push(ReplacedClassItem { contract_address: felt(12), class_hash: felt(4) });
    let diff = build_commitment_state_diff(&sd).unwrap();
    let keys: Vec<Felt> = diff.address_to_class_hash.keys().copied().collect();
    assert_eq!(keys, vec![felt(10), felt(11), felt(12)]);
    assert_eq!(diff.address_to_class_hash.get(&felt(10)), Some(&felt(3)));
}

#[test]
fn duplicate_keys_leave_one_entry_each() {
    let mut sd = empty_diff();
    sd.nonces.push(NonceUpdate { contract_address: felt(1), nonce: felt(1) });
    sd.nonces.push(NonceUpdate { contract_address: felt(1), nonce: felt(2) });
    sd.declared_classes.push(DeclaredClassItem { class_hash: felt(5), compiled_class_hash: felt(6) });
    sd.declared_classes.push(DeclaredClassItem { class_hash: felt(5), compiled_class_hash: felt(8) });
    sd.storage_diffs.push(storage_item(2, &[(1, 1), (1, 3)]));
    let diff = build_commitment_state_diff(&sd).unwrap();
    assert_eq!(diff.address_to_nonce.len(), 1);
    assert_eq!(diff.address_to_nonce.get(&felt(1)), Some(&felt(2)));
    assert_eq!(diff.class_hash_to_compiled_class_hash.len(), 1);
    assert_eq!(diff.class_hash_to_compiled_class_hash.get(&felt(5)), Some(&felt(8)));
    let storage = diff.storage_updates.get(&felt(2)).unwrap();
    assert_eq!(storage.len(), 1);
    assert_eq!(storage.get(&felt(1)), Some(&felt(3)));
}

#[test]
fn later_storage_item_replaces_earlier_one_whole() {
    let mut sd = empty_diff();
    sd.storage_diffs.push(storage_item(5, &[(1, 2), (3, 4)]));
    sd.storage_diffs.push(storage_item(6, &[(1, 1)]));
    sd.storage_diffs.push(storage_item(5, &[(7, 8)]));
    let diff = build_commitment_state_diff(&sd).unwrap();
    assert_eq!(diff.storage_updates.len(), 2);
    let storage = diff.storage_updates.get(&felt(5)).unwrap();
    assert_eq!(storage.len(), 1);
    assert_eq!(storage.get(&felt(7)), Some(&felt(8)));
    assert_eq!(storage.get(&felt(1)), None);
}

#[test]
fn contract_address_out_of_range_fails() {
    let mut sd = empty_diff();
    sd.nonces.push(NonceUpdate { contract_address: key_bound(), nonce: felt(1) });
    assert_eq!(build_commitment_state_diff(&sd).err(), Some(NarrowingError::ContractAddress));
    let mut sd = empty_diff();
    sd.deployed_contracts.push(DeployedContractItem { address: key_bound(), class_hash: felt(1) });
    assert_eq!(build_commitment_state_diff(&sd).err(), Some(NarrowingError::ContractAddress));
    let mut sd = empty_diff();
    sd.storage_diffs.push(ContractStorageDiffItem { address: key_bound(), storage_entries: vec![] });
    assert_eq!(build_commitment_state_diff(&sd).err(), Some(NarrowingError::ContractAddress));
}

#[test]
fn storage_key_out_of_range_fails() {
    let mut sd = empty_diff();
    sd.storage_diffs.push(ContractStorageDiffItem {
        address: felt(1),
        storage_entries: vec![StorageEntry { key: key_bound(), value: felt(1) }],
    });
    assert_eq!(build_commitment_state_diff(&sd).err(), Some(NarrowingError::StorageKey));
    assert_eq!(
        build_storage_map(&vec![StorageEntry { key: key_bound(), value: felt(1) }]).err(),
        Some(NarrowingError::StorageKey)
    );
}

#[test]
fn class_hash_above_key_range_is_accepted() {
    let mut sd = empty_diff();
    sd.declared_classes.push(DeclaredClassItem { class_hash: key_bound(), compiled_class_hash: key_bound() });
    let diff = build_commitment_state_diff(&sd).unwrap();
    assert_eq!(diff.class_hash_to_compiled_class_hash.get(&key_bound()), Some(&key_bound()));
}

#[test]
fn state_root_is_contracts_root_when_classes_trie_is_empty() {
    for root in [felt(0), felt(1), felt(123_456), key_bound()] {
        assert_eq!(calculate_state_root(Hasher::Poseidon, root, Felt::zero()), root);
        assert_eq!(calculate_state_root(Hasher::Pedersen, root, Felt::zero()), root);
    }
}

#[test]
fn state_root_hashes_tag_and_both_roots_with_poseidon() {
    let tag = FieldElement::from_byte_slice_be(b"STARKNET_STATE_V0").unwrap();
    let expected = starknet_crypto::poseidon_hash_many(&[tag, to_fe(felt(11)), to_fe(felt(22))]);
    let root = calculate_state_root(Hasher::Poseidon, felt(11), felt(22));
    assert_eq!(root, from_fe(expected));
    assert_ne!(root, felt(11));
}

#[test]
fn state_root_hashes_tag_and_both_roots_with_pedersen() {
    let tag = FieldElement::from_byte_slice_be(b"STARKNET_STATE_V0").unwrap();
    let expected =
        starknet_core::crypto::compute_hash_on_elements(&[tag, to_fe(felt(11)), to_fe(felt(22))]);
    let root = calculate_state_root(Hasher::Pedersen, felt(11), felt(22));
    assert_eq!(root, from_fe(expected));
    assert_ne!(root, calculate_state_root(Hasher::Poseidon, felt(11), felt(22)));
}

#[test]
fn tx_and_event_commitments_pair_in_order() {
    let ok: Result<Felt, ()> = Ok(felt(1));
    let other: Result<Felt, ()> = Ok(felt(2));
    assert_eq!(join_tx_and_event_commitments(ok, other), Ok((felt(1), felt(2))));
    assert_eq!(
        join_tx_and_event_commitments::<()>(Err(()), Ok(felt(2))),
        Err(CommitmentFailure::TransactionCommitment)
    );
    assert_eq!(
        join_tx_and_event_commitments::<()>(Ok(felt(1)), Err(())),
        Err(CommitmentFailure::EventCommitment)
    );
}

#[test]
fn state_root_needs_both_trie_roots() {
    assert_eq!(
        join_state_root::<&str>(Ok(felt(3)), Err("classes trie")),
        Err(CommitmentFailure::ClassesTrie)
    );
    assert_eq!(
        join_state_root::<&str>(Err("contracts trie"), Ok(felt(3))),
        Err(CommitmentFailure::ContractsTrie)
    );
    assert_eq!(join_state_root::<&str>(Ok(felt(3)), Ok(Felt::zero())), Ok(felt(3)));
    assert_eq!(
        join_state_root::<&str>(Ok(felt(3)), Ok(felt(4))),
        Ok(calculate_state_root(Hasher::Poseidon, felt(3), felt(4)))
    );
}
