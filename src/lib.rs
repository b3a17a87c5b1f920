//! Block state commitment: aggregation of a block's state changes into a
//! commitment diff, and composition of trie roots and hash-tree digests into
//! the block's commitments.

mod commitment;
mod diff_map;
mod field;
mod state_diff;

pub use field::{
    be_value, field_prime, state_tag_ascii, patricia_key_bound, pedersen_hash_on_elements_of, pow256,
    poseidon_hash_many_of, Felt,
};
pub use commitment::{
    calculate_state_root, hash_on_elements, join_state_root, join_tx_and_event_commitments,
    state_root_of, CommitmentFailure, Hasher,
};
pub use diff_map::{
    felt_map_contents, felt_map_keys, felt_map_keys_unique, keys_after_insert, keys_unique,
    storage_map_contents, storage_map_keys, storage_map_keys_unique,
};
pub use state_diff::{
    addresses_fit, build_commitment_state_diff, build_storage_map, class_hash_map_of,
    compiled_class_hash_map_of, declared_pairs, deployed_class_hash, deployed_pairs,
    insert_pairs, lemma_insert_pairs_agreeing, lemma_insert_pairs_last,
    lemma_insert_pairs_other_keys, lemma_last_storage_item_wins,
    lemma_system_contract_has_no_class, narrow_contract_address, narrow_storage_key,
    nonce_map_of, nonce_pairs, replaced_pairs, storage_diff_pairs, storage_entries_map,
    storage_entry_pairs, storage_keys_fit, storage_map_of, CommitmentStateDiff,
    ContractStorageDiffItem, DeclaredClassItem, DeployedContractItem, NarrowingError,
    NonceUpdate, ReplacedClassItem, StateDiff, StorageEntry,
};
