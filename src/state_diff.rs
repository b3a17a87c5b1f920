use crate::diff_map::{
    felt_map_contents, felt_map_keys, felt_map_keys_unique, insert_felt, insert_storage,
    keys_unique, lemma_insert_keeps_keys_unique, new_felt_map, new_storage_map,
    storage_map_contents, storage_map_keys, storage_map_keys_unique,
};
use crate::field::{patricia_key_bound, Felt};
use indexmap::IndexMap;
use vstd::prelude::*;

verus! {

/// A contract deployed in the block.
#[derive(Clone, Copy, Debug)]
pub struct DeployedContractItem {
    pub address: Felt,
    pub class_hash: Felt,
}

/// A contract whose class the block replaced.
#[derive(Clone, Copy, Debug)]
pub struct ReplacedClassItem {
    pub contract_address: Felt,
    pub class_hash: Felt,
}

/// A class declared in the block.
#[derive(Clone, Copy, Debug)]
pub struct DeclaredClassItem {
    pub class_hash: Felt,
    pub compiled_class_hash: Felt,
}

/// A contract's new nonce.
#[derive(Clone, Copy, Debug)]
pub struct NonceUpdate {
    pub contract_address: Felt,
    pub nonce: Felt,
}

/// One storage cell written.
#[derive(Clone, Copy, Debug)]
pub struct StorageEntry {
    pub key: Felt,
    pub value: Felt,
}

/// The storage cells that the block wrote in one contract.
#[derive(Clone, Debug)]
pub struct ContractStorageDiffItem {
    pub address: Felt,
    pub storage_entries: Vec<StorageEntry>,
}

/// The changes that a block makes to the state, as received.
#[derive(Clone, Debug)]
pub struct StateDiff {
    pub storage_diffs: Vec<ContractStorageDiffItem>,
    pub declared_classes: Vec<DeclaredClassItem>,
    pub deployed_contracts: Vec<DeployedContractItem>,
    pub replaced_classes: Vec<ReplacedClassItem>,
    pub nonces: Vec<NonceUpdate>,
}

/// The changes of a block, keyed for the state tries.
pub struct CommitmentStateDiff {
    pub address_to_class_hash: IndexMap<Felt, Felt>,
    pub address_to_nonce: IndexMap<Felt, Felt>,
    pub storage_updates: IndexMap<Felt, IndexMap<Felt, Felt>>,
    pub class_hash_to_compiled_class_hash: IndexMap<Felt, Felt>,
}

/// A field element that does not fit the type it stands for.
#[derive(Clone, Copy, Debug, PartialEq, Eq, Structural)]
pub enum NarrowingError {
    ContractAddress,
    StorageKey,
}

/// The map that inserting each pair in turn into `base` gives: of pairs with
/// one key, the last one wins.
pub open spec fn insert_pairs<V>(base: Map<nat, V>, pairs: Seq<(nat, V)>) -> Map<nat, V>
    decreases pairs.len(),
{
    if pairs.len() == 0 {
        base
    } else {
        insert_pairs(base, pairs.drop_last()).insert(pairs.last().0, pairs.last().1)
    }
}

/// The class hash that a deployment records: none (zero) for the system
/// contract at address zero.
pub open spec fn deployed_class_hash(item: DeployedContractItem) -> nat {
    if item.address@ == 0 {
        0
    } else {
        item.class_hash@
    }
}

pub open spec fn deployed_pairs(items: Seq<DeployedContractItem>) -> Seq<(nat, nat)> {
    items.map_values(|d: DeployedContractItem| (d.address@, deployed_class_hash(d)))
}

pub open spec fn replaced_pairs(items: Seq<ReplacedClassItem>) -> Seq<(nat, nat)> {
    items.map_values(|r: ReplacedClassItem| (r.contract_address@, r.class_hash@))
}

pub open spec fn declared_pairs(items: Seq<DeclaredClassItem>) -> Seq<(nat, nat)> {
    items.map_values(|d: DeclaredClassItem| (d.class_hash@, d.compiled_class_hash@))
}

pub open spec fn nonce_pairs(items: Seq<NonceUpdate>) -> Seq<(nat, nat)> {
    items.map_values(|n: NonceUpdate| (n.contract_address@, n.nonce@))
}

pub open spec fn storage_entry_pairs(entries: Seq<StorageEntry>) -> Seq<(nat, nat)> {
    entries.map_values(|e: StorageEntry| (e.key@, e.value@))
}

/// The storage map of one contract's entries.
pub open spec fn storage_entries_map(entries: Seq<StorageEntry>) -> Map<nat, nat> {
    insert_pairs(Map::empty(), storage_entry_pairs(entries))
}

pub open spec fn storage_diff_pairs(items: Seq<ContractStorageDiffItem>) -> Seq<(nat, Map<nat, nat>)> {
    items.map_values(
        |c: ContractStorageDiffItem| (c.address@, storage_entries_map(c.storage_entries@)),
    )
}

/// The address-to-class-hash map of a diff: deployments first, then replacements.
pub open spec fn class_hash_map_of(sd: StateDiff) -> Map<nat, nat> {
    insert_pairs(
        insert_pairs(Map::empty(), deployed_pairs(sd.deployed_contracts@)),
        replaced_pairs(sd.replaced_classes@),
    )
}

pub open spec fn compiled_class_hash_map_of(sd: StateDiff) -> Map<nat, nat> {
    insert_pairs(Map::empty(), declared_pairs(sd.declared_classes@))
}

pub open spec fn nonce_map_of(sd: StateDiff) -> Map<nat, nat> {
    insert_pairs(Map::empty(), nonce_pairs(sd.nonces@))
}

/// The address-to-storage map of a diff: of two items for one contract, the
/// later one replaces the earlier one whole.
pub open spec fn storage_map_of(sd: StateDiff) -> Map<nat, Map<nat, nat>> {
    insert_pairs(Map::empty(), storage_diff_pairs(sd.storage_diffs@))
}

/// Every contract address of the diff lies below `2^251`.
pub open spec fn addresses_fit(sd: StateDiff) -> bool {
    &&& forall|i: int|
        0 <= i < sd.deployed_contracts@.len() ==> #[trigger] sd.deployed_contracts@[i].address@
            < patricia_key_bound()
    &&& forall|i: int|
        0 <= i < sd.replaced_classes@.len()
            ==> #[trigger] sd.replaced_classes@[i].contract_address@ < patricia_key_bound()
    &&& forall|i: int|
        0 <= i < sd.nonces@.len() ==> #[trigger] sd.nonces@[i].contract_address@
            < patricia_key_bound()
    &&& forall|i: int|
        0 <= i < sd.storage_diffs@.len() ==> #[trigger] sd.storage_diffs@[i].address@
            < patricia_key_bound()
}

/// Every storage key of the diff lies below `2^251`.
pub open spec fn storage_keys_fit(sd: StateDiff) -> bool {
    forall|i: int, j: int|
        0 <= i < sd.storage_diffs@.len() && 0 <= j < sd.storage_diffs@[i].storage_entries@.len()
            ==> #[trigger] sd.storage_diffs@[i].storage_entries@[j].key@ < patricia_key_bound()
}

impl CommitmentStateDiff {
    /// Each of the four maps lists each of its keys once in its order.
    pub open spec fn keys_unique(&self) -> bool {
        &&& felt_map_keys_unique(self.address_to_class_hash)
        &&& felt_map_keys_unique(self.address_to_nonce)
        &&& storage_map_keys_unique(self.storage_updates)
        &&& felt_map_keys_unique(self.class_hash_to_compiled_class_hash)
    }

    /// The diff that `sd` gives.
    pub open spec fn built_from(&self, sd: StateDiff) -> bool {
        &&& felt_map_contents(self.address_to_class_hash) == class_hash_map_of(sd)
        &&& felt_map_contents(self.address_to_nonce) == nonce_map_of(sd)
        &&& storage_map_contents(self.storage_updates) == storage_map_of(sd)
        &&& felt_map_contents(self.class_hash_to_compiled_class_hash)
            == compiled_class_hash_map_of(sd)
    }
}

/// Narrows a field element to a contract address.
pub fn narrow_contract_address(f: Felt) -> (r: Result<Felt, NarrowingError>)
    ensures
        r is Ok <==> f@ < patricia_key_bound(),
        r matches Ok(a) ==> a == f,
        r matches Err(e) ==> e == NarrowingError::ContractAddress,
{
    if f.fits_patricia_key() {
        Ok(f)
    } else {
        Err(NarrowingError::ContractAddress)
    }
}

/// Narrows a field element to a storage key.
pub fn narrow_storage_key(f: Felt) -> (r: Result<Felt, NarrowingError>)
    ensures
        r is Ok <==> f@ < patricia_key_bound(),
        r matches Ok(k) ==> k == f,
        r matches Err(e) ==> e == NarrowingError::StorageKey,
{
    if f.fits_patricia_key() {
        Ok(f)
    } else {
        Err(NarrowingError::StorageKey)
    }
}

proof fn lemma_take_step<A>(s: Seq<A>, i: int)
    requires
        0 <= i < s.len(),
    ensures
        s.take(i + 1).drop_last() == s.take(i),
        s.take(i + 1).last() == s[i],
{
    assert(s.take(i + 1).drop_last() =~= s.take(i));
}

fn add_deployed(m: &mut IndexMap<Felt, Felt>, items: &Vec<DeployedContractItem>) -> (r: Result<
    (),
    NarrowingError,
>)
    requires
        felt_map_keys_unique(*old(m)),
    ensures
        r is Ok <==> forall|i: int|
            0 <= i < items@.len() ==> #[trigger] items@[i].address@ < patricia_key_bound(),
        r matches Err(e) ==> e == NarrowingError::ContractAddress,
        r is Ok ==> felt_map_contents(*final(m)) == insert_pairs(
            felt_map_contents(*old(m)),
            deployed_pairs(items@),
        ),
        felt_map_keys_unique(*final(m)),
{
    let ghost pairs = deployed_pairs(items@);
    let mut i: usize = 0;
    while i < items.len()
        invariant
            0 <= i <= items@.len(),
            pairs == deployed_pairs(items@),
            forall|j: int| 0 <= j < i ==> #[trigger] items@[j].address@ < patricia_key_bound(),
            felt_map_contents(*m) == insert_pairs(felt_map_contents(*old(m)), pairs.take(i as int)),
            felt_map_keys_unique(*m),
        decreases items@.len() - i,
    {
        let item = items[i];
        let address = match narrow_contract_address(item.address) {
            Ok(a) => a,
            Err(e) => {
                return Err(e);
            },
        };
        let class_hash = if address.is_zero() {
            Felt::zero()
        } else {
            item.class_hash
        };
        proof {
            lemma_insert_keeps_keys_unique(
                felt_map_keys(*m),
                felt_map_contents(*m),
                address@,
                class_hash@,
            );
            lemma_take_step(pairs, i as int);
        }
        insert_felt(m, address, class_hash);
        i = i + 1;
    }
    proof {
        assert(pairs.take(items@.len() as int) =~= pairs);
    }
    Ok(())
}

fn add_replaced(m: &mut IndexMap<Felt, Felt>, items: &Vec<ReplacedClassItem>) -> (r: Result<
    (),
    NarrowingError,
>)
    requires
        felt_map_keys_unique(*old(m)),
    ensures
        r is Ok <==> forall|i: int|
            0 <= i < items@.len() ==> #[trigger] items@[i].contract_address@ < patricia_key_bound(),
        r matches Err(e) ==> e == NarrowingError::ContractAddress,
        r is Ok ==> felt_map_contents(*final(m)) == insert_pairs(
            felt_map_contents(*old(m)),
            replaced_pairs(items@),
        ),
        felt_map_keys_unique(*final(m)),
{
    let ghost pairs = replaced_pairs(items@);
    let mut i: usize = 0;
    while i < items.len()
        invariant
            0 <= i <= items@.len(),
            pairs == replaced_pairs(items@),
            forall|j: int|
                0 <= j < i ==> #[trigger] items@[j].contract_address@ < patricia_key_bound(),
            felt_map_contents(*m) == insert_pairs(felt_map_contents(*old(m)), pairs.take(i as int)),
            felt_map_keys_unique(*m),
        decreases items@.len() - i,
    {
        let item = items[i];
        let address = match narrow_contract_address(item.contract_address) {
            Ok(a) => a,
            Err(e) => {
                return Err(e);
            },
        };
        proof {
            lemma_insert_keeps_keys_unique(
                felt_map_keys(*m),
                felt_map_contents(*m),
                address@,
                item.class_hash@,
            );
            lemma_take_step(pairs, i as int);
        }
        insert_felt(m, address, item.class_hash);
        i = i + 1;
    }
    proof {
        assert(pairs.take(items@.len() as int) =~= pairs);
    }
    Ok(())
}

fn add_declared(m: &mut IndexMap<Felt, Felt>, items: &Vec<DeclaredClassItem>)
    requires
        felt_map_keys_unique(*old(m)),
    ensures
        felt_map_contents(*final(m)) == insert_pairs(
            felt_map_contents(*old(m)),
            declared_pairs(items@),
        ),
        felt_map_keys_unique(*final(m)),
{
    let ghost pairs = declared_pairs(items@);
    let mut i: usize = 0;
    while i < items.len()
        invariant
            0 <= i <= items@.len(),
            pairs == declared_pairs(items@),
            felt_map_contents(*m) == insert_pairs(felt_map_contents(*old(m)), pairs.take(i as int)),
            felt_map_keys_unique(*m),
        decreases items@.len() - i,
    {
        let item = items[i];
        proof {
            lemma_insert_keeps_keys_unique(
                felt_map_keys(*m),
                felt_map_contents(*m),
                item.class_hash@,
                item.compiled_class_hash@,
            );
            lemma_take_step(pairs, i as int);
        }
        insert_felt(m, item.class_hash, item.compiled_class_hash);
        i = i + 1;
    }
    proof {
        assert(pairs.take(items@.len() as int) =~= pairs);
    }
}

fn add_nonces(m: &mut IndexMap<Felt, Felt>, items: &Vec<NonceUpdate>) -> (r: Result<
    (),
    NarrowingError,
>)
    requires
        felt_map_keys_unique(*old(m)),
    ensures
        r is Ok <==> forall|i: int|
            0 <= i < items@.len() ==> #[trigger] items@[i].contract_address@ < patricia_key_bound(),
        r matches Err(e) ==> e == NarrowingError::ContractAddress,
        r is Ok ==> felt_map_contents(*final(m)) == insert_pairs(
            felt_map_contents(*old(m)),
            nonce_pairs(items@),
        ),
        felt_map_keys_unique(*final(m)),
{
    let ghost pairs = nonce_pairs(items@);
    let mut i: usize = 0;
    while i < items.len()
        invariant
            0 <= i <= items@.len(),
            pairs == nonce_pairs(items@),
            forall|j: int|
                0 <= j < i ==> #[trigger] items@[j].contract_address@ < patricia_key_bound(),
            felt_map_contents(*m) == insert_pairs(felt_map_contents(*old(m)), pairs.take(i as int)),
            felt_map_keys_unique(*m),
        decreases items@.len() - i,
    {
        let item = items[i];
        let address = match narrow_contract_address(item.contract_address) {
            Ok(a) => a,
            Err(e) => {
                return Err(e);
            },
        };
        proof {
            lemma_insert_keeps_keys_unique(
                felt_map_keys(*m),
                felt_map_contents(*m),
                address@,
                item.nonce@,
            );
            lemma_take_step(pairs, i as int);
        }
        insert_felt(m, address, item.nonce);
        i = i + 1;
    }
    proof {
        assert(pairs.take(items@.len() as int) =~= pairs);
    }
    Ok(())
}

/// The storage map of one contract: each key narrowed, the last value of a key kept.
pub fn build_storage_map(entries: &Vec<StorageEntry>) -> (r: Result<
    IndexMap<Felt, Felt>,
    NarrowingError,
>)
    ensures
        r is Ok <==> forall|j: int|
            0 <= j < entries@.len() ==> #[trigger] entries@[j].key@ < patricia_key_bound(),
        r matches Err(e) ==> e == NarrowingError::StorageKey,
        r matches Ok(m) ==> felt_map_contents(m) == storage_entries_map(entries@)
            && felt_map_keys_unique(m),
{
    let ghost pairs = storage_entry_pairs(entries@);
    let mut m = new_felt_map();
    proof {
        assert(felt_map_contents(m) =~= Map::<nat, nat>::empty());
        assert(felt_map_keys(m).to_set() =~= Set::<nat>::empty());
        assert(pairs.take(0) =~= Seq::<(nat, nat)>::empty());
    }
    let mut i: usize = 0;
    while i < entries.len()
        invariant
            0 <= i <= entries@.len(),
            pairs == storage_entry_pairs(entries@),
            forall|j: int| 0 <= j < i ==> #[trigger] entries@[j].key@ < patricia_key_bound(),
            felt_map_contents(m) == insert_pairs(Map::<nat, nat>::empty(), pairs.take(i as int)),
            felt_map_keys_unique(m),
        decreases entries@.len() - i,
    {
        let entry = entries[i];
        let key = match narrow_storage_key(entry.key) {
            Ok(k) => k,
            Err(e) => {
                return Err(e);
            },
        };
        proof {
            lemma_insert_keeps_keys_unique(felt_map_keys(m), felt_map_contents(m), key@, entry.value@);
            lemma_take_step(pairs, i as int);
        }
        insert_felt(&mut m, key, entry.value);
        i = i + 1;
    }
    proof {
        assert(pairs.take(entries@.len() as int) =~= pairs);
    }
    Ok(m)
}

fn add_storage(
    m: &mut IndexMap<Felt, IndexMap<Felt, Felt>>,
    items: &Vec<ContractStorageDiffItem>,
) -> (r: Result<(), NarrowingError>)
    requires
        storage_map_keys_unique(*old(m)),
    ensures
        r is Ok <==> (forall|i: int|
            0 <= i < items@.len() ==> #[trigger] items@[i].address@ < patricia_key_bound()) && (
        forall|i: int, j: int|
            0 <= i < items@.len() && 0 <= j < items@[i].storage_entries@.len()
                ==> #[trigger] items@[i].storage_entries@[j].key@ < patricia_key_bound()),
        r matches Err(NarrowingError::ContractAddress) ==> !(forall|i: int|
            0 <= i < items@.len() ==> #[trigger] items@[i].address@ < patricia_key_bound()),
        r matches Err(NarrowingError::StorageKey) ==> !(forall|i: int, j: int|
            0 <= i < items@.len() && 0 <= j < items@[i].storage_entries@.len()
                ==> #[trigger] items@[i].storage_entries@[j].key@ < patricia_key_bound()),
        r is Ok ==> storage_map_contents(*final(m)) == insert_pairs(
            storage_map_contents(*old(m)),
            storage_diff_pairs(items@),
        ),
        storage_map_keys_unique(*final(m)),
{
    let ghost pairs = storage_diff_pairs(items@);
    let mut i: usize = 0;
    while i < items.len()
        invariant
            0 <= i <= items@.len(),
            pairs == storage_diff_pairs(items@),
            forall|k: int| 0 <= k < i ==> #[trigger] items@[k].address@ < patricia_key_bound(),
            forall|k: int, j: int|
                0 <= k < i && 0 <= j < items@[k].storage_entries@.len()
                    ==> #[trigger] items@[k].storage_entries@[j].key@ < patricia_key_bound(),
            storage_map_contents(*m) == insert_pairs(
                storage_map_contents(*old(m)),
                pairs.take(i as int),
            ),
            storage_map_keys_unique(*m),
        decreases items@.len() - i,
    {
        let item = &items[i];
        let address = match narrow_contract_address(item.address) {
            Ok(a) => a,
            Err(e) => {
                return Err(e);
            },
        };
        let storage = match build_storage_map(&item.storage_entries) {
            Ok(s) => s,
            Err(e) => {
                proof {
                    let j = choose|j: int|
                        0 <= j < item.storage_entries@.len() && !(
                        #[trigger] item.storage_entries@[j].key@ < patricia_key_bound());
                    assert(items@[i as int].storage_entries@[j].key@ >= patricia_key_bound());
                }
                return Err(e);
            },
        };
        proof {
            lemma_insert_keeps_keys_unique(
                storage_map_keys(*m),
                storage_map_contents(*m),
                address@,
                felt_map_contents(storage),
            );
            lemma_take_step(pairs, i as int);
        }
        insert_storage(m, address, storage);
        i = i + 1;
    }
    proof {
        assert(pairs.take(items@.len() as int) =~= pairs);
    }
    Ok(())
}

/// Aggregates the changes of a block into the four maps that the state tries
/// are updated from. Fails when a contract address or a storage key does not
/// lie below `2^251`.
pub fn build_commitment_state_diff(state_diff: &StateDiff) -> (r: Result<
    CommitmentStateDiff,
    NarrowingError,
>)
    ensures
        r is Ok <==> addresses_fit(*state_diff) && storage_keys_fit(*state_diff),
        r matches Err(NarrowingError::ContractAddress) ==> !addresses_fit(*state_diff),
        r matches Err(NarrowingError::StorageKey) ==> !storage_keys_fit(*state_diff),
        r matches Ok(d) ==> d.built_from(*state_diff) && d.keys_unique(),
{
    let mut address_to_class_hash = new_felt_map();
    let mut address_to_nonce = new_felt_map();
    let mut storage_updates = new_storage_map();
    let mut class_hash_to_compiled_class_hash = new_felt_map();
    proof {
        assert(felt_map_contents(address_to_class_hash) =~= Map::<nat, nat>::empty());
        assert(felt_map_keys(address_to_class_hash).to_set() =~= Set::<nat>::empty());
        assert(felt_map_contents(address_to_nonce) =~= Map::<nat, nat>::empty());
        assert(felt_map_keys(address_to_nonce).to_set() =~= Set::<nat>::empty());
        assert(storage_map_contents(storage_updates) =~= Map::<nat, Map<nat, nat>>::empty());
        assert(storage_map_keys(storage_updates).to_set() =~= Set::<nat>::empty());
        assert(felt_map_contents(class_hash_to_compiled_class_hash) =~= Map::<nat, nat>::empty());
        assert(felt_map_keys(class_hash_to_compiled_class_hash).to_set() =~= Set::<nat>::empty());
    }
    if let Err(e) = add_deployed(&mut address_to_class_hash, &state_diff.deployed_contracts) {
        return Err(e);
    }
    if let Err(e) = add_replaced(&mut address_to_class_hash, &state_diff.replaced_classes) {
        return Err(e);
    }
    add_declared(&mut class_hash_to_compiled_class_hash, &state_diff.declared_classes);
    if let Err(e) = add_nonces(&mut address_to_nonce, &state_diff.nonces) {
        return Err(e);
    }
    if let Err(e) = add_storage(&mut storage_updates, &state_diff.storage_diffs) {
        return Err(e);
    }
    Ok(CommitmentStateDiff {
        address_to_class_hash,
        address_to_nonce,
        storage_updates,
        class_hash_to_compiled_class_hash,
    })
}

/// The last pair of a key decides its value.
pub proof fn lemma_insert_pairs_last<V>(base: Map<nat, V>, pairs: Seq<(nat, V)>, j: int)
    requires
        0 <= j < pairs.len(),
        forall|i: int| j < i < pairs.len() ==> #[trigger] pairs[i].0 != pairs[j].0,
    ensures
        insert_pairs(base, pairs).contains_key(pairs[j].0),
        insert_pairs(base, pairs)[pairs[j].0] == pairs[j].1,
    decreases pairs.len(),
{
    if j < pairs.len() - 1 {
        let prefix = pairs.drop_last();
        assert(pairs.last().0 != pairs[j].0) by {
            assert(pairs[pairs.len() - 1] == pairs.last());
        }
        assert forall|i: int| j < i < prefix.len() implies #[trigger] prefix[i].0 != prefix[j].0 by {
            assert(prefix[i] == pairs[i]);
        }
        lemma_insert_pairs_last(base, prefix, j);
    }
}

/// Where every pair of a key carries one value, and one pair has that key, the
/// key ends with that value.
pub proof fn lemma_insert_pairs_agreeing<V>(base: Map<nat, V>, pairs: Seq<(nat, V)>, k: nat, v: V, j: int)
    requires
        0 <= j < pairs.len(),
        pairs[j].0 == k,
        forall|i: int| 0 <= i < pairs.len() && #[trigger] pairs[i].0 == k ==> pairs[i].1 == v,
    ensures
        insert_pairs(base, pairs).contains_key(k),
        insert_pairs(base, pairs)[k] == v,
    decreases pairs.len(),
{
    let prefix = pairs.drop_last();
    if pairs.last().0 != k {
        assert(pairs[pairs.len() - 1] == pairs.last());
        assert forall|i: int| 0 <= i < prefix.len() && #[trigger] prefix[i].0 == k implies prefix[i].1 == v by {
            assert(prefix[i] == pairs[i]);
        }
        assert(prefix[j] == pairs[j]);
        lemma_insert_pairs_agreeing(base, prefix, k, v, j);
    } else {
        assert(pairs[pairs.len() - 1] == pairs.last());
    }
}

/// Pairs of other keys leave a key as it was in the base.
pub proof fn lemma_insert_pairs_other_keys<V>(base: Map<nat, V>, pairs: Seq<(nat, V)>, k: nat)
    requires
        forall|i: int| 0 <= i < pairs.len() ==> #[trigger] pairs[i].0 != k,
    ensures
        insert_pairs(base, pairs).contains_key(k) == base.contains_key(k),
        insert_pairs(base, pairs)[k] == base[k],
    decreases pairs.len(),
{
    if pairs.len() > 0 {
        let prefix = pairs.drop_last();
        assert(pairs[pairs.len() - 1] == pairs.last());
        assert forall|i: int| 0 <= i < prefix.len() implies #[trigger] prefix[i].0 != k by {
            assert(prefix[i] == pairs[i]);
        }
        lemma_insert_pairs_other_keys(base, prefix, k);
    }
}

/// Of several storage items for one contract, the diff keeps the storage map of
/// the last one whole, whatever keys the earlier ones wrote.
pub proof fn lemma_last_storage_item_wins(sd: StateDiff, j: int)
    requires
        0 <= j < sd.storage_diffs@.len(),
        forall|i: int|
            j < i < sd.storage_diffs@.len() ==> #[trigger] sd.storage_diffs@[i].address@
                != sd.storage_diffs@[j].address@,
    ensures
        storage_map_of(sd).contains_key(sd.storage_diffs@[j].address@),
        storage_map_of(sd)[sd.storage_diffs@[j].address@] == storage_entries_map(
            sd.storage_diffs@[j].storage_entries@,
        ),
{
    let pairs = storage_diff_pairs(sd.storage_diffs@);
    assert forall|i: int| j < i < pairs.len() implies #[trigger] pairs[i].0 != pairs[j].0 by {
        assert(sd.storage_diffs@[i].address@ != sd.storage_diffs@[j].address@);
    }
    lemma_insert_pairs_last(Map::empty(), pairs, j);
}

/// A deployment at address zero, the system contract, records class hash zero,
/// whatever class hash it names, as long as no replacement targets address zero.
pub proof fn lemma_system_contract_has_no_class(sd: StateDiff, j: int)
    requires
        0 <= j < sd.deployed_contracts@.len(),
        sd.deployed_contracts@[j].address@ == 0,
        forall|i: int|
            0 <= i < sd.replaced_classes@.len() ==> #[trigger] sd.replaced_classes@[i].contract_address@
                != 0,
    ensures
        class_hash_map_of(sd).contains_key(0),
        class_hash_map_of(sd)[0] == 0,
{
    let deployed = deployed_pairs(sd.deployed_contracts@);
    let replaced = replaced_pairs(sd.replaced_classes@);
    assert forall|i: int| 0 <= i < deployed.len() && #[trigger] deployed[i].0 == 0 implies deployed[i].1
        == 0 by {
        assert(deployed[i] == (
            sd.deployed_contracts@[i].address@,
            deployed_class_hash(sd.deployed_contracts@[i]),
        ));
    }
    lemma_insert_pairs_agreeing(Map::empty(), deployed, 0, 0nat, j);
    assert forall|i: int| 0 <= i < replaced.len() implies #[trigger] replaced[i].0 != 0 by {
        assert(sd.replaced_classes@[i].contract_address@ != 0);
    }
    lemma_insert_pairs_other_keys(insert_pairs(Map::empty(), deployed), replaced, 0);
}

} // verus!
