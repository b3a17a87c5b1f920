use crate::field::Felt;
use indexmap::IndexMap;
use vstd::prelude::*;

verus! {

/// `indexmap::IndexMap`, the insertion-ordered map that holds the commitment
/// diff: opaque, known through the names and wrappers below.
#[verifier::external_type_specification]
#[verifier::external_body]
#[verifier::reject_recursive_types(K)]
#[verifier::reject_recursive_types(V)]
#[verifier::reject_recursive_types(S)]
pub struct ExIndexMap<K, V, S>(IndexMap<K, V, S>);

/// What a map from field elements to field elements holds.
pub uninterp spec fn felt_map_contents(m: IndexMap<Felt, Felt>) -> Map<nat, nat>;

/// The keys of a map from field elements to field elements, in the map's order.
pub uninterp spec fn felt_map_keys(m: IndexMap<Felt, Felt>) -> Seq<nat>;

/// What a map from contract addresses to storage maps holds.
pub uninterp spec fn storage_map_contents(m: IndexMap<Felt, IndexMap<Felt, Felt>>) -> Map<
    nat,
    Map<nat, nat>,
>;

/// The keys of a map from contract addresses to storage maps, in the map's order.
pub uninterp spec fn storage_map_keys(m: IndexMap<Felt, IndexMap<Felt, Felt>>) -> Seq<nat>;

/// The key order lists each key of the contents once, and no other.
pub open spec fn keys_unique<V>(keys: Seq<nat>, contents: Map<nat, V>) -> bool {
    keys.no_duplicates() && keys.to_set() == contents.dom()
}

pub open spec fn felt_map_keys_unique(m: IndexMap<Felt, Felt>) -> bool {
    keys_unique(felt_map_keys(m), felt_map_contents(m))
}

pub open spec fn storage_map_keys_unique(m: IndexMap<Felt, IndexMap<Felt, Felt>>) -> bool {
    keys_unique(storage_map_keys(m), storage_map_contents(m))
}

/// The key order after an insertion: unchanged for a key already present, else
/// the new key last.
pub open spec fn keys_after_insert<V>(keys: Seq<nat>, contents: Map<nat, V>, k: nat) -> Seq<nat> {
    if contents.contains_key(k) {
        keys
    } else {
        keys.push(k)
    }
}

pub proof fn lemma_insert_keeps_keys_unique<V>(keys: Seq<nat>, contents: Map<nat, V>, k: nat, v: V)
    requires
        keys_unique(keys, contents),
    ensures
        keys_unique(keys_after_insert(keys, contents, k), contents.insert(k, v)),
{
    if contents.contains_key(k) {
        assert(contents.insert(k, v).dom() =~= contents.dom());
    } else {
        let pushed = keys.push(k);
        assert(!keys.contains(k));
        assert forall|i: int, j: int|
            0 <= i < pushed.len() && 0 <= j < pushed.len() && i != j implies pushed[i] != pushed[j] by {
            if i == keys.len() as int {
                assert(keys[j] == pushed[j]);
            } else if j == keys.len() as int {
                assert(keys[i] == pushed[i]);
            }
        }
        assert forall|x: nat| pushed.to_set().contains(x) <==> contents.insert(k, v).dom().contains(x) by {
            if x == k {
                assert(pushed[keys.len() as int] == k);
            } else {
                if pushed.to_set().contains(x) {
                    let i = choose|i: int| 0 <= i < pushed.len() && pushed[i] == x;
                    assert(keys[i] == x);
                }
                if keys.to_set().contains(x) {
                    let i = choose|i: int| 0 <= i < keys.len() && keys[i] == x;
                    assert(pushed[i] == x);
                }
            }
        }
        assert(pushed.to_set() =~= contents.insert(k, v).dom());
    }
}

/// Relies on `IndexMap::new`: an empty map.
#[verifier::external_body]
pub(crate) fn new_felt_map() -> (m: IndexMap<Felt, Felt>)
    ensures
        felt_map_contents(m).dom().is_empty(),
        felt_map_keys(m).len() == 0,
{
    IndexMap::new()
}

/// Relies on `IndexMap::insert`: the key takes the value; a key already present
/// keeps its place in the order, a new one goes last.
#[verifier::external_body]
pub(crate) fn insert_felt(m: &mut IndexMap<Felt, Felt>, key: Felt, value: Felt)
    ensures
        felt_map_contents(*final(m)) == felt_map_contents(*old(m)).insert(key@, value@),
        felt_map_keys(*final(m)) == keys_after_insert(
            felt_map_keys(*old(m)),
            felt_map_contents(*old(m)),
            key@,
        ),
{
    m.insert(key, value);
}

/// Relies on `IndexMap::new`: an empty map.
#[verifier::external_body]
pub(crate) fn new_storage_map() -> (m: IndexMap<Felt, IndexMap<Felt, Felt>>)
    ensures
        storage_map_contents(m).dom().is_empty(),
        storage_map_keys(m).len() == 0,
{
    IndexMap::new()
}

/// Relies on `IndexMap::insert`: the key takes the value; a key already present
/// keeps its place in the order, a new one goes last.
#[verifier::external_body]
pub(crate) fn insert_storage(
    m: &mut IndexMap<Felt, IndexMap<Felt, Felt>>,
    key: Felt,
    value: IndexMap<Felt, Felt>,
)
    ensures
        storage_map_contents(*final(m)) == storage_map_contents(*old(m)).insert(
            key@,
            felt_map_contents(value),
        ),
        storage_map_keys(*final(m)) == keys_after_insert(
            storage_map_keys(*old(m)),
            storage_map_contents(*old(m)),
            key@,
        ),
{
    m.insert(key, value);
}

} // verus!
