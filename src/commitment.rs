use crate::field::{
    be_value, pedersen_hash_on_elements, pedersen_hash_on_elements_of, poseidon_hash_many,
    poseidon_hash_many_of, state_tag_ascii, Felt,
};
use vstd::prelude::*;

verus! {

/// The two hash primitives that a commitment can be computed with.
#[derive(Clone, Copy, Debug, PartialEq, Eq, Structural)]
pub enum Hasher {
    Pedersen,
    Poseidon,
}

/// The hash of a sequence of field elements under the chosen primitive.
pub open spec fn hash_on_elements(hasher: Hasher, xs: Seq<nat>) -> nat {
    match hasher {
        Hasher::Pedersen => pedersen_hash_on_elements_of(xs),
        Hasher::Poseidon => poseidon_hash_many_of(xs),
    }
}

/// The state root of two trie roots: the contracts-trie root itself while the
/// classes trie is empty, else the hash of the state tag and the two roots.
pub open spec fn state_root_of(hasher: Hasher, contracts_trie_root: nat, classes_trie_root: nat) -> nat {
    if classes_trie_root == 0 {
        contracts_trie_root
    } else {
        hash_on_elements(hasher, seq![be_value(state_tag_ascii()), contracts_trie_root, classes_trie_root])
    }
}

/// Which part of a block's commitment could not be computed.
#[derive(Clone, Copy, Debug, PartialEq, Eq, Structural)]
pub enum CommitmentFailure {
    TransactionCommitment,
    EventCommitment,
    ContractsTrie,
    ClassesTrie,
}

impl Hasher {
    pub fn hash_on_elements(&self, elements: &Vec<Felt>) -> (r: Felt)
        ensures
            r@ == hash_on_elements(*self, elements@.map_values(|e: Felt| e@)),
    {
        match self {
            Hasher::Pedersen => pedersen_hash_on_elements(elements),
            Hasher::Poseidon => poseidon_hash_many(elements),
        }
    }
}

/// Combines the contracts-trie root and the classes-trie root into the state root.
pub fn calculate_state_root(hasher: Hasher, contracts_trie_root: Felt, classes_trie_root: Felt) -> (r: Felt)
    ensures
        r@ == state_root_of(hasher, contracts_trie_root@, classes_trie_root@),
        classes_trie_root@ == 0 ==> r == contracts_trie_root,
{
    if classes_trie_root.is_zero() {
        contracts_trie_root
    } else {
        let tag = Felt::state_tag();
        let elements = vec![tag, contracts_trie_root, classes_trie_root];
        proof {
            assert(elements@.map_values(|e: Felt| e@) =~= seq![
                be_value(state_tag_ascii()),
                contracts_trie_root@,
                classes_trie_root@,
            ]);
        }
        hasher.hash_on_elements(&elements)
    }
}

/// Pairs the outcomes of the transaction and event hash-tree builds: both
/// digests when both builds succeeded, else the first failure.
pub fn join_tx_and_event_commitments<E>(
    transaction_commitment: Result<Felt, E>,
    event_commitment: Result<Felt, E>,
) -> (r: Result<(Felt, Felt), CommitmentFailure>)
    ensures
        match (transaction_commitment, event_commitment) {
            (Ok(t), Ok(e)) => r == Ok::<(Felt, Felt), CommitmentFailure>((t, e)),
            (Err(_), _) => r == Err::<(Felt, Felt), CommitmentFailure>(CommitmentFailure::TransactionCommitment),
            (Ok(_), Err(_)) => r == Err::<(Felt, Felt), CommitmentFailure>(CommitmentFailure::EventCommitment),
        },
{
    match (transaction_commitment, event_commitment) {
        (Ok(t), Ok(e)) => Ok((t, e)),
        (Err(_), _) => Err(CommitmentFailure::TransactionCommitment),
        (Ok(_), Err(_)) => Err(CommitmentFailure::EventCommitment),
    }
}

/// The state root after the two trie updates of a block, with Poseidon: defined
/// only when both updates produced a root.
pub fn join_state_root<E>(contracts_trie_root: Result<Felt, E>, classes_trie_root: Result<Felt, E>) -> (r:
    Result<Felt, CommitmentFailure>)
    ensures
        r is Ok <==> (contracts_trie_root is Ok && classes_trie_root is Ok),
        match (contracts_trie_root, classes_trie_root) {
            (Ok(c), Ok(k)) => r matches Ok(s) && s@ == state_root_of(Hasher::Poseidon, c@, k@),
            (Err(_), _) => r == Err::<Felt, CommitmentFailure>(CommitmentFailure::ContractsTrie),
            (Ok(_), Err(_)) => r == Err::<Felt, CommitmentFailure>(CommitmentFailure::ClassesTrie),
        },
{
    match (contracts_trie_root, classes_trie_root) {
        (Ok(c), Ok(k)) => Ok(calculate_state_root(Hasher::Poseidon, c, k)),
        (Err(_), _) => Err(CommitmentFailure::ContractsTrie),
        (Ok(_), Err(_)) => Err(CommitmentFailure::ClassesTrie),
    }
}

} // verus!
