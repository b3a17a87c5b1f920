use vstd::prelude::*;

verus! {

/// `256^n`.
pub open spec fn pow256(n: nat) -> nat
    decreases n,
{
    if n == 0 {
        1
    } else {
        256 * pow256((n - 1) as nat)
    }
}

/// The number that a sequence of bytes denotes, most significant byte first.
pub open spec fn be_value(s: Seq<u8>) -> nat
    decreases s.len(),
{
    if s.len() == 0 {
        0
    } else {
        s[0] as nat * pow256((s.len() - 1) as nat) + be_value(s.subrange(1, s.len() as int))
    }
}

/// `2^251`: storage keys and contract addresses lie below it.
pub open spec fn patricia_key_bound() -> nat {
    8 * pow256(31)
}

/// The field's prime, `2^251 + 17 * 2^192 + 1`.
pub open spec fn field_prime() -> nat {
    8 * pow256(31) + 17 * pow256(24) + 1
}

pub proof fn lemma_pow256_positive(n: nat)
    ensures
        pow256(n) > 0,
    decreases n,
{
    if n > 0 {
        lemma_pow256_positive((n - 1) as nat);
    }
}

/// A sequence of `n` bytes denotes a number below `256^n`.
pub proof fn lemma_be_value_bound(s: Seq<u8>)
    ensures
        be_value(s) < pow256(s.len()),
    decreases s.len(),
{
    if s.len() > 0 {
        let rest = s.subrange(1, s.len() as int);
        let p = pow256((s.len() - 1) as nat);
        lemma_be_value_bound(rest);
        let b = s[0] as nat;
        assert(b * p + be_value(rest) < 256 * p) by (nonlinear_arith)
            requires
                b < 256,
                be_value(rest) < p,
        ;
    }
}

/// A sequence of bytes denotes zero exactly when every byte is zero.
pub proof fn lemma_be_value_zero(s: Seq<u8>)
    ensures
        be_value(s) == 0 <==> forall|i: int| 0 <= i < s.len() ==> s[i] == 0,
    decreases s.len(),
{
    if s.len() > 0 {
        let rest = s.subrange(1, s.len() as int);
        let p = pow256((s.len() - 1) as nat);
        lemma_be_value_zero(rest);
        lemma_pow256_positive((s.len() - 1) as nat);
        let b = s[0] as nat;
        assert(b * p == 0 <==> b == 0) by (nonlinear_arith)
            requires
                p > 0,
        ;
        if be_value(s) == 0 {
            assert forall|i: int| 0 <= i < s.len() implies s[i] == 0 by {
                if i > 0 {
                    assert(rest[i - 1] == s[i]);
                }
            }
        }
        if forall|i: int| 0 <= i < s.len() ==> s[i] == 0 {
            assert forall|i: int| 0 <= i < rest.len() implies rest[i] == 0 by {
                assert(s[i + 1] == 0);
            }
        }
    }
}

/// Of 32 bytes, the number lies below `2^251` exactly when the first byte is below 8.
pub proof fn lemma_be_value_below_key_bound(s: Seq<u8>)
    requires
        s.len() == 32,
    ensures
        be_value(s) < patricia_key_bound() <==> s[0] < 8,
{
    let rest = s.subrange(1, 32);
    let p = pow256(31);
    lemma_be_value_bound(rest);
    let b = s[0] as nat;
    assert(be_value(s) == b * p + be_value(rest));
    if b < 8 {
        assert(b * p + be_value(rest) < 8 * p) by (nonlinear_arith)
            requires
                b < 8,
                be_value(rest) < p,
        ;
    } else {
        assert(b * p >= 8 * p) by (nonlinear_arith)
            requires
                b >= 8,
        ;
    }
}

/// Two byte sequences of one length that denote one number are equal.
pub proof fn lemma_be_value_injective(a: Seq<u8>, b: Seq<u8>)
    requires
        a.len() == b.len(),
        be_value(a) == be_value(b),
    ensures
        a == b,
    decreases a.len(),
{
    if a.len() > 0 {
        let ra = a.subrange(1, a.len() as int);
        let rb = b.subrange(1, b.len() as int);
        let p = pow256((a.len() - 1) as nat);
        lemma_be_value_bound(ra);
        lemma_be_value_bound(rb);
        let x = a[0] as nat;
        let y = b[0] as nat;
        let u = be_value(ra);
        let w = be_value(rb);
        assert(x == y) by (nonlinear_arith)
            requires
                x * p + u == y * p + w,
                u < p,
                w < p,
        {
            if x < y {
                assert(x * p + p <= y * p);
            } else if y < x {
                assert(y * p + p <= x * p);
            }
        }
        lemma_be_value_injective(ra, rb);
        assert(a =~= b) by {
            assert forall|i: int| 0 <= i < a.len() implies a[i] == b[i] by {
                if i > 0 {
                    assert(a[i] == ra[i - 1]);
                    assert(b[i] == rb[i - 1]);
                }
            }
        }
    } else {
        assert(a =~= b);
    }
}

/// Leading zero bytes do not change the number.
pub proof fn lemma_be_value_leading_zeros(s: Seq<u8>, k: int)
    requires
        0 <= k <= s.len(),
        forall|i: int| 0 <= i < k ==> s[i] == 0,
    ensures
        be_value(s) == be_value(s.subrange(k, s.len() as int)),
    decreases k,
{
    if k > 0 {
        let rest = s.subrange(1, s.len() as int);
        assert(s[0] as nat * pow256((s.len() - 1) as nat) == 0);
        lemma_be_value_leading_zeros(rest, k - 1);
        assert(rest.subrange(k - 1, rest.len() as int) =~= s.subrange(k, s.len() as int));
    } else {
        assert(s.subrange(0, s.len() as int) =~= s);
    }
}

/// The ASCII text `STARKNET_STATE_V0`, the tag that separates the state commitment
/// from the other hashes of the chain.
pub open spec fn state_tag_ascii() -> Seq<u8> {
    seq![83u8, 84, 65, 82, 75, 78, 69, 84, 95, 83, 84, 65, 84, 69, 95, 86, 48]
}

/// An element of the Stark field, held as its 32 big-endian bytes.
#[derive(Clone, Copy, Debug, Eq, Hash)]
pub struct Felt {
    bytes: [u8; 32],
}

impl PartialEq for Felt {
    fn eq(&self, other: &Felt) -> (r: bool) {
        let mut i: usize = 0;
        while i < 32
            invariant
                0 <= i <= 32,
                forall|j: int| 0 <= j < i ==> self.bytes@[j] == other.bytes@[j],
            decreases 32 - i,
        {
            if self.bytes[i] != other.bytes[i] {
                return false;
            }
            i = i + 1;
        }
        proof {
            assert(self.bytes@ =~= other.bytes@);
        }
        true
    }
}

impl vstd::std_specs::cmp::PartialEqSpecImpl for Felt {
    open spec fn obeys_eq_spec() -> bool {
        true
    }

    closed spec fn eq_spec(&self, other: &Felt) -> bool {
        self.bytes@ == other.bytes@
    }
}

impl View for Felt {
    type V = nat;

    closed spec fn view(&self) -> nat {
        be_value(self.bytes@)
    }
}

/// Relies on `starknet_ff::FieldElement::from_bytes_be`, which refuses exactly the
/// byte strings whose number is not below the field's prime.
#[verifier::external_body]
fn bytes_in_field(bytes: &[u8; 32]) -> (r: bool)
    ensures
        r == (be_value(bytes@) < field_prime()),
{
    starknet_ff::FieldElement::from_bytes_be(bytes).is_ok()
}

impl Felt {
    #[verifier::type_invariant]
    spec fn in_field(self) -> bool {
        be_value(self.bytes@) < field_prime()
    }

    /// Two elements are equal exactly when they denote one number: the
    /// maps keyed by elements and the contracts that speak of their numbers agree.
    pub proof fn lemma_view_injective(a: Felt, b: Felt)
        ensures
            a@ == b@ <==> a == b,
    {
        if a@ == b@ {
            lemma_be_value_injective(a.bytes@, b.bytes@);
            assert(a.bytes == b.bytes);
        }
    }

    /// The element that 32 big-endian bytes denote, if it lies in the field.
    pub fn from_bytes_be(bytes: [u8; 32]) -> (r: Option<Felt>)
        ensures
            r is Some <==> be_value(bytes@) < field_prime(),
            r matches Some(f) ==> f@ == be_value(bytes@),
    {
        if bytes_in_field(&bytes) {
            Some(Felt { bytes })
        } else {
            None
        }
    }

    /// The 32 big-endian bytes of the element.
    pub fn to_bytes_be(&self) -> (r: [u8; 32])
        ensures
            be_value(r@) == self@,
    {
        self.bytes
    }

    pub fn zero() -> (r: Felt)
        ensures
            r@ == 0,
    {
        let bytes = [0u8; 32];
        proof {
            lemma_be_value_zero(bytes@);
        }
        Felt { bytes }
    }

    pub fn is_zero(&self) -> (r: bool)
        ensures
            r == (self@ == 0),
    {
        proof {
            lemma_be_value_zero(self.bytes@);
        }
        let mut i: usize = 0;
        while i < 32
            invariant
                0 <= i <= 32,
                forall|j: int| 0 <= j < i ==> self.bytes@[j] == 0,
            decreases 32 - i,
        {
            if self.bytes[i] != 0 {
                proof {
                    assert(self.bytes@[i as int] != 0);
                    lemma_be_value_zero(self.bytes@);
                }
                return false;
            }
            i = i + 1;
        }
        true
    }

    /// The state tag as a field element: the number its ASCII bytes denote.
    pub fn state_tag() -> (r: Felt)
        ensures
            r@ == be_value(state_tag_ascii()),
    {
        let bytes: [u8; 32] = [
            0, 0, 0, 0, 0, 0, 0, 0, 0, 0, 0, 0, 0, 0, 0,
            83, 84, 65, 82, 75, 78, 69, 84, 95, 83, 84, 65, 84, 69, 95, 86, 48,
        ];
        proof {
            lemma_be_value_leading_zeros(bytes@, 15);
            assert(bytes@.subrange(15, 32) =~= state_tag_ascii());
            lemma_be_value_below_key_bound(bytes@);
        }
        Felt { bytes }
    }

    /// Whether the element lies below `2^251`, the range of contract addresses
    /// and storage keys.
    pub fn fits_patricia_key(&self) -> (r: bool)
        ensures
            r == (self@ < patricia_key_bound()),
    {
        proof {
            lemma_be_value_below_key_bound(self.bytes@);
        }
        self.bytes[0] < 8
    }
}

/// What `starknet_crypto::poseidon_hash_many` returns on a sequence of field elements.
pub uninterp spec fn poseidon_hash_many_of(xs: Seq<nat>) -> nat;

/// What `starknet_core::crypto::compute_hash_on_elements` (Pedersen) returns on a
/// sequence of field elements.
pub uninterp spec fn pedersen_hash_on_elements_of(xs: Seq<nat>) -> nat;

/// Relies on `starknet_crypto::poseidon_hash_many`: the Poseidon hash of a sequence
/// of field elements, itself a field element.
#[verifier::external_body]
pub(crate) fn poseidon_hash_many(elements: &Vec<Felt>) -> (r: Felt)
    ensures
        r@ == poseidon_hash_many_of(elements@.map_values(|e: Felt| e@)),
{
    let fes: Vec<starknet_ff::FieldElement> = elements
        .iter()
        .map(|e| starknet_ff::FieldElement::from_bytes_be(&e.bytes).unwrap())
        .collect();
    Felt { bytes: starknet_crypto::poseidon_hash_many(&fes).to_bytes_be() }
}

/// Relies on `starknet_core::crypto::compute_hash_on_elements`: the Pedersen hash
/// chain over a sequence of field elements and its length, itself a field element.
#[verifier::external_body]
pub(crate) fn pedersen_hash_on_elements(elements: &Vec<Felt>) -> (r: Felt)
    ensures
        r@ == pedersen_hash_on_elements_of(elements@.map_values(|e: Felt| e@)),
{
    let fes: Vec<starknet_ff::FieldElement> = elements
        .iter()
        .map(|e| starknet_ff::FieldElement::from_bytes_be(&e.bytes).unwrap())
        .collect();
    Felt { bytes: starknet_core::crypto::compute_hash_on_elements(&fes).to_bytes_be() }
}

} // verus!
