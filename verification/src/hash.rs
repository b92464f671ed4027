//! The two-to-one hash outside the circuit: commitments and Merkle roots.
//!
//! The hash itself is the Pedersen hash over the Baby Jubjub curve.  It is
//! taken here as a named function of its domain tag and its input bits; what
//! this module proves is how the commitment of a note and the root of a path
//! are put together from it.

use vstd::prelude::*;
use ff_ce::PrimeField;
use pairing_ce::bn256::Bn256;
use sapling_crypto_ce::baby_pedersen_hash::{pedersen_hash, Personalization};
use sapling_crypto_ce::babyjubjub::JubjubBn256;
use crate::path::{path_view, PathElement};
use crate::scalar::{
    base_modulus, bits_le, lemma_bits_injective, lemma_bits_len, limbs_value, FieldElement, Scalar,
    FIELD_BITS,
};

verus! {

/// Number of levels that the hash can tell apart, and so the greatest depth
/// of a tree.
pub const MAX_DEPTH: usize = 62;

/// The use that a hash is put to.  Hashes of different domains never
/// coincide by construction of their inputs.
#[derive(Clone, Copy, Debug, PartialEq, Eq, Structural)]
pub enum Domain {
    /// The commitment of a note to its nullifier and secret.
    NoteCommitment,
    /// The parent of two nodes; the number is the level of the children,
    /// counted from the leaves.
    MerkleTree(usize),
}

impl View for Domain {
    type V = Option<nat>;

    open spec fn view(&self) -> Option<nat> {
        match *self {
            Domain::NoteCommitment => None,
            Domain::MerkleTree(level) => Some(level as nat),
        }
    }
}

/// The x-coordinate of the Pedersen hash of `bits` under a domain: `None`
/// for a note commitment, `Some(level)` for a level of the tree.
pub uninterp spec fn pedersen_hash_x(domain: Option<nat>, bits: Seq<bool>) -> nat;

/// The bits that are hashed for a pair of field elements: the 254 low bits
/// of the left one, then those of the right one, each least significant
/// first.
pub open spec fn preimage(left: nat, right: nat) -> Seq<bool> {
    bits_le(left, FIELD_BITS as nat) + bits_le(right, FIELD_BITS as nat)
}

/// The leaf that commits to a nullifier and a secret.
pub open spec fn commitment_of(nullifier: nat, secret: nat) -> nat {
    pedersen_hash_x(None, preimage(nullifier, secret))
}

/// The parent of `current` and its sibling at `level`.  With `side` unset
/// `current` is the left child, with `side` set it is the right child.
pub open spec fn parent_of(level: nat, current: nat, side: bool, sibling: nat) -> nat {
    if side {
        pedersen_hash_x(Some(level), preimage(sibling, current))
    } else {
        pedersen_hash_x(Some(level), preimage(current, sibling))
    }
}

/// The node reached from `current`, which stands at `level`, by climbing the
/// rest of `path`.
pub open spec fn climb(level: nat, current: nat, path: Seq<(bool, nat)>) -> nat
    decreases path.len() - level,
{
    if level >= path.len() {
        current
    } else {
        climb(level + 1, parent_of(level, current, path[level as int].0, path[level as int].1), path)
    }
}

/// The root that a note and its path lead to.
pub open spec fn root_of(nullifier: nat, secret: nat, path: Seq<(bool, nat)>) -> nat {
    climb(0, commitment_of(nullifier, secret), path)
}

/// Whether a witness reconstructs the claimed root, which is what the
/// circuit's one equality constraint asks.
pub open spec fn reconstructs(nullifier: nat, secret: nat, path: Seq<(bool, nat)>, root: nat) -> bool {
    root_of(nullifier, secret, path) == root
}

/// `sapling_crypto_ce::babyjubjub::JubjubBn256`, of which nothing is read.
#[verifier::external_type_specification]
#[verifier::external_body]
pub struct ExJubjubBn256(JubjubBn256);

/// `JubjubBn256::new`: the curve constants and generator tables.
#[verifier::external_body]
fn curve_parameters() -> JubjubBn256 {
    JubjubBn256::new()
}

/// `baby_pedersen_hash::pedersen_hash` over `Bn256`, followed by
/// `Point::into_xy` and `Fr::into_repr`.  The limbs handed back hold the
/// x-coordinate of the hash of `bits` under the domain, reduced below the
/// modulus of the base field.  The outside function refuses a level of 62
/// or more, and runs out of generators on very long inputs.
#[verifier::external_body]
fn pedersen_hash_limbs(params: &JubjubBn256, domain: Domain, bits: &Vec<bool>) -> (limbs: [u64; 4])
    requires
        domain matches Domain::MerkleTree(level) ==> level < MAX_DEPTH,
        bits@.len() == 2 * FIELD_BITS,
    ensures
        limbs_value(limbs@) == pedersen_hash_x(domain@, bits@),
        limbs_value(limbs@) < base_modulus(),
{
    let tag = match domain {
        Domain::NoteCommitment => Personalization::NoteCommitment,
        Domain::MerkleTree(level) => Personalization::MerkleTree(level),
    };
    pedersen_hash::<Bn256, _>(tag, bits.iter().cloned(), params).into_xy().0.into_repr().0
}

/// The hash with its curve parameters at hand.
pub struct Hasher {
    params: JubjubBn256,
}

impl Hasher {
    /// Sets up the curve parameters.
    pub fn new() -> Hasher {
        Hasher { params: curve_parameters() }
    }

    /// The curve parameters, for the gadgets that hash inside a circuit.
    pub fn curve(&self) -> (params: &JubjubBn256)
        ensures
            *params == self.curve_constants(),
    {
        &self.params
    }

    /// The curve parameters that the hasher holds and hashes with.
    pub closed spec fn curve_constants(&self) -> JubjubBn256 {
        self.params
    }

    /// Hashes two field elements under a domain.
    pub fn hash_pair(&self, domain: Domain, left: &FieldElement, right: &FieldElement) -> (out:
        FieldElement)
        requires
            domain matches Domain::MerkleTree(level) ==> level < MAX_DEPTH,
        ensures
            out@ == pedersen_hash_x(domain@, preimage(left@, right@)),
            out@ < base_modulus(),
    {
        let mut bits = left.bits();
        let mut tail = right.bits();
        proof {
            lemma_bits_len(left@, FIELD_BITS as nat);
            lemma_bits_len(right@, FIELD_BITS as nat);
        }
        bits.append(&mut tail);
        FieldElement::from_limbs(pedersen_hash_limbs(&self.params, domain, &bits))
    }

    /// The leaf that commits to a nullifier and a secret.
    pub fn commitment(&self, nullifier: &Scalar, secret: &Scalar) -> (leaf: FieldElement)
        ensures
            leaf@ == commitment_of(nullifier@, secret@),
    {
        self.hash_pair(Domain::NoteCommitment, &nullifier.to_field(), &secret.to_field())
    }

    /// The parent of `current` and the sibling that `element` names, both
    /// standing at `level`.
    pub fn parent(&self, level: usize, current: &FieldElement, element: &PathElement) -> (out:
        FieldElement)
        requires
            level < MAX_DEPTH,
        ensures
            out@ == parent_of(level as nat, current@, element.side, element.sibling@),
    {
        let sibling = element.sibling.to_field();
        if element.side {
            self.hash_pair(Domain::MerkleTree(level), &sibling, current)
        } else {
            self.hash_pair(Domain::MerkleTree(level), current, &sibling)
        }
    }

    /// The root reached from a leaf by climbing `path`; `None` when the path
    /// is deeper than the hash has levels.
    pub fn climb(&self, leaf: FieldElement, path: &Vec<PathElement>) -> (r: Option<FieldElement>)
        ensures
            match r {
                Some(root) => path@.len() <= MAX_DEPTH && root@ == climb(
                    0,
                    leaf@,
                    path_view(path@),
                ),
                None => path@.len() > MAX_DEPTH,
            },
    {
        if path.len() > MAX_DEPTH {
            return None;
        }
        let ghost levels = path_view(path@);
        let ghost start = leaf@;
        let mut current = leaf;
        let mut level: usize = 0;
        while level < path.len()
            invariant
                level <= path@.len() <= MAX_DEPTH,
                levels == path_view(path@),
                climb(0, start, levels) == climb(level as nat, current@, levels),
            decreases path@.len() - level,
        {
            assert(levels[level as int] == path@[level as int]@);
            current = self.parent(level, &current, &path[level]);
            level = level + 1;
        }
        Some(current)
    }

    /// The root that a note and its path lead to; `None` when the path is
    /// deeper than the hash has levels.
    pub fn root(&self, nullifier: &Scalar, secret: &Scalar, path: &Vec<PathElement>) -> (r: Option<
        FieldElement,
    >)
        ensures
            match r {
                Some(root) => path@.len() <= MAX_DEPTH && root@ == root_of(
                    nullifier@,
                    secret@,
                    path_view(path@),
                ),
                None => path@.len() > MAX_DEPTH,
            },
    {
        self.climb(self.commitment(nullifier, secret), path)
    }

    /// Whether a witness reconstructs the claimed root; `None` when the path
    /// is deeper than the hash has levels.
    pub fn check(&self, nullifier: &Scalar, secret: &Scalar, path: &Vec<PathElement>, root: &Scalar)
        -> (r: Option<bool>)
        ensures
            match r {
                Some(ok) => path@.len() <= MAX_DEPTH && ok == reconstructs(
                    nullifier@,
                    secret@,
                    path_view(path@),
                    root@,
                ),
                None => path@.len() > MAX_DEPTH,
            },
    {
        match self.root(nullifier, secret, path) {
            Some(found) => Some(found.same_as(&root.to_field())),
            None => None,
        }
    }
}

/// A witness is accepted with the root that it folds to, and with no other
/// root: changing the claimed root in any way, be it one bit, makes the
/// check fail.
pub proof fn lemma_only_folded_root_accepted(
    nullifier: nat,
    secret: nat,
    path: Seq<(bool, nat)>,
    root: nat,
)
    ensures
        reconstructs(nullifier, secret, path, root_of(nullifier, secret, path)),
        root != root_of(nullifier, secret, path) ==> !reconstructs(nullifier, secret, path, root),
{
}

/// The number that differs from `v` in bit `i` and in no other bit.
pub open spec fn flip_bit(v: nat, i: nat) -> nat {
    let weight = vstd::arithmetic::power2::pow2(i);
    if (v / weight) % 2 == 1 {
        (v - weight) as nat
    } else {
        v + weight
    }
}

/// A witness that reconstructs a root does not reconstruct that root with
/// one of its bits flipped.
pub proof fn lemma_flipped_root_rejected(
    nullifier: nat,
    secret: nat,
    path: Seq<(bool, nat)>,
    root: nat,
    i: nat,
)
    requires
        reconstructs(nullifier, secret, path, root),
    ensures
        !reconstructs(nullifier, secret, path, flip_bit(root, i)),
{
    let weight = vstd::arithmetic::power2::pow2(i);
    vstd::arithmetic::power2::lemma_pow2_pos(i);
    if (root / weight) % 2 == 1 {
        assert(root >= weight) by {
            if root < weight {
                vstd::arithmetic::div_mod::lemma_basic_div(root as int, weight as int);
            }
        }
    }
}

/// The bits that enter a hash tell the pair apart that they were made from:
/// two pairs of field elements with the same preimage are the same pair.
pub proof fn lemma_preimage_injective(left: nat, right: nat, other_left: nat, other_right: nat)
    requires
        left < base_modulus(),
        right < base_modulus(),
        other_left < base_modulus(),
        other_right < base_modulus(),
        preimage(left, right) == preimage(other_left, other_right),
    ensures
        left == other_left,
        right == other_right,
{
    let n = FIELD_BITS as nat;
    lemma_bits_len(left, n);
    lemma_bits_len(right, n);
    lemma_bits_len(other_left, n);
    lemma_bits_len(other_right, n);
    let whole = preimage(left, right);
    assert(whole.subrange(0, n as int) =~= bits_le(left, n));
    assert(whole.subrange(0, n as int) =~= bits_le(other_left, n));
    assert(whole.subrange(n as int, 2 * n as int) =~= bits_le(right, n));
    assert(whole.subrange(n as int, 2 * n as int) =~= bits_le(other_right, n));
    lemma_bits_injective(left, other_left);
    lemma_bits_injective(right, other_right);
}

/// Climbing a path one level longer is climbing the shorter path and then
/// taking the parent at the last level.
pub proof fn lemma_climb_push(leaf: nat, path: Seq<(bool, nat)>, last: (bool, nat))
    ensures
        climb(0, leaf, path.push(last)) == parent_of(
            path.len(),
            climb(0, leaf, path),
            last.0,
            last.1,
        ),
{
    lemma_climb_push_from(0, leaf, path, last);
}

proof fn lemma_climb_push_from(level: nat, current: nat, path: Seq<(bool, nat)>, last: (bool, nat))
    requires
        level <= path.len(),
    ensures
        climb(level, current, path.push(last)) == parent_of(
            path.len(),
            climb(level, current, path),
            last.0,
            last.1,
        ),
    decreases path.len() - level,
{
    let longer = path.push(last);
    if level < path.len() {
        assert(longer[level as int] == path[level as int]);
        lemma_climb_push_from(
            level + 1,
            parent_of(level, current, path[level as int].0, path[level as int].1),
            path,
            last,
        );
    } else {
        assert(longer[level as int] == last);
        assert(climb(level + 1, parent_of(level, current, last.0, last.1), longer) == parent_of(
            level,
            current,
            last.0,
            last.1,
        ));
    }
}

} // verus!
