//! Address derivation: the deterministic mapping from the fixed namespace
//! tag, an owner identity, the target address tree and the owning program
//! to a stable 32-byte record address, plus the singular seed the commit
//! sink needs to register that address.

use vstd::prelude::*;
use light_sdk::PubkeyTrait;

verus! {

/// The singular address seed the external hasher folds a namespace tag, an
/// owner identity and a program id into. Stands for the result of
/// light_sdk's `derive_address_seed`, a Keccak-based digest of exactly
/// these inputs.
pub uninterp spec fn address_seed_of(namespace: Seq<u8>, owner: Seq<u8>, program_id: Seq<u8>) -> Seq<u8>;

/// The address the external hasher derives from a singular address seed
/// and the key of the address tree that will hold it. Stands for the
/// result of light_sdk's `derive_address_from_seed`, a Keccak-based digest
/// of exactly these inputs.
pub uninterp spec fn address_of(address_seed: Seq<u8>, tree_pubkey: Seq<u8>) -> Seq<u8>;

/// The fixed namespace tag of counter records: the bytes of "counter".
pub open spec fn counter_namespace() -> Seq<u8> {
    seq![99u8, 111u8, 117u8, 110u8, 116u8, 101u8, 114u8]
}

/// The singular seed of the counter record of one owner under one program.
pub open spec fn counter_address_seed(owner: Seq<u8>, program_id: Seq<u8>) -> Seq<u8> {
    address_seed_of(counter_namespace(), owner, program_id)
}

/// The address of the counter record of one owner, on one address tree,
/// under one program.
pub open spec fn counter_address(owner: Seq<u8>, tree_pubkey: Seq<u8>, program_id: Seq<u8>) -> Seq<u8> {
    address_of(counter_address_seed(owner, program_id), tree_pubkey)
}

/// Relies on light_sdk::address::v1::derive_address, which composes
/// `derive_address_seed` over the seed slices and the program id with
/// `derive_address_from_seed` over that seed and the tree key, and returns
/// both digests. Both are functions of these byte inputs alone, and the
/// call cannot fail for a two-element seed list.
#[verifier::external_body]
fn derive_address_call(
    namespace: &[u8; 7],
    owner: &[u8; 32],
    tree_pubkey: &[u8; 32],
    program_id: &[u8; 32],
) -> (r: ([u8; 32], [u8; 32]))
    ensures
        r.1@ == address_seed_of(namespace@, owner@, program_id@),
        r.0@ == address_of(address_seed_of(namespace@, owner@, program_id@), tree_pubkey@),
{
    let (address, seed) = light_sdk::address::v1::derive_address(
        &[namespace.as_slice(), owner.as_slice()],
        &tree_pubkey.to_solana_pubkey(),
        &program_id.to_solana_pubkey(),
    );
    (address, seed.0)
}

/// The Address Deriver: maps an owner identity, the target address tree and
/// the owning program to the record's stable address and the singular seed
/// the commit sink needs to register it. Deterministic and pure: equal
/// inputs always yield equal results.
pub fn derive_record_address(
    owner: &[u8; 32],
    address_tree_pubkey: &[u8; 32],
    program_id: &[u8; 32],
) -> (r: ([u8; 32], [u8; 32]))
    ensures
        r.0@ == counter_address(owner@, address_tree_pubkey@, program_id@),
        r.1@ == counter_address_seed(owner@, program_id@),
{
    let namespace: [u8; 7] = [99u8, 111u8, 117u8, 110u8, 116u8, 101u8, 114u8];
    proof {
        assert(namespace@ =~= counter_namespace());
    }
    derive_address_call(&namespace, owner, address_tree_pubkey, program_id)
}

} // verus!
