//! The three lifecycle operations. Each is a pure transformation from the
//! caller's inputs to the one commit request of the operation: the proof is
//! threaded through unchanged, and the request holds exactly one record
//! diff (and, for Create, exactly one address creation).

use vstd::prelude::*;
use crate::address::{counter_address, counter_address_seed, derive_record_address};
use crate::types::{
    CommitRequest, CompressedAccountMeta, CounterCompressedAccount, NewAddressParamsPacked,
    PackedAddressMerkleContext, RecordDiff, ValidityProof, counter_successor, wrapping_inc,
};

verus! {

/// What it means for a request to be the one Create builds: one init diff
/// at the derived address with `counter = 0`, and one address creation
/// carrying the derived seed and the packed tree references unchanged.
pub open spec fn is_create_request(
    r: CommitRequest,
    owner: Seq<u8>,
    program_id: Seq<u8>,
    address_tree_pubkey: Seq<u8>,
    address_merkle_context: PackedAddressMerkleContext,
    output_merkle_tree_index: u8,
) -> bool {
    &&& r.diffs@.len() == 1
    &&& r.diffs@[0] matches RecordDiff::Init { address, output_merkle_tree_index: oi, account }
        && address@ == counter_address(owner, address_tree_pubkey, program_id)
        && oi == output_merkle_tree_index
        && account.owner@ == owner
        && account.counter == 0
    &&& r.new_addresses@.len() == 1
    &&& r.new_addresses@[0].seed@ == counter_address_seed(owner, program_id)
    &&& r.new_addresses@[0].address_queue_account_index
        == address_merkle_context.address_queue_pubkey_index
    &&& r.new_addresses@[0].address_merkle_tree_account_index
        == address_merkle_context.address_merkle_tree_pubkey_index
    &&& r.new_addresses@[0].address_merkle_tree_root_index == address_merkle_context.root_index
}

/// What it means for a request to be the one Increment builds: a single
/// mutation diff whose prior state is the caller's claim and whose next
/// state raises the counter by exactly one, every other field unchanged.
pub open spec fn is_increment_request(
    r: CommitRequest,
    owner: Seq<u8>,
    counter_value: u64,
    address: Seq<u8>,
) -> bool {
    &&& r.diffs@.len() == 1
    &&& r.diffs@[0] matches RecordDiff::Mutate { meta, prior, next }
        && meta.address@ == address
        && prior.owner@ == owner
        && prior.counter == counter_value
        && next.owner@ == owner
        && next.counter == wrapping_inc(counter_value)
    &&& r.new_addresses@.len() == 0
}

/// What it means for a request to be the one Delete builds: a single close
/// diff whose prior state is the caller's claim, and no mutation at all.
pub open spec fn is_delete_request(
    r: CommitRequest,
    owner: Seq<u8>,
    counter_value: u64,
    address: Seq<u8>,
) -> bool {
    &&& r.diffs@.len() == 1
    &&& r.diffs@[0] matches RecordDiff::Close { meta, prior }
        && meta.address@ == address
        && prior.owner@ == owner
        && prior.counter == counter_value
    &&& r.new_addresses@.len() == 0
}

/// Create: derive the record's address from the owner alone (beyond the
/// fixed namespace), build the init diff with `counter = 0`, and package it
/// with one address-creation request carrying the seed unchanged.
pub fn create(
    owner: [u8; 32],
    program_id: [u8; 32],
    address_tree_pubkey: [u8; 32],
    address_merkle_context: PackedAddressMerkleContext,
    output_merkle_tree_index: u8,
    validity_proof: ValidityProof,
) -> (r: CommitRequest)
    ensures
        r.validity_proof == validity_proof,
        is_create_request(
            r,
            owner@,
            program_id@,
            address_tree_pubkey@,
            address_merkle_context,
            output_merkle_tree_index,
        ),
{
    let (address, seed) = derive_record_address(&owner, &address_tree_pubkey, &program_id);
    let account = CounterCompressedAccount { owner, counter: 0 };
    let diff = RecordDiff::Init { address, output_merkle_tree_index, account };
    let params = NewAddressParamsPacked {
        seed,
        address_queue_account_index: address_merkle_context.address_queue_pubkey_index,
        address_merkle_tree_account_index: address_merkle_context
            .address_merkle_tree_pubkey_index,
        address_merkle_tree_root_index: address_merkle_context.root_index,
    };
    let mut diffs: Vec<RecordDiff> = Vec::new();
    diffs.push(diff);
    let mut new_addresses: Vec<NewAddressParamsPacked> = Vec::new();
    new_addresses.push(params);
    CommitRequest { validity_proof, diffs, new_addresses }
}

/// Increment: rebuild the record from the caller's claimed prior state,
/// raise the counter by exactly one (wrapping silently at the integer
/// boundary), and package the single mutation diff.
pub fn increment(
    owner: [u8; 32],
    counter_value: u64,
    account_meta: CompressedAccountMeta,
    validity_proof: ValidityProof,
) -> (r: CommitRequest)
    ensures
        r.validity_proof == validity_proof,
        is_increment_request(r, owner@, counter_value, account_meta.address@),
        r.diffs@[0] matches RecordDiff::Mutate { meta, .. } && meta == account_meta,
{
    let prior = CounterCompressedAccount { owner, counter: counter_value };
    let next = CounterCompressedAccount { owner, counter: counter_successor(counter_value) };
    let diff = RecordDiff::Mutate { meta: account_meta, prior, next };
    let mut diffs: Vec<RecordDiff> = Vec::new();
    diffs.push(diff);
    CommitRequest { validity_proof, diffs, new_addresses: Vec::new() }
}

/// Delete: rebuild the record from the caller's claimed prior state and
/// package the single close diff. No field is mutated.
pub fn delete(
    owner: [u8; 32],
    counter_value: u64,
    account_meta: CompressedAccountMeta,
    validity_proof: ValidityProof,
) -> (r: CommitRequest)
    ensures
        r.validity_proof == validity_proof,
        is_delete_request(r, owner@, counter_value, account_meta.address@),
        r.diffs@[0] matches RecordDiff::Close { meta, .. } && meta == account_meta,
{
    let prior = CounterCompressedAccount { owner, counter: counter_value };
    let diff = RecordDiff::Close { meta: account_meta, prior };
    let mut diffs: Vec<RecordDiff> = Vec::new();
    diffs.push(diff);
    CommitRequest { validity_proof, diffs, new_addresses: Vec::new() }
}

} // verus!
