//! The data the lifecycle operations work on: the record itself, the packed
//! references into caller-supplied resources, the opaque validity proof, and
//! the diffs handed to the commit sink.

use vstd::prelude::*;

verus! {

/// The logical record managed by this library: one counter per owner.
/// Its authoritative state lives in the external ledger; values of this type
/// are only ever claims about that state or diffs against it.
#[derive(Clone, Copy, Debug)]
pub struct CounterCompressedAccount {
    pub owner: [u8; 32],
    pub counter: u64,
}

/// Compact reference to the address tree and queue a new address is derived
/// against: small indices into the caller-supplied account list, plus the
/// index of the tree root the accompanying proof was generated for.
#[derive(Clone, Copy, Debug)]
pub struct PackedAddressMerkleContext {
    pub address_merkle_tree_pubkey_index: u8,
    pub address_queue_pubkey_index: u8,
    pub root_index: u16,
}

/// Metadata bundle locating an existing compressed record: its address, the
/// indices of its Merkle inclusion path, the root index its proof refers to,
/// and the tree that will host the record's next state.
#[derive(Clone, Copy, Debug)]
pub struct CompressedAccountMeta {
    pub address: [u8; 32],
    pub merkle_tree_pubkey_index: u8,
    pub queue_pubkey_index: u8,
    pub leaf_index: u32,
    pub root_index: u16,
    pub output_merkle_tree_index: u8,
}

/// Request to register one newly derived address with the external
/// system-of-record. The seed must be the one returned by address
/// derivation, threaded through unchanged.
#[derive(Clone, Copy, Debug)]
pub struct NewAddressParamsPacked {
    pub seed: [u8; 32],
    pub address_queue_account_index: u8,
    pub address_merkle_tree_account_index: u8,
    pub address_merkle_tree_root_index: u16,
}

/// Opaque validity evidence supplied by the caller. The core never
/// constructs or inspects it; it only pairs it with the prior-state claims
/// of exactly one commit and forwards it.
#[derive(Clone, Debug)]
pub struct ValidityProof {
    pub data: Vec<u8>,
}

/// One record diff handed to the commit sink, together with the lifecycle
/// intent it was built under and the prior-state claim it embeds.
#[derive(Clone, Copy, Debug)]
pub enum RecordDiff {
    /// Bring a record into existence at a freshly derived address.
    Init { address: [u8; 32], output_merkle_tree_index: u8, account: CounterCompressedAccount },
    /// Replace the record whose prior state is claimed by `prior`.
    Mutate { meta: CompressedAccountMeta, prior: CounterCompressedAccount, next: CounterCompressedAccount },
    /// Close the record whose prior state is claimed by `prior`.
    Close { meta: CompressedAccountMeta, prior: CounterCompressedAccount },
}

/// The ways the commit sink can refuse a batch. A refused batch is applied
/// in no part.
#[derive(Clone, Copy, Debug, PartialEq, Eq, Structural)]
pub enum CommitError {
    /// The proof is stale, unknown, or mismatched with the claims.
    ProofRejected,
    /// An address creation targets an address that is already live.
    AddressConflict,
    /// The claimed owner does not match the record's recorded owner.
    AuthorizationMismatch,
    /// The sink cannot apply the batch at all.
    CommitFailure,
}

/// A prior-state claim a validity proof attests: either that no record
/// lives at an address, or that a record with exactly the given fields does.
#[derive(Clone, Copy, Debug)]
pub enum Claim {
    NonInclusion { address: [u8; 32] },
    Inclusion { address: [u8; 32], owner: [u8; 32], counter: u64 },
}

/// Everything one lifecycle operation hands to the commit sink: the caller's
/// proof, the record diffs of the operation, and any address creations.
/// Applied atomically or not at all.
#[derive(Clone, Debug)]
pub struct CommitRequest {
    pub validity_proof: ValidityProof,
    pub diffs: Vec<RecordDiff>,
    pub new_addresses: Vec<NewAddressParamsPacked>,
}

/// The successor of a counter value: one more, wrapping silently at the
/// integer boundary.
pub open spec fn wrapping_inc(c: u64) -> u64 {
    if c == u64::MAX {
        0
    } else {
        (c + 1) as u64
    }
}

/// Increment a counter value by exactly one, wrapping silently at the
/// integer boundary.
pub fn counter_successor(c: u64) -> (r: u64)
    ensures
        r == wrapping_inc(c),
{
    if c == u64::MAX {
        0
    } else {
        c + 1
    }
}

/// Byte-wise equality of two 32-byte values.
pub fn bytes32_eq(a: &[u8; 32], b: &[u8; 32]) -> (r: bool)
    ensures
        r <==> a@ == b@,
{
    let mut i: usize = 0;
    while i < 32
        invariant
            0 <= i <= 32,
            forall|j: int| 0 <= j < i ==> a@[j] == b@[j],
        decreases 32 - i,
    {
        if a[i] != b[i] {
            return false;
        }
        i += 1;
    }
    proof {
        assert(a@ =~= b@);
    }
    true
}

} // verus!
