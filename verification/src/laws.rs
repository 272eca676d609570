//! The lifecycle guarantees of the library, stated and proved against the
//! commit model. Atomicity itself — a refused commit changes nothing — is
//! stated directly on `ModelLedger::commit`: its outcome on any error is
//! the old ledger state unchanged.

use vstd::prelude::*;
use crate::address::counter_address;
use crate::ledger::{
    RecordV, LedgerV, apply_diff, apply_diffs, commit_outcome, diff_address, diff_error,
    diffs_error, existing_error, record_view,
};
use crate::ops::is_increment_request;
use crate::types::{CommitError, CommitRequest, RecordDiff, wrapping_inc};

verus! {

/// Law: address derivation is deterministic — for equal owner, tree and
/// program inputs, the derived address is the same.
pub proof fn lemma_address_derivation_deterministic(
    owner1: Seq<u8>,
    tree1: Seq<u8>,
    program1: Seq<u8>,
    owner2: Seq<u8>,
    tree2: Seq<u8>,
    program2: Seq<u8>,
)
    requires
        owner1 == owner2,
        tree1 == tree2,
        program1 == program2,
    ensures
        counter_address(owner1, tree1, program1) == counter_address(owner2, tree2, program2),
{
}

/// Law: lifecycle order — a mutation or close against an address with no
/// live record (no prior successful create) is rejected as ProofRejected,
/// and, by commit atomicity, changes nothing.
pub proof fn lemma_lifecycle_order(v: LedgerV, request: CommitRequest)
    requires
        v.available,
        request.diffs@.len() == 1,
        request.diffs@[0] is Mutate || request.diffs@[0] is Close,
        !v.records.dom().contains(diff_address(request.diffs@[0])),
    ensures
        commit_outcome(v, request) == Err::<LedgerV, CommitError>(CommitError::ProofRejected),
{
    let d = request.diffs@[0];
    assert(diff_error(v.records, d) == Some(CommitError::ProofRejected));
    assert(!Set::<Seq<u8>>::empty().contains(diff_address(d)));
    assert(diffs_error(v.records, Set::empty(), request.diffs@) == Some(
        CommitError::ProofRejected,
    ));
}

/// Law (increment step): a successful commit of an increment request finds
/// the record live with exactly the claimed owner and counter, raises the
/// counter by exactly one, touches no other record, and advances the
/// version by one.
pub proof fn lemma_increment_step(
    v: LedgerV,
    request: CommitRequest,
    v2: LedgerV,
    owner: Seq<u8>,
    counter_value: u64,
    address: Seq<u8>,
)
    requires
        is_increment_request(request, owner, counter_value, address),
        commit_outcome(v, request) == Ok::<LedgerV, CommitError>(v2),
    ensures
        v.records.dom().contains(address),
        v.records[address].owner == owner,
        v.records[address].counter == counter_value,
        v2.records.dom().contains(address),
        v2.records[address] == (RecordV { owner, counter: wrapping_inc(counter_value) }),
        forall|b: Seq<u8>|
            b != address ==> ((#[trigger] v2.records.dom().contains(b)) <==> v.records.dom()
                .contains(b)) && (v.records.dom().contains(b) ==> v2.records[b] == v.records[b]),
        v2.version == v.version + 1,
        v2.proofs == v.proofs,
        v2.available == v.available,
{
    let d = request.diffs@[0];
    let meta = d->Mutate_meta;
    let prior = d->Mutate_prior;
    let next = d->Mutate_next;
    assert(!Set::<Seq<u8>>::empty().contains(diff_address(d)));
    assert(diffs_error(v.records, Set::empty(), request.diffs@) is None);
    assert(diff_error(v.records, d) is None);
    assert(existing_error(v.records, meta.address@, prior) is None);
    assert(request.diffs@.drop_first().len() == 0);
    assert(apply_diffs(v.records, request.diffs@) == apply_diff(v.records, d)) by {
        assert(apply_diffs(apply_diff(v.records, d), request.diffs@.drop_first()) == apply_diff(
            v.records,
            d,
        ));
    };
    assert(v2.records == v.records.insert(address, record_view(next)));
    assert(record_view(next) == (RecordV { owner, counter: wrapping_inc(counter_value) }));
}

/// A run of increments against one address, each one committed
/// successfully: state i+1 is the Ok outcome of an increment request (for
/// some claimed counter value) against state i.
pub open spec fn increment_run(
    states: Seq<LedgerV>,
    requests: Seq<CommitRequest>,
    owner: Seq<u8>,
    address: Seq<u8>,
) -> bool {
    &&& states.len() == requests.len() + 1
    &&& forall|i: int|
        0 <= i < requests.len() ==> (exists|c: u64|
            is_increment_request(#[trigger] requests[i], owner, c, address)) && commit_outcome(
            states[i],
            requests[i],
        ) == Ok::<LedgerV, CommitError>(states[i + 1])
}

/// Law: monotonic counter — in any run of successful increments against
/// one address whose record starts at counter 0, the n-th success leaves
/// the counter at exactly n. (At most `u64::MAX` increments: beyond that
/// the counter wraps by design.)
pub proof fn lemma_monotonic_counter(
    states: Seq<LedgerV>,
    requests: Seq<CommitRequest>,
    owner: Seq<u8>,
    address: Seq<u8>,
)
    requires
        increment_run(states, requests, owner, address),
        requests.len() <= u64::MAX,
        states[0].records.dom().contains(address),
        states[0].records[address].owner == owner,
        states[0].records[address].counter == 0,
    ensures
        states[states.len() - 1].records.dom().contains(address),
        states[states.len() - 1].records[address].owner == owner,
        states[states.len() - 1].records[address].counter == requests.len(),
    decreases requests.len(),
{
    let n: int = requests.len() as int;
    if n > 0 {
        let prefix_states = states.drop_last();
        let prefix_requests = requests.drop_last();
        assert(increment_run(prefix_states, prefix_requests, owner, address)) by {
            assert(forall|i: int|
                0 <= i < prefix_requests.len() ==> prefix_requests[i] == requests[i]);
            assert(forall|i: int| 0 <= i < prefix_states.len() ==> prefix_states[i] == states[i]);
        };
        lemma_monotonic_counter(prefix_states, prefix_requests, owner, address);
        assert(prefix_states[prefix_states.len() - 1] == states[n - 1]);
        let c = choose|c: u64| #[trigger] is_increment_request(requests[n - 1], owner, c, address);
        assert(commit_outcome(states[n - 1], requests[n - 1]) == Ok::<LedgerV, CommitError>(
            states[n],
        ));
        lemma_increment_step(states[n - 1], requests[n - 1], states[n], owner, c, address);
        assert(c == n - 1);
        assert(wrapping_inc(c) == n);
    }
}

/// Law: idempotence boundary — replaying any request after a successful
/// commit is rejected as ProofRejected: its proof was bound to the version
/// the commit superseded.
pub proof fn lemma_replay_rejected(v: LedgerV, request: CommitRequest, v2: LedgerV)
    requires
        commit_outcome(v, request) == Ok::<LedgerV, CommitError>(v2),
    ensures
        commit_outcome(v2, request) == Err::<LedgerV, CommitError>(CommitError::ProofRejected),
{
}

} // verus!
