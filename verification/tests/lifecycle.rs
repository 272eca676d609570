use test_123::ledger::{LedgerEntry, ModelLedger};
use test_123::ops::{create, delete, increment};
use test_123::types::{
    Claim, CommitError, CommitRequest, CompressedAccountMeta, PackedAddressMerkleContext,
    RecordDiff, ValidityProof,
};

fn owner_bytes(tag: u8) -> [u8; 32] {
    let mut b = [0u8; 32];
    b[0] = tag;
    b
}

fn tree_bytes() -> [u8; 32] {
    let mut b = [0u8; 32];
    b[31] = 7;
    b
}

fn program_bytes() -> [u8; 32] {
    let mut b = [0u8; 32];
    b[31] = 9;
    b
}

fn context() -> PackedAddressMerkleContext {
    PackedAddressMerkleContext {
        address_merkle_tree_pubkey_index: 0,
        address_queue_pubkey_index: 1,
        root_index: 4,
    }
}

fn meta_for(address: [u8; 32]) -> CompressedAccountMeta {
    CompressedAccountMeta {
        address,
        merkle_tree_pubkey_index: 2,
        queue_pubkey_index: 3,
        leaf_index: 0,
        root_index: 4,
        output_merkle_tree_index: 5,
    }
}

fn do_create(ledger: &mut ModelLedger, owner: [u8; 32]) -> ([u8; 32], Result<(), CommitError>) {
    let (address, _seed) =
        test_123::address::derive_record_address(&owner, &tree_bytes(), &program_bytes());
    let proof = ledger.issue_proof(vec![Claim::NonInclusion { address }]);
    let request = create(owner, program_bytes(), tree_bytes(), context(), 0, proof);
    let r = ledger.commit(request);
    (address, r)
}

fn do_increment(
    ledger: &mut ModelLedger,
    owner: [u8; 32],
    address: [u8; 32],
    claimed: u64,
) -> Result<(), CommitError> {
    let proof = ledger.issue_proof(vec![Claim::Inclusion { address, owner, counter: claimed }]);
    let request = increment(owner, claimed, meta_for(address), proof);
    ledger.commit(request)
}

fn do_delete(
    ledger: &mut ModelLedger,
    owner: [u8; 32],
    address: [u8; 32],
    claimed: u64,
) -> Result<(), CommitError> {
    let proof = ledger.issue_proof(vec![Claim::Inclusion { address, owner, counter: claimed }]);
    let request = delete(owner, claimed, meta_for(address), proof);
    ledger.commit(request)
}

#[test]
fn end_to_end_lifecycle() {
    let mut ledger = ModelLedger::new();
    let owner = owner_bytes(1);

    let (address, r) = do_create(&mut ledger, owner);
    assert!(r.is_ok());
    let record = ledger.get_record(&address).expect("record must be live after create");
    assert_eq!(record.owner, owner);
    assert_eq!(record.counter, 0);

    let r = do_increment(&mut ledger, owner, address, 0);
    assert!(r.is_ok());
    let record = ledger.get_record(&address).expect("record must stay live after increment");
    assert_eq!(record.owner, owner);
    assert_eq!(record.counter, 1);

    let r = do_delete(&mut ledger, owner, address, 1);
    assert!(r.is_ok());
    assert!(ledger.get_record(&address).is_none());
    let owned: Vec<LedgerEntry> = ledger.owned_records(&owner);
    assert_eq!(owned.len(), 0);
}

#[test]
fn monotonic_counter_over_successful_increments() {
    let mut ledger = ModelLedger::new();
    let owner = owner_bytes(2);
    let (address, r) = do_create(&mut ledger, owner);
    assert!(r.is_ok());
    for n in 0..5u64 {
        let r = do_increment(&mut ledger, owner, address, n);
        assert!(r.is_ok());
        let record = ledger.get_record(&address).unwrap();
        assert_eq!(record.counter, n + 1);
    }
}

#[test]
fn lifecycle_order_requires_create_first() {
    let mut ledger = ModelLedger::new();
    let owner = owner_bytes(3);
    let (address, _seed) =
        test_123::address::derive_record_address(&owner, &tree_bytes(), &program_bytes());

    let r = do_increment(&mut ledger, owner, address, 0);
    assert!(matches!(r, Err(CommitError::ProofRejected)));
    let r = do_delete(&mut ledger, owner, address, 0);
    assert!(matches!(r, Err(CommitError::ProofRejected)));
    assert!(ledger.get_record(&address).is_none());
}

#[test]
fn replay_of_spent_increment_is_rejected() {
    let mut ledger = ModelLedger::new();
    let owner = owner_bytes(4);
    let (address, r) = do_create(&mut ledger, owner);
    assert!(r.is_ok());

    let proof = ledger.issue_proof(vec![Claim::Inclusion { address, owner, counter: 0 }]);
    let request = increment(owner, 0, meta_for(address), proof);
    let replay: CommitRequest = request.clone();

    assert!(ledger.commit(request).is_ok());
    assert_eq!(ledger.get_record(&address).unwrap().counter, 1);

    let r = ledger.commit(replay);
    assert!(matches!(r, Err(CommitError::ProofRejected)));
    assert_eq!(ledger.get_record(&address).unwrap().counter, 1);
}

#[test]
fn commit_failure_leaves_no_partial_state() {
    let mut ledger = ModelLedger::new();
    let owner = owner_bytes(5);

    ledger.set_available(false);
    let (address, r) = do_create(&mut ledger, owner);
    assert!(matches!(r, Err(CommitError::CommitFailure)));
    assert!(ledger.get_record(&address).is_none());
    assert_eq!(ledger.owned_records(&owner).len(), 0);

    ledger.set_available(true);
    let (_, r) = do_create(&mut ledger, owner);
    assert!(r.is_ok());
    assert_eq!(ledger.owned_records(&owner).len(), 1);
}

#[test]
fn create_of_live_address_is_a_conflict() {
    let mut ledger = ModelLedger::new();
    let owner = owner_bytes(6);
    let (address, r) = do_create(&mut ledger, owner);
    assert!(r.is_ok());

    let (address_again, r) = do_create(&mut ledger, owner);
    assert_eq!(address, address_again);
    assert!(matches!(r, Err(CommitError::AddressConflict)));
    assert_eq!(ledger.get_record(&address).unwrap().counter, 0);
}

#[test]
fn wrong_owner_is_an_authorization_mismatch() {
    let mut ledger = ModelLedger::new();
    let owner = owner_bytes(7);
    let intruder = owner_bytes(8);
    let (address, r) = do_create(&mut ledger, owner);
    assert!(r.is_ok());

    let r = do_increment(&mut ledger, intruder, address, 0);
    assert!(matches!(r, Err(CommitError::AuthorizationMismatch)));
    assert_eq!(ledger.get_record(&address).unwrap().counter, 0);
}

#[test]
fn wrong_claimed_counter_is_rejected() {
    let mut ledger = ModelLedger::new();
    let owner = owner_bytes(9);
    let (address, r) = do_create(&mut ledger, owner);
    assert!(r.is_ok());

    let r = do_increment(&mut ledger, owner, address, 3);
    assert!(matches!(r, Err(CommitError::ProofRejected)));
    assert_eq!(ledger.get_record(&address).unwrap().counter, 0);
}

#[test]
fn proof_and_claims_must_be_paired() {
    let mut ledger = ModelLedger::new();
    let owner = owner_bytes(10);
    let (address, r) = do_create(&mut ledger, owner);
    assert!(r.is_ok());

    // proof issued for a different claim than the request embeds
    let proof = ledger.issue_proof(vec![Claim::Inclusion { address, owner, counter: 9 }]);
    let request = increment(owner, 0, meta_for(address), proof);
    let r = ledger.commit(request);
    assert!(matches!(r, Err(CommitError::ProofRejected)));
    assert_eq!(ledger.get_record(&address).unwrap().counter, 0);
}

#[test]
fn stale_proof_from_older_version_is_rejected() {
    let mut ledger = ModelLedger::new();
    let owner = owner_bytes(11);
    let (address, r) = do_create(&mut ledger, owner);
    assert!(r.is_ok());

    // issued now, but another commit advances the ledger before use
    let stale = ledger.issue_proof(vec![Claim::Inclusion { address, owner, counter: 0 }]);
    let r = do_increment(&mut ledger, owner, address, 0);
    assert!(r.is_ok());

    let request = increment(owner, 1, meta_for(address), stale);
    let r = ledger.commit(request);
    assert!(matches!(r, Err(CommitError::ProofRejected)));
    assert_eq!(ledger.get_record(&address).unwrap().counter, 1);
}

#[test]
fn unknown_proof_is_rejected() {
    let mut ledger = ModelLedger::new();
    let owner = owner_bytes(12);
    let (address, r) = do_create(&mut ledger, owner);
    assert!(r.is_ok());

    let forged = ValidityProof { data: vec![255, 255, 255] };
    let request = increment(owner, 0, meta_for(address), forged);
    let r = ledger.commit(request);
    assert!(matches!(r, Err(CommitError::ProofRejected)));
    assert_eq!(ledger.get_record(&address).unwrap().counter, 0);
}

#[test]
fn create_request_shape_and_seed_threading() {
    let owner = owner_bytes(13);
    let (address, seed) =
        test_123::address::derive_record_address(&owner, &tree_bytes(), &program_bytes());
    let proof = ValidityProof { data: vec![1, 2, 3] };
    let request = create(owner, program_bytes(), tree_bytes(), context(), 6, proof);

    assert_eq!(request.validity_proof.data, vec![1, 2, 3]);
    assert_eq!(request.diffs.len(), 1);
    match request.diffs[0] {
        RecordDiff::Init { address: a, output_merkle_tree_index, account } => {
            assert_eq!(a, address);
            assert_eq!(output_merkle_tree_index, 6);
            assert_eq!(account.owner, owner);
            assert_eq!(account.counter, 0);
        }
        _ => panic!("create must build an init diff"),
    }
    assert_eq!(request.new_addresses.len(), 1);
    assert_eq!(request.new_addresses[0].seed, seed);
    assert_eq!(request.new_addresses[0].address_merkle_tree_account_index, 0);
    assert_eq!(request.new_addresses[0].address_queue_account_index, 1);
    assert_eq!(request.new_addresses[0].address_merkle_tree_root_index, 4);
}

#[test]
fn increment_and_delete_request_shapes() {
    let owner = owner_bytes(14);
    let address = owner_bytes(15);
    let meta = meta_for(address);

    let request = increment(owner, 41, meta, ValidityProof { data: vec![] });
    assert_eq!(request.new_addresses.len(), 0);
    match request.diffs[0] {
        RecordDiff::Mutate { meta: m, prior, next } => {
            assert_eq!(m.address, address);
            assert_eq!(m.root_index, 4);
            assert_eq!(prior.owner, owner);
            assert_eq!(prior.counter, 41);
            assert_eq!(next.owner, owner);
            assert_eq!(next.counter, 42);
        }
        _ => panic!("increment must build a mutation diff"),
    }

    let request = delete(owner, 41, meta, ValidityProof { data: vec![] });
    assert_eq!(request.new_addresses.len(), 0);
    match request.diffs[0] {
        RecordDiff::Close { meta: m, prior } => {
            assert_eq!(m.address, address);
            assert_eq!(prior.owner, owner);
            assert_eq!(prior.counter, 41);
        }
        _ => panic!("delete must build a close diff"),
    }
}

#[test]
fn counter_wraps_silently_at_the_boundary() {
    assert_eq!(test_123::types::counter_successor(0), 1);
    assert_eq!(test_123::types::counter_successor(41), 42);
    assert_eq!(test_123::types::counter_successor(u64::MAX), 0);

    let request = increment(
        owner_bytes(16),
        u64::MAX,
        meta_for(owner_bytes(17)),
        ValidityProof { data: vec![] },
    );
    match request.diffs[0] {
        RecordDiff::Mutate { next, .. } => assert_eq!(next.counter, 0),
        _ => panic!("increment must build a mutation diff"),
    }
}
