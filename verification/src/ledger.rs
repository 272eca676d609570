//! A verified model of the external system-of-record at its interface
//! boundary: it issues validity proofs for sets of prior-state claims and
//! applies commit requests atomically — every diff and address creation of
//! a batch, or none. The lifecycle guarantees of the library are stated
//! and proved against this model.

use vstd::prelude::*;
use crate::types::{
    Claim, CommitError, CommitRequest, CounterCompressedAccount, RecordDiff, ValidityProof,
    bytes32_eq,
};

verus! {

// ---------------------------------------------------------------------
// Spec-level images of the ledger state.
// ---------------------------------------------------------------------

/// Spec-level image of one live record.
#[verifier::ext_equal]
pub struct RecordV {
    pub owner: Seq<u8>,
    pub counter: u64,
}

/// Spec-level image of one prior-state claim.
#[verifier::ext_equal]
pub enum ClaimV {
    NonInclusion { address: Seq<u8> },
    Inclusion { address: Seq<u8>, owner: Seq<u8>, counter: u64 },
}

/// Spec-level image of one issued proof: the evidence bytes, the ledger
/// version it was generated against, and the claims it attests.
#[verifier::ext_equal]
pub struct ProofV {
    pub data: Seq<u8>,
    pub version: u64,
    pub claims: Seq<ClaimV>,
}

/// Spec-level image of the whole model ledger.
#[verifier::ext_equal]
pub struct LedgerV {
    pub records: Map<Seq<u8>, RecordV>,
    pub version: u64,
    pub proofs: Seq<ProofV>,
    pub available: bool,
}

pub open spec fn record_view(a: CounterCompressedAccount) -> RecordV {
    RecordV { owner: a.owner@, counter: a.counter }
}

pub open spec fn claim_view(c: Claim) -> ClaimV {
    match c {
        Claim::NonInclusion { address } => ClaimV::NonInclusion { address: address@ },
        Claim::Inclusion { address, owner, counter } => ClaimV::Inclusion {
            address: address@,
            owner: owner@,
            counter,
        },
    }
}

pub open spec fn claims_view(s: Seq<Claim>) -> Seq<ClaimV> {
    s.map_values(|c: Claim| claim_view(c))
}

// ---------------------------------------------------------------------
// The claims a request embeds, and what one diff does to the record map.
// ---------------------------------------------------------------------

/// The prior-state claim one diff embeds: non-inclusion for an init diff,
/// inclusion of exactly the claimed prior record otherwise.
pub open spec fn claim_of_diff(d: RecordDiff) -> ClaimV {
    match d {
        RecordDiff::Init { address, .. } => ClaimV::NonInclusion { address: address@ },
        RecordDiff::Mutate { meta, prior, .. } => ClaimV::Inclusion {
            address: meta.address@,
            owner: prior.owner@,
            counter: prior.counter,
        },
        RecordDiff::Close { meta, prior } => ClaimV::Inclusion {
            address: meta.address@,
            owner: prior.owner@,
            counter: prior.counter,
        },
    }
}

pub open spec fn diffs_claims(diffs: Seq<RecordDiff>) -> Seq<ClaimV> {
    diffs.map_values(|d: RecordDiff| claim_of_diff(d))
}

/// The address one diff is about.
pub open spec fn diff_address(d: RecordDiff) -> Seq<u8> {
    match d {
        RecordDiff::Init { address, .. } => address@,
        RecordDiff::Mutate { meta, .. } => meta.address@,
        RecordDiff::Close { meta, .. } => meta.address@,
    }
}

/// The error a claim about an existing record draws against the given
/// record map, if any: the record must be live, recorded for the claimed
/// owner, and hold exactly the claimed counter.
pub open spec fn existing_error(
    records: Map<Seq<u8>, RecordV>,
    address: Seq<u8>,
    prior: CounterCompressedAccount,
) -> Option<CommitError> {
    if !records.dom().contains(address) {
        Some(CommitError::ProofRejected)
    } else if records[address].owner != prior.owner@ {
        Some(CommitError::AuthorizationMismatch)
    } else if records[address].counter != prior.counter {
        Some(CommitError::ProofRejected)
    } else {
        None
    }
}

/// The error one diff draws against the given record map, if any.
pub open spec fn diff_error(records: Map<Seq<u8>, RecordV>, d: RecordDiff) -> Option<CommitError> {
    match d {
        RecordDiff::Init { address, .. } => if records.dom().contains(address@) {
            Some(CommitError::AddressConflict)
        } else {
            None
        },
        RecordDiff::Mutate { meta, prior, .. } => existing_error(records, meta.address@, prior),
        RecordDiff::Close { meta, prior } => existing_error(records, meta.address@, prior),
    }
}

/// The first problem in a batch of diffs, if any: a diff that revisits an
/// address an earlier diff already touched is rejected, and each diff must
/// pass `diff_error` against the state the batch started from.
pub open spec fn diffs_error(
    records: Map<Seq<u8>, RecordV>,
    touched: Set<Seq<u8>>,
    diffs: Seq<RecordDiff>,
) -> Option<CommitError>
    decreases diffs.len(),
{
    if diffs.len() == 0 {
        None
    } else if touched.contains(diff_address(diffs[0])) {
        Some(CommitError::ProofRejected)
    } else if diff_error(records, diffs[0]) is Some {
        diff_error(records, diffs[0])
    } else {
        diffs_error(records, touched.insert(diff_address(diffs[0])), diffs.drop_first())
    }
}

/// What one diff does to the record map.
pub open spec fn apply_diff(
    records: Map<Seq<u8>, RecordV>,
    d: RecordDiff,
) -> Map<Seq<u8>, RecordV> {
    match d {
        RecordDiff::Init { address, account, .. } => records.insert(address@, record_view(account)),
        RecordDiff::Mutate { meta, next, .. } => records.insert(meta.address@, record_view(next)),
        RecordDiff::Close { meta, .. } => records.remove(meta.address@),
    }
}

/// What a whole batch does to the record map, first diff first.
pub open spec fn apply_diffs(
    records: Map<Seq<u8>, RecordV>,
    diffs: Seq<RecordDiff>,
) -> Map<Seq<u8>, RecordV>
    decreases diffs.len(),
{
    if diffs.len() == 0 {
        records
    } else {
        apply_diffs(apply_diff(records, diffs[0]), diffs.drop_first())
    }
}

/// How many diffs of a batch are init diffs. A batch must carry exactly
/// one address creation per init diff.
pub open spec fn count_inits(diffs: Seq<RecordDiff>) -> int
    decreases diffs.len(),
{
    if diffs.len() == 0 {
        0
    } else {
        (if diffs[0] is Init {
            1int
        } else {
            0int
        }) + count_inits(diffs.drop_first())
    }
}

/// Whether some issued proof carries exactly these evidence bytes.
pub open spec fn has_proof(proofs: Seq<ProofV>, data: Seq<u8>) -> bool {
    exists|i: int| 0 <= i < proofs.len() && proofs[i].data == data
}

/// The issued proof carrying these evidence bytes.
pub open spec fn proof_at(proofs: Seq<ProofV>, data: Seq<u8>) -> ProofV {
    proofs[choose|i: int| 0 <= i < proofs.len() && proofs[i].data == data]
}

// ---------------------------------------------------------------------
// The commit contract: the full outcome of one atomic commit.
// ---------------------------------------------------------------------

/// The outcome of handing one commit request to the ledger: either the
/// whole next ledger state, or the error and no state change at all.
///
/// A commit succeeds exactly when the sink is available, the proof was
/// issued by this ledger against its current version, the claims the proof
/// was issued for are exactly the claims the request's diffs embed, the
/// batch carries one address creation per init diff, and every diff passes
/// against the current records. On success every diff is applied and the
/// version advances by one.
pub open spec fn commit_outcome(v: LedgerV, request: CommitRequest) -> Result<
    LedgerV,
    CommitError,
> {
    if !v.available {
        Err(CommitError::CommitFailure)
    } else if !has_proof(v.proofs, request.validity_proof.data@) {
        Err(CommitError::ProofRejected)
    } else if proof_at(v.proofs, request.validity_proof.data@).version != v.version {
        Err(CommitError::ProofRejected)
    } else if proof_at(v.proofs, request.validity_proof.data@).claims != diffs_claims(
        request.diffs@,
    ) {
        Err(CommitError::ProofRejected)
    } else if count_inits(request.diffs@) != request.new_addresses@.len() {
        Err(CommitError::ProofRejected)
    } else if diffs_error(v.records, Set::empty(), request.diffs@) is Some {
        Err(diffs_error(v.records, Set::empty(), request.diffs@)->Some_0)
    } else if v.version == u64::MAX {
        Err(CommitError::CommitFailure)
    } else {
        Ok(
            LedgerV {
                records: apply_diffs(v.records, request.diffs@),
                version: (v.version + 1) as u64,
                proofs: v.proofs,
                available: v.available,
            },
        )
    }
}

// ---------------------------------------------------------------------
// The executable model ledger.
// ---------------------------------------------------------------------

/// One live entry of the model ledger.
#[derive(Clone, Copy, Debug)]
pub struct LedgerEntry {
    pub address: [u8; 32],
    pub account: CounterCompressedAccount,
}

struct IssuedProof {
    data: Vec<u8>,
    version: u64,
    claims: Vec<Claim>,
}

/// The record map a sequence of live entries stands for.
pub open spec fn entries_map(s: Seq<LedgerEntry>) -> Map<Seq<u8>, RecordV>
    decreases s.len(),
{
    if s.len() == 0 {
        Map::empty()
    } else {
        entries_map(s.drop_last()).insert(s.last().address@, record_view(s.last().account))
    }
}

/// No two live entries share an address.
pub open spec fn entries_distinct(s: Seq<LedgerEntry>) -> bool {
    forall|i: int, j: int| 0 <= i < j < s.len() ==> s[i].address@ != s[j].address@
}

proof fn lemma_entries_map_contains(s: Seq<LedgerEntry>, a: Seq<u8>)
    ensures
        entries_map(s).dom().contains(a) <==> exists|i: int|
            0 <= i < s.len() && s[i].address@ == a,
    decreases s.len(),
{
    if s.len() > 0 {
        lemma_entries_map_contains(s.drop_last(), a);
        if s.last().address@ == a {
            assert(s[s.len() - 1].address@ == a);
        } else if entries_map(s).dom().contains(a) {
            let i = choose|i: int| 0 <= i < s.drop_last().len() && s.drop_last()[i].address@ == a;
            assert(s[i].address@ == a);
        } else if exists|i: int| 0 <= i < s.len() && s[i].address@ == a {
            let i = choose|i: int| 0 <= i < s.len() && s[i].address@ == a;
            assert(s.drop_last()[i].address@ == a);
        }
    }
}

proof fn lemma_entries_map_at(s: Seq<LedgerEntry>, k: int)
    requires
        entries_distinct(s),
        0 <= k < s.len(),
    ensures
        entries_map(s).dom().contains(s[k].address@),
        entries_map(s)[s[k].address@] == record_view(s[k].account),
    decreases s.len(),
{
    if k < s.len() - 1 {
        assert(entries_distinct(s.drop_last()));
        lemma_entries_map_at(s.drop_last(), k);
        assert(s.drop_last()[k] == s[k]);
        assert(s.last().address@ != s[k].address@);
    }
}

proof fn lemma_entries_map_push(s: Seq<LedgerEntry>, e: LedgerEntry)
    ensures
        entries_map(s.push(e)) == entries_map(s).insert(e.address@, record_view(e.account)),
{
    assert(s.push(e).drop_last() =~= s);
    assert(s.push(e).last() == e);
}

proof fn lemma_entries_map_remove(s: Seq<LedgerEntry>, k: int)
    requires
        entries_distinct(s),
        0 <= k < s.len(),
    ensures
        entries_map(s.remove(k)) =~= entries_map(s).remove(s[k].address@),
        entries_distinct(s.remove(k)),
    decreases s.len(),
{
    assert(forall|i: int| 0 <= i < k ==> s.remove(k)[i] == s[i]);
    assert(forall|i: int| k <= i < s.len() - 1 ==> s.remove(k)[i] == s[i + 1]);
    assert(entries_distinct(s.remove(k)));
    if k == s.len() - 1 {
        assert(s.remove(k) =~= s.drop_last());
        lemma_entries_map_contains(s.drop_last(), s[k].address@);
        assert(!entries_map(s.drop_last()).dom().contains(s[k].address@));
        assert(entries_map(s.remove(k)) =~= entries_map(s).remove(s[k].address@));
    } else {
        assert(entries_distinct(s.drop_last()));
        lemma_entries_map_remove(s.drop_last(), k);
        assert(s.remove(k).drop_last() =~= s.drop_last().remove(k));
        assert(s.remove(k).last() == s.last());
        assert(s.remove(k).len() == s.len() - 1);
        assert(entries_map(s.remove(k)) == entries_map(s.drop_last().remove(k)).insert(
            s.last().address@,
            record_view(s.last().account),
        ));
        assert(s.last().address@ != s[k].address@);
        assert(entries_map(s.remove(k)) =~= entries_map(s).remove(s[k].address@));
    }
}

/// The addresses the first `n` diffs of a batch touch.
pub open spec fn touched_prefix(diffs: Seq<RecordDiff>, n: int) -> Set<Seq<u8>> {
    Set::new(|a: Seq<u8>| exists|j: int| 0 <= j < n && j < diffs.len() && diff_address(diffs[j]) == a)
}

proof fn lemma_touched_prefix_step(s: Seq<RecordDiff>, i: int)
    requires
        0 <= i < s.len(),
    ensures
        touched_prefix(s, i + 1) =~= touched_prefix(s, i).insert(diff_address(s[i])),
{
    assert forall|a: Seq<u8>| touched_prefix(s, i + 1).contains(a) implies touched_prefix(
        s,
        i,
    ).insert(diff_address(s[i])).contains(a) by {
        let j = choose|j: int| 0 <= j < i + 1 && j < s.len() && diff_address(s[j]) == a;
        if j < i {
            assert(touched_prefix(s, i).contains(a));
        }
    };
    assert forall|a: Seq<u8>| touched_prefix(s, i).insert(diff_address(s[i])).contains(
        a,
    ) implies touched_prefix(s, i + 1).contains(a) by {
        if touched_prefix(s, i).contains(a) {
            let j = choose|j: int| 0 <= j < i && j < s.len() && diff_address(s[j]) == a;
            assert(0 <= j < i + 1 && j < s.len() && diff_address(s[j]) == a);
        } else {
            assert(diff_address(s[i]) == a);
        }
    };
}

/// Outside the touched addresses, a map agrees with the starting map.
pub open spec fn agrees_outside(
    m: Map<Seq<u8>, RecordV>,
    m0: Map<Seq<u8>, RecordV>,
    touched: Set<Seq<u8>>,
) -> bool {
    forall|a: Seq<u8>|
        !touched.contains(a) ==> ((#[trigger] m.dom().contains(a)) <==> m0.dom().contains(a)) && (
        m0.dom().contains(a) ==> m[a] == m0[a])
}

/// The externally indexed system-of-record, modelled at its interface
/// boundary: a set of live records, a version that advances with every
/// successful commit, the proofs it has issued, and an availability flag
/// for simulating sink failure.
pub struct ModelLedger {
    entries: Vec<LedgerEntry>,
    issued: Vec<IssuedProof>,
    version: u64,
    available: bool,
}

impl View for ModelLedger {
    type V = LedgerV;

    closed spec fn view(&self) -> LedgerV {
        LedgerV {
            records: entries_map(self.entries@),
            version: self.version,
            proofs: self.issued@.map_values(
                |p: IssuedProof| ProofV { data: p.data@, version: p.version, claims: claims_view(p.claims@) },
            ),
            available: self.available,
        }
    }
}

impl ModelLedger {
    /// The internal invariant: entry addresses are pairwise distinct, and
    /// the i-th issued proof carries evidence bytes of length i, so no two
    /// proofs share their evidence.
    pub closed spec fn wf(&self) -> bool {
        &&& entries_distinct(self.entries@)
        &&& forall|i: int|
            0 <= i < self.issued@.len() ==> (#[trigger] self.issued@[i]).data@.len() == i
    }

    /// A fresh ledger: no records, version zero, no proofs, available.
    pub fn new() -> (l: ModelLedger)
        ensures
            l.wf(),
            l@ == (LedgerV {
                records: Map::<Seq<u8>, RecordV>::empty(),
                version: 0u64,
                proofs: Seq::<ProofV>::empty(),
                available: true,
            }),
    {
        let l = ModelLedger {
            entries: Vec::new(),
            issued: Vec::new(),
            version: 0,
            available: true,
        };
        proof {
            assert(l@ =~= LedgerV {
                records: Map::<Seq<u8>, RecordV>::empty(),
                version: 0u64,
                proofs: Seq::<ProofV>::empty(),
                available: true,
            });
        }
        l
    }

    /// Make the sink available or unavailable; an unavailable sink refuses
    /// every commit and applies nothing.
    pub fn set_available(&mut self, available: bool)
        requires
            old(self).wf(),
        ensures
            final(self).wf(),
            final(self)@ == (LedgerV {
                records: old(self)@.records,
                version: old(self)@.version,
                proofs: old(self)@.proofs,
                available,
            }),
    {
        self.available = available;
    }

    /// The Proof Service boundary: issue a validity proof for a set of
    /// prior-state claims, bound to the ledger's current version. The
    /// evidence bytes of each issued proof are distinct from those of every
    /// earlier one.
    pub fn issue_proof(&mut self, claims: Vec<Claim>) -> (p: ValidityProof)
        requires
            old(self).wf(),
        ensures
            final(self).wf(),
            final(self)@.records == old(self)@.records,
            final(self)@.version == old(self)@.version,
            final(self)@.available == old(self)@.available,
            final(self)@.proofs == old(self)@.proofs.push(
                ProofV {
                    data: p.data@,
                    version: old(self)@.version,
                    claims: claims_view(claims@),
                },
            ),
            forall|i: int|
                0 <= i < old(self)@.proofs.len() ==> (#[trigger] old(self)@.proofs[i]).data
                    != p.data@,
    {
        let n = self.issued.len();
        let data: Vec<u8> = vec![0u8; n];
        let evidence = ValidityProof { data };
        let entry = IssuedProof {
            data: evidence.data.clone(),
            version: self.version,
            claims,
        };
        let ghost old_issued = self.issued@;
        self.issued.push(entry);
        proof {
            assert(self.issued@ == old_issued.push(entry));
            assert(self.issued@.map_values(
                |p: IssuedProof| ProofV { data: p.data@, version: p.version, claims: claims_view(p.claims@) },
            ) =~= old_issued.map_values(
                |p: IssuedProof| ProofV { data: p.data@, version: p.version, claims: claims_view(p.claims@) },
            ).push(ProofV { data: evidence.data@, version: self.version, claims: claims_view(claims@) }));
        }
        evidence
    }

    /// Look a record up by address.
    pub fn get_record(&self, address: &[u8; 32]) -> (o: Option<CounterCompressedAccount>)
        requires
            self.wf(),
        ensures
            match o {
                Some(account) => self@.records.dom().contains(address@) && self@.records[address@]
                    == record_view(account),
                None => !self@.records.dom().contains(address@),
            },
    {
        match self.find_entry(address) {
            Some(k) => {
                proof {
                    lemma_entries_map_at(self.entries@, k as int);
                }
                Some(self.entries[k].account)
            },
            None => {
                proof {
                    lemma_entries_map_contains(self.entries@, address@);
                }
                None
            },
        }
    }

    /// All live records of one owner: sound (every returned entry is live,
    /// has that owner, and shows its recorded state) and complete (every
    /// live record of that owner is returned).
    pub fn owned_records(&self, owner: &[u8; 32]) -> (out: Vec<LedgerEntry>)
        requires
            self.wf(),
        ensures
            forall|i: int|
                0 <= i < out@.len() ==> (#[trigger] out@[i]).account.owner@ == owner@
                    && self@.records.dom().contains(out@[i].address@)
                    && self@.records[out@[i].address@] == record_view(out@[i].account),
            forall|a: Seq<u8>|
                #[trigger] self@.records.dom().contains(a) && self@.records[a].owner == owner@
                    ==> exists|i: int| 0 <= i < out@.len() && (#[trigger] out@[i]).address@ == a,
    {
        let mut out: Vec<LedgerEntry> = Vec::new();
        let mut i: usize = 0;
        while i < self.entries.len()
            invariant
                self.wf(),
                0 <= i <= self.entries@.len(),
                forall|t: int|
                    0 <= t < out@.len() ==> (#[trigger] out@[t]).account.owner@ == owner@
                        && self@.records.dom().contains(out@[t].address@)
                        && self@.records[out@[t].address@] == record_view(out@[t].account),
                forall|k: int|
                    0 <= k < i && (#[trigger] self.entries@[k]).account.owner@ == owner@
                        ==> exists|t: int|
                        0 <= t < out@.len() && (#[trigger] out@[t]).address@
                            == self.entries@[k].address@,
            decreases self.entries@.len() - i,
        {
            let e = self.entries[i];
            if bytes32_eq(&e.account.owner, owner) {
                proof {
                    lemma_entries_map_at(self.entries@, i as int);
                }
                let ghost before = out@;
                out.push(e);
                proof {
                    assert(out@[before.len() as int] == e);
                    assert forall|k: int|
                        0 <= k < i && (#[trigger] self.entries@[k]).account.owner@
                            == owner@ implies exists|t: int|
                        0 <= t < out@.len() && (#[trigger] out@[t]).address@
                            == self.entries@[k].address@ by {
                        let t = choose|t: int|
                            0 <= t < before.len() && (#[trigger] before[t]).address@
                                == self.entries@[k].address@;
                        assert(out@[t] == before[t]);
                    };
                }
            }
            i += 1;
        }
        proof {
            assert forall|a: Seq<u8>|
                #[trigger] self@.records.dom().contains(a) && self@.records[a].owner
                    == owner@ implies exists|t: int|
                0 <= t < out@.len() && (#[trigger] out@[t]).address@ == a by {
                lemma_entries_map_contains(self.entries@, a);
                let k = choose|k: int|
                    0 <= k < self.entries@.len() && self.entries@[k].address@ == a;
                lemma_entries_map_at(self.entries@, k);
                assert(self.entries@[k].account.owner@ == owner@);
            };
        }
        out
    }

    fn find_entry(&self, address: &[u8; 32]) -> (o: Option<usize>)
        requires
            self.wf(),
        ensures
            match o {
                Some(k) => k < self.entries@.len() && self.entries@[k as int].address@ == address@,
                None => forall|i: int|
                    0 <= i < self.entries@.len() ==> self.entries@[i].address@ != address@,
            },
    {
        let mut i: usize = 0;
        while i < self.entries.len()
            invariant
                0 <= i <= self.entries@.len(),
                forall|j: int| 0 <= j < i ==> self.entries@[j].address@ != address@,
            decreases self.entries@.len() - i,
        {
            if bytes32_eq(&self.entries[i].address, address) {
                return Some(i);
            }
            i += 1;
        }
        None
    }

    /// Hand one commit request to the sink. All-or-nothing: on success the
    /// whole batch is applied and the version advances by one; on any error
    /// the ledger is exactly as it was.
    pub fn commit(&mut self, request: CommitRequest) -> (r: Result<(), CommitError>)
        requires
            old(self).wf(),
        ensures
            final(self).wf(),
            commit_outcome(old(self)@, request) matches Ok(v2) ==> r is Ok && final(self)@ == v2,
            commit_outcome(old(self)@, request) matches Err(e) ==> r == Err::<(), CommitError>(e)
                && final(self)@ == old(self)@,
    {
        let ghost v0 = self@;
        if !self.available {
            return Err(CommitError::CommitFailure);
        }
        let k = match self.find_issued(&request.validity_proof.data) {
            Some(k) => k,
            None => {
                proof {
                    assert(!has_proof(v0.proofs, request.validity_proof.data@));
                }
                return Err(CommitError::ProofRejected);
            },
        };
        proof {
            assert(v0.proofs[k as int].data == request.validity_proof.data@);
            assert(has_proof(v0.proofs, request.validity_proof.data@));
            let j = choose|j: int|
                0 <= j < v0.proofs.len() && v0.proofs[j].data == request.validity_proof.data@;
            assert(v0.proofs[j].data.len() == j);
            assert(v0.proofs[k as int].data.len() == k as int);
            assert(j == k as int);
            assert(proof_at(v0.proofs, request.validity_proof.data@) == v0.proofs[k as int]);
        }
        if self.issued[k].version != self.version {
            return Err(CommitError::ProofRejected);
        }
        let request_claims = diff_claims_of(&request.diffs);
        if !claims_match(&self.issued[k].claims, &request_claims) {
            return Err(CommitError::ProofRejected);
        }
        let n_inits = count_init_diffs(&request.diffs);
        if n_inits != request.new_addresses.len() {
            return Err(CommitError::ProofRejected);
        }
        match self.check_diffs(&request.diffs) {
            Some(e) => {
                return Err(e);
            },
            None => {},
        }
        if self.version == u64::MAX {
            return Err(CommitError::CommitFailure);
        }
        self.apply_batch(&request.diffs);
        self.version = self.version + 1;
        proof {
            assert(self@ =~= commit_outcome(v0, request)->Ok_0);
        }
        Ok(())
    }

    /// First error of a batch against the current records, if any; reads
    /// only.
    fn check_diffs(&self, diffs: &Vec<RecordDiff>) -> (o: Option<CommitError>)
        requires
            self.wf(),
        ensures
            o == diffs_error(self@.records, Set::empty(), diffs@),
    {
        let ghost m0 = self@.records;
        proof {
            assert(touched_prefix(diffs@, 0) =~= Set::<Seq<u8>>::empty());
            assert(diffs@.skip(0) =~= diffs@);
        }
        let mut i: usize = 0;
        while i < diffs.len()
            invariant
                self.wf(),
                m0 == self@.records,
                0 <= i <= diffs@.len(),
                diffs_error(m0, Set::empty(), diffs@) == diffs_error(
                    m0,
                    touched_prefix(diffs@, i as int),
                    diffs@.skip(i as int),
                ),
            decreases diffs@.len() - i,
        {
            let ghost rest = diffs@.skip(i as int);
            proof {
                assert(rest.len() == diffs@.len() - i);
                assert(rest[0] == diffs@[i as int]);
                assert(rest.drop_first() =~= diffs@.skip(i as int + 1));
            }
            let d = diffs[i];
            let addr_i = diff_address_of(&d);
            // a diff may not revisit an address an earlier diff touched
            let mut j: usize = 0;
            while j < i
                invariant
                    0 <= j <= i < diffs@.len(),
                    m0 == self@.records,
                    forall|t: int| 0 <= t < j ==> diff_address(diffs@[t]) != addr_i@,
                    addr_i@ == diff_address(diffs@[i as int]),
                    diffs_error(m0, Set::empty(), diffs@) == diffs_error(
                        m0,
                        touched_prefix(diffs@, i as int),
                        diffs@.skip(i as int),
                    ),
                decreases i - j,
            {
                let prev = diff_address_of(&diffs[j]);
                if bytes32_eq(&prev, &addr_i) {
                    proof {
                        assert(touched_prefix(diffs@, i as int).contains(addr_i@));
                        assert(diffs@.skip(i as int)[0] == diffs@[i as int]);
                        assert(diffs_error(
                            m0,
                            touched_prefix(diffs@, i as int),
                            diffs@.skip(i as int),
                        ) == Some(CommitError::ProofRejected));
                    }
                    return Some(CommitError::ProofRejected);
                }
                j += 1;
            }
            proof {
                assert(!touched_prefix(diffs@, i as int).contains(addr_i@)) by {
                    if touched_prefix(diffs@, i as int).contains(addr_i@) {
                        let t = choose|t: int|
                            0 <= t < i && t < diffs@.len() && diff_address(diffs@[t]) == addr_i@;
                        assert(diff_address(diffs@[t]) != addr_i@);
                    }
                };
            }
            // the diff itself must pass against the starting records
            match d {
                RecordDiff::Init { address, .. } => {
                    proof {
                        lemma_entries_map_contains(self.entries@, address@);
                    }
                    if self.find_entry(&address).is_some() {
                        return Some(CommitError::AddressConflict);
                    }
                },
                RecordDiff::Mutate { meta, prior, .. } => {
                    match self.existing_check(&meta.address, &prior) {
                        Some(e) => {
                            return Some(e);
                        },
                        None => {},
                    }
                },
                RecordDiff::Close { meta, prior } => {
                    match self.existing_check(&meta.address, &prior) {
                        Some(e) => {
                            return Some(e);
                        },
                        None => {},
                    }
                },
            }
            proof {
                lemma_touched_prefix_step(diffs@, i as int);
                assert(diffs_error(m0, touched_prefix(diffs@, i as int), rest) == diffs_error(
                    m0,
                    touched_prefix(diffs@, i as int + 1),
                    diffs@.skip(i as int + 1),
                ));
            }
            i += 1;
        }
        proof {
            assert(diffs@.skip(i as int).len() == 0);
        }
        None
    }

    /// The error a claim about an existing record draws, if any.
    fn existing_check(&self, address: &[u8; 32], prior: &CounterCompressedAccount) -> (o: Option<
        CommitError,
    >)
        requires
            self.wf(),
        ensures
            o == existing_error(self@.records, address@, *prior),
    {
        match self.find_entry(address) {
            None => {
                proof {
                    lemma_entries_map_contains(self.entries@, address@);
                }
                Some(CommitError::ProofRejected)
            },
            Some(k) => {
                proof {
                    lemma_entries_map_at(self.entries@, k as int);
                }
                let stored = self.entries[k].account;
                if !bytes32_eq(&stored.owner, &prior.owner) {
                    Some(CommitError::AuthorizationMismatch)
                } else if stored.counter != prior.counter {
                    Some(CommitError::ProofRejected)
                } else {
                    None
                }
            },
        }
    }

    /// Apply a batch that passed validation, diff by diff.
    fn apply_batch(&mut self, diffs: &Vec<RecordDiff>)
        requires
            old(self).wf(),
            diffs_error(old(self)@.records, Set::empty(), diffs@) == None::<CommitError>,
        ensures
            final(self).wf(),
            final(self)@.records == apply_diffs(old(self)@.records, diffs@),
            final(self)@.version == old(self)@.version,
            final(self)@.proofs == old(self)@.proofs,
            final(self)@.available == old(self)@.available,
    {
        let ghost m0 = old(self)@.records;
        proof {
            assert(touched_prefix(diffs@, 0) =~= Set::<Seq<u8>>::empty());
            assert(diffs@.skip(0) =~= diffs@);
        }
        let mut i: usize = 0;
        while i < diffs.len()
            invariant
                self.wf(),
                0 <= i <= diffs@.len(),
                self.issued@ == old(self).issued@,
                self@.version == old(self)@.version,
                self@.available == old(self)@.available,
                apply_diffs(m0, diffs@) == apply_diffs(
                    entries_map(self.entries@),
                    diffs@.skip(i as int),
                ),
                diffs_error(m0, touched_prefix(diffs@, i as int), diffs@.skip(i as int))
                    == None::<CommitError>,
                agrees_outside(entries_map(self.entries@), m0, touched_prefix(diffs@, i as int)),
            decreases diffs@.len() - i,
        {
            let ghost rest = diffs@.skip(i as int);
            let ghost cur = entries_map(self.entries@);
            proof {
                assert(rest.len() == diffs@.len() - i);
                assert(rest[0] == diffs@[i as int]);
                assert(rest.drop_first() =~= diffs@.skip(i as int + 1));
                // validation of the remaining suffix pins this diff
                assert(!touched_prefix(diffs@, i as int).contains(diff_address(diffs@[i as int])));
                assert(diff_error(m0, diffs@[i as int]) is None);
                lemma_touched_prefix_step(diffs@, i as int);
            }
            let d = diffs[i];
            let ghost addr = diff_address(d);
            match d {
                RecordDiff::Init { address, output_merkle_tree_index: _, account } => {
                    proof {
                        assert(!m0.dom().contains(address@));
                        assert(!cur.dom().contains(address@));
                        lemma_entries_map_contains(self.entries@, address@);
                        lemma_entries_map_push(
                            self.entries@,
                            LedgerEntry { address, account },
                        );
                    }
                    let ghost pre = self.entries@;
                    self.entries.push(LedgerEntry { address, account });
                    proof {
                        assert(forall|t: int|
                            0 <= t < pre.len() ==> pre[t].address@ != address@);
                        assert(entries_distinct(self.entries@));
                    }
                },
                RecordDiff::Mutate { meta, prior: _, next } => {
                    proof {
                        assert(m0.dom().contains(meta.address@));
                        assert(cur.dom().contains(meta.address@));
                        lemma_entries_map_contains(self.entries@, meta.address@);
                    }
                    let k = match self.find_entry(&meta.address) {
                        Some(k) => k,
                        // unreachable: validation proved the record live
                        None => {
                            proof {
                                lemma_entries_map_contains(self.entries@, meta.address@);
                                assert(false);
                            }
                            0
                        },
                    };
                    proof {
                        lemma_entries_map_remove(self.entries@, k as int);
                    }
                    let ghost mid = self.entries@.remove(k as int);
                    self.entries.remove(k);
                    proof {
                        assert(self.entries@ == mid);
                        lemma_entries_map_contains(mid, meta.address@);
                        assert(!entries_map(mid).dom().contains(meta.address@)) by {
                            assert(entries_map(mid) =~= cur.remove(meta.address@));
                        };
                        lemma_entries_map_push(
                            mid,
                            LedgerEntry { address: meta.address, account: next },
                        );
                    }
                    self.entries.push(LedgerEntry { address: meta.address, account: next });
                    proof {
                        assert(forall|t: int|
                            0 <= t < mid.len() ==> mid[t].address@ != meta.address@) by {
                            lemma_entries_map_contains(mid, meta.address@);
                        };
                        assert(entries_distinct(self.entries@));
                        assert(entries_map(self.entries@) =~= cur.insert(
                            meta.address@,
                            record_view(next),
                        ));
                    }
                },
                RecordDiff::Close { meta, prior: _ } => {
                    proof {
                        assert(m0.dom().contains(meta.address@));
                        assert(cur.dom().contains(meta.address@));
                        lemma_entries_map_contains(self.entries@, meta.address@);
                    }
                    let k = match self.find_entry(&meta.address) {
                        Some(k) => k,
                        // unreachable: validation proved the record live
                        None => {
                            proof {
                                lemma_entries_map_contains(self.entries@, meta.address@);
                                assert(false);
                            }
                            0
                        },
                    };
                    proof {
                        lemma_entries_map_remove(self.entries@, k as int);
                    }
                    self.entries.remove(k);
                    proof {
                        assert(entries_map(self.entries@) =~= cur.remove(meta.address@));
                    }
                },
            }
            proof {
                assert(entries_map(self.entries@) == apply_diff(cur, diffs@[i as int]));
                assert(apply_diffs(cur, rest) == apply_diffs(
                    apply_diff(cur, diffs@[i as int]),
                    diffs@.skip(i as int + 1),
                ));
                // outside the newly touched set, nothing moved
                assert forall|a: Seq<u8>|
                    !touched_prefix(diffs@, i as int + 1).contains(a) implies ((
                    #[trigger] entries_map(self.entries@).dom().contains(a)) <==> m0.dom().contains(
                    a,
                )) && (m0.dom().contains(a) ==> entries_map(self.entries@)[a] == m0[a]) by {
                    assert(!touched_prefix(diffs@, i as int).contains(a));
                    assert(a != addr);
                };
                assert(agrees_outside(
                    entries_map(self.entries@),
                    m0,
                    touched_prefix(diffs@, i as int + 1),
                ));
            }
            i += 1;
        }
        proof {
            assert(diffs@.skip(i as int).len() == 0);
            assert(apply_diffs(entries_map(self.entries@), diffs@.skip(i as int))
                == entries_map(self.entries@));
        }
    }

    fn find_issued(&self, data: &Vec<u8>) -> (o: Option<usize>)
        requires
            self.wf(),
        ensures
            match o {
                Some(k) => k < self.issued@.len() && self.issued@[k as int].data@ == data@,
                None => forall|i: int|
                    0 <= i < self.issued@.len() ==> (#[trigger] self.issued@[i]).data@ != data@,
            },
    {
        let mut i: usize = 0;
        while i < self.issued.len()
            invariant
                0 <= i <= self.issued@.len(),
                forall|j: int| 0 <= j < i ==> (#[trigger] self.issued@[j]).data@ != data@,
            decreases self.issued@.len() - i,
        {
            if self.issued[i].data == *data {
                return Some(i);
            }
            i += 1;
        }
        None
    }
}

/// The address one diff is about, as a value.
fn diff_address_of(d: &RecordDiff) -> (a: [u8; 32])
    ensures
        a@ == diff_address(*d),
{
    match d {
        RecordDiff::Init { address, .. } => *address,
        RecordDiff::Mutate { meta, .. } => meta.address,
        RecordDiff::Close { meta, .. } => meta.address,
    }
}

/// The prior-state claims a batch of diffs embeds, in order.
fn diff_claims_of(diffs: &Vec<RecordDiff>) -> (out: Vec<Claim>)
    ensures
        claims_view(out@) == diffs_claims(diffs@),
{
    let mut out: Vec<Claim> = Vec::new();
    let mut i: usize = 0;
    while i < diffs.len()
        invariant
            0 <= i <= diffs@.len(),
            out@.len() == i,
            forall|j: int| 0 <= j < i ==> claim_view(out@[j]) == claim_of_diff(diffs@[j]),
        decreases diffs@.len() - i,
    {
        let c = match diffs[i] {
            RecordDiff::Init { address, .. } => Claim::NonInclusion { address },
            RecordDiff::Mutate { meta, prior, .. } => Claim::Inclusion {
                address: meta.address,
                owner: prior.owner,
                counter: prior.counter,
            },
            RecordDiff::Close { meta, prior } => Claim::Inclusion {
                address: meta.address,
                owner: prior.owner,
                counter: prior.counter,
            },
        };
        out.push(c);
        i += 1;
    }
    proof {
        assert(claims_view(out@) =~= diffs_claims(diffs@));
    }
    out
}

fn claim_eq(x: &Claim, y: &Claim) -> (r: bool)
    ensures
        r <==> claim_view(*x) == claim_view(*y),
{
    match (x, y) {
        (Claim::NonInclusion { address: a1 }, Claim::NonInclusion { address: a2 }) => bytes32_eq(
            a1,
            a2,
        ),
        (
            Claim::Inclusion { address: a1, owner: o1, counter: c1 },
            Claim::Inclusion { address: a2, owner: o2, counter: c2 },
        ) => bytes32_eq(a1, a2) && bytes32_eq(o1, o2) && *c1 == *c2,
        _ => false,
    }
}

fn claims_match(a: &Vec<Claim>, b: &Vec<Claim>) -> (r: bool)
    ensures
        r <==> claims_view(a@) == claims_view(b@),
{
    if a.len() != b.len() {
        proof {
            assert(claims_view(a@).len() != claims_view(b@).len());
        }
        return false;
    }
    let mut i: usize = 0;
    while i < a.len()
        invariant
            a@.len() == b@.len(),
            0 <= i <= a@.len(),
            forall|j: int| 0 <= j < i ==> claim_view(a@[j]) == claim_view(b@[j]),
        decreases a@.len() - i,
    {
        if !claim_eq(&a[i], &b[i]) {
            proof {
                assert(claims_view(a@)[i as int] != claims_view(b@)[i as int]);
            }
            return false;
        }
        i += 1;
    }
    proof {
        assert(claims_view(a@) =~= claims_view(b@));
    }
    true
}

/// How many diffs of a batch are init diffs.
fn count_init_diffs(diffs: &Vec<RecordDiff>) -> (n: usize)
    ensures
        n as int == count_inits(diffs@),
{
    let mut n: usize = 0;
    let mut i: usize = 0;
    proof {
        assert(diffs@.skip(0) =~= diffs@);
    }
    while i < diffs.len()
        invariant
            0 <= i <= diffs@.len(),
            n <= i,
            count_inits(diffs@) == n as int + count_inits(diffs@.skip(i as int)),
        decreases diffs@.len() - i,
    {
        let ghost rest = diffs@.skip(i as int);
        proof {
            assert(rest.len() == diffs@.len() - i);
            assert(rest[0] == diffs@[i as int]);
            assert(rest.drop_first() =~= diffs@.skip(i as int + 1));
        }
        let is_init = match diffs[i] {
            RecordDiff::Init { .. } => true,
            _ => false,
        };
        if is_init {
            n += 1;
        }
        i += 1;
    }
    proof {
        assert(diffs@.skip(i as int).len() == 0);
    }
    n
}

} // verus!
