use vstd::prelude::*;
use crate::principal::PrincipalId;

verus! {

/// Mathematical model of one guardian's encrypted share.
#[verifier::ext_equal]
pub ghost struct ShareView {
    pub guardian: Seq<u8>,
    pub encrypted_share: Seq<u8>,
    pub share_index: u8,
    pub derivation_path: Seq<Seq<u8>>,
}

/// One guardian's encrypted share of a recovery secret, together with the
/// derivation context it was produced under.
#[derive(Debug)]
pub struct GuardianShare {
    pub guardian: PrincipalId,
    pub encrypted_share: Vec<u8>,
    pub share_index: u8,
    pub derivation_path: Vec<Vec<u8>>,
}

impl View for GuardianShare {
    type V = ShareView;

    open spec fn view(&self) -> ShareView {
        ShareView {
            guardian: self.guardian@,
            encrypted_share: self.encrypted_share@,
            share_index: self.share_index,
            derivation_path: self.derivation_path.deep_view(),
        }
    }
}

impl Clone for GuardianShare {
    fn clone(&self) -> (r: Self)
        ensures
            r@ == self@,
    {
        let encrypted_share = self.encrypted_share.clone();
        let derivation_path = self.derivation_path.clone();
        proof {
            assert(encrypted_share@ =~= self.encrypted_share@);
            assert(derivation_path.deep_view() =~~= self.derivation_path.deep_view());
        }
        GuardianShare {
            guardian: self.guardian.clone(),
            encrypted_share,
            share_index: self.share_index,
            derivation_path,
        }
    }
}

/// The views of a list of guardian shares, in order.
pub open spec fn share_views(shares: Seq<GuardianShare>) -> Seq<ShareView> {
    shares.map_values(|s: GuardianShare| s@)
}

/// Mathematical model of a stored recovery secret.
#[verifier::ext_equal]
pub ghost struct SecretView {
    pub secret_id: Seq<u8>,
    pub shares: Seq<ShareView>,
    pub threshold: u8,
    pub created_at: u64,
}

/// A recovery secret: one encrypted share per guardian, created once by the
/// owner and immutable afterwards.
#[derive(Debug)]
pub struct RecoverySecret {
    pub secret_id: Vec<u8>,
    pub guardian_shares: Vec<GuardianShare>,
    pub threshold: u8,
    pub created_at: u64,
}

impl View for RecoverySecret {
    type V = SecretView;

    open spec fn view(&self) -> SecretView {
        SecretView {
            secret_id: self.secret_id@,
            shares: share_views(self.guardian_shares@),
            threshold: self.threshold,
            created_at: self.created_at,
        }
    }
}

/// The views of a list of stored secrets, in order.
pub open spec fn secret_views(secrets: Seq<RecoverySecret>) -> Seq<SecretView> {
    secrets.map_values(|s: RecoverySecret| s@)
}

/// The view of a guardian-to-share list.
pub open spec fn entry_views(entries: Seq<(PrincipalId, Vec<u8>)>) -> Seq<(Seq<u8>, Seq<u8>)> {
    entries.map_values(|e: (PrincipalId, Vec<u8>)| (e.0@, e.1@))
}

/// Mathematical model of the shares submitted towards one recovery request.
#[verifier::ext_equal]
pub ghost struct SubmissionView {
    pub recovery_id: u64,
    pub entries: Seq<(Seq<u8>, Seq<u8>)>,
}

/// The decrypted shares guardians have submitted towards one recovery
/// request, one entry per distinct guardian. Transient: discarded when the
/// recovery completes.
#[derive(Debug)]
pub struct SubmittedShares {
    pub recovery_id: u64,
    pub entries: Vec<(PrincipalId, Vec<u8>)>,
}

impl View for SubmittedShares {
    type V = SubmissionView;

    open spec fn view(&self) -> SubmissionView {
        SubmissionView {
            recovery_id: self.recovery_id,
            entries: entry_views(self.entries@),
        }
    }
}

} // verus!

verus! {

impl Clone for SubmittedShares {
    fn clone(&self) -> (r: Self)
        ensures
            r@ == self@,
    {
        let r = SubmittedShares {
            recovery_id: self.recovery_id,
            entries: clone_entries(&self.entries),
        };
        proof {
            assert(r@.entries =~= self@.entries);
        }
        r
    }
}

/// Copies a guardian-to-share list, preserving its view in order.
fn clone_entries(entries: &Vec<(PrincipalId, Vec<u8>)>) -> (r: Vec<(PrincipalId, Vec<u8>)>)
    ensures
        entry_views(r@) == entry_views(entries@),
{
    let mut r: Vec<(PrincipalId, Vec<u8>)> = Vec::new();
    let n: usize = entries.len();
    let mut i: usize = 0;
    while i < n
        invariant
            0 <= i <= n,
            n == entries@.len(),
            r@.len() == i,
            forall|j: int| 0 <= j < i ==> r@[j].0@ == entries@[j].0@ && r@[j].1@ == entries@[j].1@,
        decreases n - i,
    {
        let g = entries[i].0.clone();
        let b = entries[i].1.clone();
        proof {
            assert(b@ =~= entries@[i as int].1@);
        }
        r.push((g, b));
        i += 1;
    }
    proof {
        assert(entry_views(r@) =~= entry_views(entries@));
    }
    r
}

/// The first index whose submission record carries `id`, or -1.
pub open spec fn find_submission(subs: Seq<SubmissionView>, id: u64) -> int
    decreases subs.len(),
{
    if subs.len() == 0 {
        -1
    } else if subs[0].recovery_id == id {
        0
    } else {
        let rest = find_submission(subs.drop_first(), id);
        if rest == -1 {
            -1
        } else {
            rest + 1
        }
    }
}

/// What `find_submission` returns: a valid first index with the sought id,
/// or -1 when no record carries it.
pub proof fn lemma_find_submission(subs: Seq<SubmissionView>, id: u64)
    ensures
        ({
            let k = find_submission(subs, id);
            &&& -1 <= k < subs.len()
            &&& k >= 0 ==> subs[k].recovery_id == id && (forall|j: int|
                0 <= j < k ==> subs[j].recovery_id != id)
            &&& k == -1 ==> (forall|j: int| 0 <= j < subs.len() ==> subs[j].recovery_id != id)
        }),
    decreases subs.len(),
{
    if subs.len() == 0 {
    } else if subs[0].recovery_id == id {
    } else {
        lemma_find_submission(subs.drop_first(), id);
        assert(forall|j: int| 1 <= j < subs.len() ==> subs[j] == subs.drop_first()[j - 1]);
    }
}

/// The views of a list of submission records, in order.
pub open spec fn submission_views(subs: Seq<SubmittedShares>) -> Seq<SubmissionView> {
    subs.map_values(|s: SubmittedShares| s@)
}

/// Finds the position of the submission record for `id`, if any.
fn find_submission_index(subs: &Vec<SubmittedShares>, id: u64) -> (r: Option<usize>)
    ensures
        ({
            let k = find_submission(submission_views(subs@), id);
            match r {
                Some(i) => k == i && i < subs@.len(),
                None => k == -1,
            }
        }),
{
    let n: usize = subs.len();
    let mut i: usize = 0;
    while i < n
        invariant
            0 <= i <= n,
            n == subs@.len(),
            forall|j: int| 0 <= j < i ==> submission_views(subs@)[j].recovery_id != id,
        decreases n - i,
    {
        if subs[i].recovery_id == id {
            proof {
                lemma_find_submission(submission_views(subs@), id);
                assert(submission_views(subs@)[i as int].recovery_id == id);
            }
            return Some(i);
        }
        assert(submission_views(subs@)[i as int].recovery_id != id);
        i += 1;
    }
    proof {
        lemma_find_submission(submission_views(subs@), id);
    }
    None
}

/// The first index whose entry is keyed by `k`, or -1.
pub open spec fn find_entry(entries: Seq<(Seq<u8>, Seq<u8>)>, k: Seq<u8>) -> int
    decreases entries.len(),
{
    if entries.len() == 0 {
        -1
    } else if entries[0].0 == k {
        0
    } else {
        let rest = find_entry(entries.drop_first(), k);
        if rest == -1 {
            -1
        } else {
            rest + 1
        }
    }
}

/// What `find_entry` returns: a valid first index with the sought key, or
/// -1 when no entry carries it.
pub proof fn lemma_find_entry(entries: Seq<(Seq<u8>, Seq<u8>)>, k: Seq<u8>)
    ensures
        ({
            let e = find_entry(entries, k);
            &&& -1 <= e < entries.len()
            &&& e >= 0 ==> entries[e].0 == k && (forall|j: int| 0 <= j < e ==> entries[j].0 != k)
            &&& e == -1 ==> (forall|j: int| 0 <= j < entries.len() ==> entries[j].0 != k)
        }),
    decreases entries.len(),
{
    if entries.len() == 0 {
    } else if entries[0].0 == k {
    } else {
        lemma_find_entry(entries.drop_first(), k);
        assert(forall|j: int| 1 <= j < entries.len() ==> entries[j] == entries.drop_first()[j - 1]);
    }
}

/// The entry list after one guardian's submission: the guardian's existing
/// entry is overwritten (last write wins), or a new entry is appended.
pub open spec fn upsert_entry(entries: Seq<(Seq<u8>, Seq<u8>)>, k: Seq<u8>, v: Seq<u8>) -> Seq<
    (Seq<u8>, Seq<u8>),
> {
    let e = find_entry(entries, k);
    if e == -1 {
        entries.push((k, v))
    } else {
        entries.update(e, (k, v))
    }
}

/// Finds the position of the entry keyed by `caller`, if any.
pub(crate) fn find_entry_index(entries: &Vec<(PrincipalId, Vec<u8>)>, caller: &PrincipalId) -> (r: Option<
    usize,
>)
    ensures
        ({
            let e = find_entry(entry_views(entries@), caller@);
            match r {
                Some(i) => e == i && i < entries@.len(),
                None => e == -1,
            }
        }),
{
    let n: usize = entries.len();
    let mut i: usize = 0;
    while i < n
        invariant
            0 <= i <= n,
            n == entries@.len(),
            forall|j: int| 0 <= j < i ==> entry_views(entries@)[j].0 != caller@,
        decreases n - i,
    {
        if entries[i].0.eq(caller) {
            proof {
                lemma_find_entry(entry_views(entries@), caller@);
                assert(entry_views(entries@)[i as int].0 == caller@);
            }
            return Some(i);
        }
        assert(entry_views(entries@)[i as int].0 != caller@);
        i += 1;
    }
    proof {
        lemma_find_entry(entry_views(entries@), caller@);
    }
    None
}

} // verus!

verus! {

use crate::errors::VaultError;
use crate::principal::contains_principal;
use crate::recovery::{find_request, find_request_index, spec_commit};
use crate::state::{StateView, VaultState};
use crate::types::{distinct_seq, lemma_distinct_push, lemma_distinct_remove, RequestView};

/// The whole effect of one `submit_recovery_share` call on a snapshot: the
/// state it leaves behind and the result it returns.
pub open spec fn spec_submit(s: StateView, caller: Seq<u8>, recovery_id: u64, share: Seq<u8>) -> (
    StateView,
    Result<bool, VaultError>,
) {
    match s.registry {
        None => (s, Err(VaultError::NotInitialized)),
        Some(reg) => {
            if !reg.guardians.contains(caller) {
                (s, Err(VaultError::Unauthorized))
            } else {
                let i = find_request(s.requests, recovery_id);
                if i == -1 {
                    (s, Err(VaultError::RequestNotFound))
                } else if !s.requests[i].open {
                    (s, Err(VaultError::RequestClosed))
                } else {
                    let k = find_submission(s.submissions, recovery_id);
                    let entries2 = if k == -1 {
                        seq![(caller, share)]
                    } else {
                        upsert_entry(s.submissions[k].entries, caller, share)
                    };
                    let submissions2 = if k == -1 {
                        s.submissions.push(SubmissionView { recovery_id, entries: entries2 })
                    } else {
                        s.submissions.update(
                            k,
                            SubmissionView { recovery_id, entries: entries2 },
                        )
                    };
                    (
                        StateView { submissions: submissions2, ..s },
                        Ok(entries2.len() >= reg.quorum),
                    )
                }
            }
        },
    }
}

/// A submission on a well-formed snapshot leaves a well-formed snapshot.
proof fn lemma_wf_after_submit(s: StateView, caller: Seq<u8>, recovery_id: u64, share: Seq<u8>)
    requires
        s.well_formed(),
    ensures
        spec_submit(s, caller, recovery_id, share).0.well_formed(),
{
    let (s1, r) = spec_submit(s, caller, recovery_id, share);
    if s.registry is Some && s.registry->Some_0.guardians.contains(caller) {
        let i = find_request(s.requests, recovery_id);
        crate::recovery::lemma_find_request(s.requests, recovery_id);
        if i >= 0 && s.requests[i].open {
            let k = find_submission(s.submissions, recovery_id);
            lemma_find_submission(s.submissions, recovery_id);
            let ids = s.submissions.map_values(|x: SubmissionView| x.recovery_id);
            let ids1 = s1.submissions.map_values(|x: SubmissionView| x.recovery_id);
            if k == -1 {
                let rec = SubmissionView {
                    recovery_id,
                    entries: seq![(caller, share)],
                };
                assert(ids1 =~= ids.push(recovery_id));
                assert(!ids.contains(recovery_id)) by {
                    if ids.contains(recovery_id) {
                        let w = choose|w: int|
                            0 <= w < ids.len() && ids[w] == recovery_id;
                        assert(s.submissions[w].recovery_id == recovery_id);
                    }
                }
                lemma_distinct_push(ids, recovery_id);
                assert(distinct_seq(rec.entries.map_values(|e: (Seq<u8>, Seq<u8>)| e.0)));
                assert(forall|j: int| 0 <= j < s1.submissions.len() - 1
                    ==> s1.submissions[j] == s.submissions[j]);
                assert(forall|j: int| 0 <= j < s1.submissions.len() ==> distinct_seq(
                    (#[trigger] s1.submissions[j]).entries.map_values(
                        |e: (Seq<u8>, Seq<u8>)| e.0,
                    ),
                ));
            } else {
                let entries0 = s.submissions[k].entries;
                let keys0 = entries0.map_values(|e: (Seq<u8>, Seq<u8>)| e.0);
                let entries2 = upsert_entry(entries0, caller, share);
                let keys2 = entries2.map_values(|e: (Seq<u8>, Seq<u8>)| e.0);
                let e = find_entry(entries0, caller);
                lemma_find_entry(entries0, caller);
                if e == -1 {
                    assert(keys2 =~= keys0.push(caller));
                    assert(!keys0.contains(caller)) by {
                        if keys0.contains(caller) {
                            let w = choose|w: int|
                                0 <= w < keys0.len() && keys0[w] == caller;
                            assert(entries0[w].0 == caller);
                        }
                    }
                    lemma_distinct_push(keys0, caller);
                } else {
                    assert(keys2 =~= keys0);
                }
                assert(ids1 =~= ids);
                assert(forall|j: int| 0 <= j < s1.submissions.len() && j != k
                    ==> s1.submissions[j] == s.submissions[j]);
                assert(forall|j: int| 0 <= j < s1.submissions.len() ==> distinct_seq(
                    (#[trigger] s1.submissions[j]).entries.map_values(
                        |e: (Seq<u8>, Seq<u8>)| e.0,
                    ),
                ));
            }
        }
    }
}

/// Records one guardian's decrypted share towards the open request
/// `recovery_id`, overwriting any earlier submission from the same guardian.
///
/// The supplied secret id is carried for the caller's own correlation; no
/// cryptographic validation of the share happens in this layer — that is
/// the combination step's responsibility. Returns whether the number of
/// distinct submitting guardians has reached the quorum.
pub fn submit_recovery_share(
    state: &mut VaultState,
    caller: &PrincipalId,
    recovery_id: u64,
    _secret_id: Vec<u8>,
    decrypted_share: Vec<u8>,
) -> (r: Result<bool, VaultError>)
    ensures
        final(state)@ == spec_submit(old(state)@, caller@, recovery_id, decrypted_share@).0,
        r == spec_submit(old(state)@, caller@, recovery_id, decrypted_share@).1,
        old(state).wf() ==> final(state).wf(),
{
    let ghost s0 = state@;
    let quorum = match state.guardian_state {
        None => {
            return Err(VaultError::NotInitialized);
        },
        Some(ref g) => {
            if !contains_principal(&g.guardians, caller) {
                return Err(VaultError::Unauthorized);
            }
            g.quorum
        },
    };
    let i = match find_request_index(&state.recovery_reqs, recovery_id) {
        None => {
            return Err(VaultError::RequestNotFound);
        },
        Some(i) => i,
    };
    if !state.recovery_reqs[i].open {
        return Err(VaultError::RequestClosed);
    }
    let ghost share = decrypted_share@;
    let count: usize;
    match find_submission_index(&state.submitted_recovery_shares, recovery_id) {
        None => {
            let mut entries: Vec<(PrincipalId, Vec<u8>)> = Vec::new();
            entries.push((caller.clone(), decrypted_share));
            state.submitted_recovery_shares.push(SubmittedShares { recovery_id, entries });
            count = 1;
            proof {
                assert(entry_views(
                    final(state).submitted_recovery_shares@.last().entries@,
                ) =~= seq![(caller@, share)]);
                assert(final(state)@.submissions =~= spec_submit(
                    s0,
                    caller@,
                    recovery_id,
                    share,
                ).0.submissions);
            }
        },
        Some(k) => {
            let ghost entries0 = s0.submissions[k as int].entries;
            let mut sub = state.submitted_recovery_shares[k].clone();
            match find_entry_index(&sub.entries, caller) {
                None => {
                    sub.entries.push((caller.clone(), decrypted_share));
                    proof {
                        assert(entry_views(sub.entries@) =~= upsert_entry(
                            entries0,
                            caller@,
                            share,
                        ));
                    }
                },
                Some(e) => {
                    *vstd::std_specs::vec::vec_index_mut(&mut sub.entries, e) = (
                        caller.clone(),
                        decrypted_share,
                    );
                    proof {
                        assert(entry_views(sub.entries@) =~= upsert_entry(
                            entries0,
                            caller@,
                            share,
                        ));
                    }
                },
            }
            count = sub.entries.len();
            *vstd::std_specs::vec::vec_index_mut(&mut state.submitted_recovery_shares, k) = sub;
            proof {
                lemma_find_submission(s0.submissions, recovery_id);
                assert(final(state)@.submissions =~= spec_submit(
                    s0,
                    caller@,
                    recovery_id,
                    share,
                ).0.submissions);
            }
        },
    }
    proof {
        assert(final(state)@ =~~= spec_submit(s0, caller@, recovery_id, share).0);
        if s0.well_formed() {
            lemma_wf_after_submit(s0, caller@, recovery_id, share);
        }
    }
    Ok(count >= quorum as usize)
}

/// The whole effect of one `complete_recovery` call on a snapshot: the
/// state it leaves behind and the result it returns.
pub open spec fn spec_complete(s: StateView, recovery_id: u64) -> (StateView, Result<
    bool,
    VaultError,
>) {
    let i = find_request(s.requests, recovery_id);
    if i == -1 {
        (s, Err(VaultError::RequestNotFound))
    } else if !s.requests[i].open {
        (s, Err(VaultError::RequestClosed))
    } else {
        match s.registry {
            None => (s, Err(VaultError::NotInitialized)),
            Some(reg) => {
                let k = find_submission(s.submissions, recovery_id);
                let count: int = if k == -1 {
                    0
                } else {
                    s.submissions[k].entries.len() as int
                };
                if count < reg.quorum {
                    (s, Err(VaultError::InsufficientShares))
                } else {
                    let req = s.requests[i];
                    let s2 = spec_commit(s, i, RequestView { open: false, ..req });
                    let s3 = StateView {
                        submissions: if k == -1 {
                            s2.submissions
                        } else {
                            s2.submissions.remove(k)
                        },
                        ..s2
                    };
                    (s3, Ok(true))
                }
            },
        }
    }
}

/// A completion on a well-formed snapshot leaves a well-formed snapshot.
proof fn lemma_wf_after_complete(s: StateView, recovery_id: u64)
    requires
        s.well_formed(),
    ensures
        spec_complete(s, recovery_id).0.well_formed(),
{
    let (s1, r) = spec_complete(s, recovery_id);
    let i = find_request(s.requests, recovery_id);
    crate::recovery::lemma_find_request(s.requests, recovery_id);
    if i >= 0 && s.requests[i].open && s.registry is Some {
        let reg = s.registry->Some_0;
        let k = find_submission(s.submissions, recovery_id);
        lemma_find_submission(s.submissions, recovery_id);
        let count: int = if k == -1 {
            0
        } else {
            s.submissions[k].entries.len() as int
        };
        if count >= reg.quorum {
            assert(forall|j: int| 0 <= j < s1.requests.len() ==> (#[trigger] s1.requests[j]).id
                == s.requests[j].id);
            assert(forall|j: int| 0 <= j < s1.requests.len() ==> crate::types::distinct_seq(
                (#[trigger] s1.requests[j]).approvals,
            ));
            if k >= 0 {
                let ids = s.submissions.map_values(|x: SubmissionView| x.recovery_id);
                assert(s1.submissions.map_values(|x: SubmissionView| x.recovery_id) =~= ids.remove(
                    k,
                ));
                lemma_distinct_remove(ids, k);
                assert(forall|j: int| 0 <= j < s1.submissions.len() ==> exists|j0: int|
                    0 <= j0 < s.submissions.len() && #[trigger] s1.submissions[j]
                        == s.submissions[j0]) by {
                    assert forall|j: int| 0 <= j < s1.submissions.len() implies exists|j0: int|
                        0 <= j0 < s.submissions.len() && #[trigger] s1.submissions[j]
                            == s.submissions[j0] by {
                        let j0: int = if j < k {
                            j
                        } else {
                            j + 1
                        };
                        assert(s1.submissions[j] == s.submissions[j0]);
                    }
                }
                assert(forall|j: int| 0 <= j < s1.submissions.len() ==> distinct_seq(
                    (#[trigger] s1.submissions[j]).entries.map_values(
                        |e: (Seq<u8>, Seq<u8>)| e.0,
                    ),
                ));
            }
        }
    }
}

/// Closes the open request `recovery_id` and transfers ownership, provided
/// enough distinct guardians have submitted shares.
///
/// The commit is the same atomic step `approve_recovery` performs: the
/// registry owner becomes the request's proposed owner and the request is
/// closed, in one step. The submitted shares for the request are discarded
/// unconditionally, so guardian-supplied secret material is not retained.
/// The combination of the shares into the recovered secret is pluggable and
/// out of this crate's scope.
pub fn complete_recovery(state: &mut VaultState, recovery_id: u64) -> (r: Result<bool, VaultError>)
    ensures
        final(state)@ == spec_complete(old(state)@, recovery_id).0,
        r == spec_complete(old(state)@, recovery_id).1,
        old(state).wf() ==> final(state).wf(),
{
    let ghost s0 = state@;
    let i = match find_request_index(&state.recovery_reqs, recovery_id) {
        None => {
            return Err(VaultError::RequestNotFound);
        },
        Some(i) => i,
    };
    if !state.recovery_reqs[i].open {
        return Err(VaultError::RequestClosed);
    }
    let quorum = match state.guardian_state {
        None => {
            return Err(VaultError::NotInitialized);
        },
        Some(ref g) => g.quorum,
    };
    let k_opt = find_submission_index(&state.submitted_recovery_shares, recovery_id);
    let count: usize = match k_opt {
        None => 0,
        Some(k) => state.submitted_recovery_shares[k].entries.len(),
    };
    if count < quorum as usize {
        return Err(VaultError::InsufficientShares);
    }
    let mut req = state.recovery_reqs[i].clone();
    req.open = false;
    crate::recovery::commit_transfer(state, i, req);
    if let Some(k) = k_opt {
        state.submitted_recovery_shares.remove(k);
        proof {
            assert(final(state)@.submissions =~= spec_complete(s0, recovery_id).0.submissions);
        }
    }
    proof {
        let (s1, r1) = spec_complete(s0, recovery_id);
        assert(final(state)@.requests =~~= s1.requests);
        assert(final(state)@.registry->Some_0 =~~= s1.registry->Some_0);
        assert(final(state)@ =~~= s1);
        if s0.well_formed() {
            lemma_wf_after_complete(s0, recovery_id);
        }
    }
    Ok(true)
}

} // verus!

verus! {

use crate::digest::{sha256, sha256_of};
use crate::encoding::{ascii_bytes, ascii_tag_bytes, concat_bytes, lemma_concat_bytes_push, u64_be_bytes, u64_to_be};
use crate::principal::{bytes_eq, views_of};
use crate::types::RecoveryRequest;

/// The preimage a secret id is derived from: a fixed tag, the owner, each
/// guardian in order, and the creation time, all as bytes.
pub open spec fn secret_id_message(owner: Seq<u8>, guardians: Seq<Seq<u8>>, now: u64) -> Seq<u8> {
    ascii_bytes("guardian_vault_recovery_"@) + owner + concat_bytes(guardians) + u64_be_bytes(now)
}

/// The preimage a guardian's encryption key is derived from.
pub open spec fn guardian_key_message(guardian: Seq<u8>) -> Seq<u8> {
    ascii_bytes("guardian_encryption_key_"@) + guardian
}

/// The fixed tag in front of every secret-id preimage.
fn recovery_tag_bytes() -> (r: Vec<u8>)
    ensures
        r@ == ascii_bytes("guardian_vault_recovery_"@),
{
    let t = "guardian_vault_recovery_";
    proof {
        reveal_strlit("guardian_vault_recovery_");
        assert(vstd::string::is_ascii(t)) by {
            assert(forall|i: int| 0 <= i < t@.len() ==> '\0' <= #[trigger] t@[i] <= '\u{7f}');
        }
    }
    ascii_tag_bytes(t)
}

/// The fixed tag in front of every guardian-key preimage.
fn guardian_key_tag_bytes() -> (r: Vec<u8>)
    ensures
        r@ == ascii_bytes("guardian_encryption_key_"@),
{
    let t = "guardian_encryption_key_";
    proof {
        reveal_strlit("guardian_encryption_key_");
        assert(vstd::string::is_ascii(t)) by {
            assert(forall|i: int| 0 <= i < t@.len() ==> '\0' <= #[trigger] t@[i] <= '\u{7f}');
        }
    }
    ascii_tag_bytes(t)
}

/// Derives a fresh secret id from the owner identity, the guardian set and
/// the current time, hashed. Collision-resistant, but two calls with the
/// same inputs at the same instant give the same id; the store treats a
/// repeated id as a replacement.
pub fn generate_secret_id(owner: &PrincipalId, guardians: &Vec<PrincipalId>, now: u64) -> (r: Vec<
    u8,
>)
    ensures
        r@ == sha256_of(secret_id_message(owner@, views_of(guardians@), now)),
        r@.len() == 32,
{
    let mut msg = recovery_tag_bytes();
    let ghost tag = msg@;
    msg.extend_from_slice(owner.as_slice());
    proof {
        assert(msg@ =~= tag + owner@);
    }
    let ghost base = msg@;
    let n: usize = guardians.len();
    let mut i: usize = 0;
    while i < n
        invariant
            0 <= i <= n,
            n == guardians@.len(),
            msg@ == base + concat_bytes(views_of(guardians@).subrange(0, i as int)),
        decreases n - i,
    {
        msg.extend_from_slice(guardians[i].as_slice());
        proof {
            assert(views_of(guardians@).subrange(0, i as int).push(
                views_of(guardians@)[i as int],
            ) =~= views_of(guardians@).subrange(0, i + 1 as int));
            lemma_concat_bytes_push(
                views_of(guardians@).subrange(0, i as int),
                views_of(guardians@)[i as int],
            );
            assert(msg@ =~= base + concat_bytes(views_of(guardians@).subrange(0, i + 1 as int)));
        }
        i += 1;
    }
    proof {
        assert(views_of(guardians@).subrange(0, n as int) =~= views_of(guardians@));
    }
    let nb = u64_to_be(now);
    msg.extend_from_slice(nb.as_slice());
    proof {
        assert(msg@ =~= secret_id_message(owner@, views_of(guardians@), now));
    }
    sha256(msg.as_slice())
}

/// Derives the encryption key a guardian's share is wrapped under, from the
/// guardian's identity alone.
pub fn generate_guardian_encryption_key(guardian: &PrincipalId) -> (r: Vec<u8>)
    ensures
        r@ == sha256_of(guardian_key_message(guardian@)),
        r@.len() == 32,
{
    let mut msg = guardian_key_tag_bytes();
    let ghost tag = msg@;
    msg.extend_from_slice(guardian.as_slice());
    proof {
        assert(msg@ =~= guardian_key_message(guardian@));
    }
    sha256(msg.as_slice())
}

/// One external key-derivation request the host must perform for one
/// guardian: the derivation context and the encryption key to wrap under.
#[derive(Debug)]
pub struct ShareRequest {
    pub guardian: PrincipalId,
    pub share_index: u8,
    pub derivation_path: Vec<Vec<u8>>,
    pub encryption_key: Vec<u8>,
}

/// Everything computed before the external key-derivation round-trips of
/// share creation: the fresh secret id, the threshold, and one request per
/// guardian.
#[derive(Debug)]
pub struct SharePlan {
    pub secret_id: Vec<u8>,
    pub threshold: u8,
    pub requests: Vec<ShareRequest>,
}

/// Validates a share-creation call and computes everything that precedes
/// the external key-derivation round-trips.
///
/// Only the owner may create shares, and the supplied guardian list must be
/// non-empty and of the same size as the registry's guardian set (a size
/// check only, as the wider design records). Nothing is written: the host
/// performs one external call per returned request and then commits the
/// gathered results through [`commit_guardian_shares`] in one step.
pub fn plan_guardian_shares(
    state: &VaultState,
    caller: &PrincipalId,
    guardians: &Vec<PrincipalId>,
    now: u64,
) -> (r: Result<SharePlan, VaultError>)
    requires
        guardians@.len() < 256,
    ensures
        match r {
            Ok(plan) => {
                &&& state@.registry is Some
                &&& state@.registry->Some_0.owner == caller@
                &&& guardians@.len() > 0
                &&& guardians@.len() == state@.registry->Some_0.guardians.len()
                &&& plan.secret_id@ == sha256_of(
                    secret_id_message(caller@, views_of(guardians@), now),
                )
                &&& plan.threshold == state@.registry->Some_0.quorum
                &&& plan.requests@.len() == guardians@.len()
                &&& forall|i: int|
                    0 <= i < plan.requests@.len() ==> {
                        let rq = #[trigger] plan.requests@[i];
                        &&& rq.guardian@ == views_of(guardians@)[i]
                        &&& rq.share_index == i as u8
                        &&& rq.derivation_path.deep_view() == seq![
                            plan.secret_id@,
                            views_of(guardians@)[i],
                            seq![i as u8],
                        ]
                        &&& rq.encryption_key@ == sha256_of(
                            guardian_key_message(views_of(guardians@)[i]),
                        )
                    }
            },
            Err(e) => match e {
                VaultError::NotInitialized => state@.registry is None,
                VaultError::Unauthorized => state@.registry is Some
                    && state@.registry->Some_0.owner != caller@,
                VaultError::GuardianMismatch => state@.registry is Some
                    && state@.registry->Some_0.owner == caller@ && (guardians@.len() == 0
                    || guardians@.len() != state@.registry->Some_0.guardians.len()),
                _ => false,
            },
        },
{
    let registry_len: usize = match state.guardian_state {
        None => {
            return Err(VaultError::NotInitialized);
        },
        Some(ref g) => {
            if !g.owner.eq(caller) {
                return Err(VaultError::Unauthorized);
            }
            g.guardians.len()
        },
    };
    if guardians.len() == 0 || guardians.len() != registry_len {
        return Err(VaultError::GuardianMismatch);
    }
    let secret_id = generate_secret_id(caller, guardians, now);
    let threshold = match state.guardian_state {
        Some(ref g) => g.quorum,
        None => 0,
    };
    let mut requests: Vec<ShareRequest> = Vec::new();
    let n: usize = guardians.len();
    let mut i: usize = 0;
    while i < n
        invariant
            0 <= i <= n,
            n == guardians@.len(),
            n < 256,
            secret_id@.len() == 32,
            requests@.len() == i,
            forall|j: int|
                0 <= j < i ==> {
                    let rq = #[trigger] requests@[j];
                    &&& rq.guardian@ == views_of(guardians@)[j]
                    &&& rq.share_index == j as u8
                    &&& rq.derivation_path.deep_view() == seq![
                        secret_id@,
                        views_of(guardians@)[j],
                        seq![j as u8],
                    ]
                    &&& rq.encryption_key@ == sha256_of(
                        guardian_key_message(views_of(guardians@)[j]),
                    )
                },
        decreases n - i,
    {
        let guardian = guardians[i].clone();
        let mut path: Vec<Vec<u8>> = Vec::new();
        path.push(secret_id.clone());
        path.push(vstd::slice::slice_to_vec(guardian.as_slice()));
        let mut index_byte: Vec<u8> = Vec::new();
        index_byte.push(#[verifier::truncate] (i as u8));
        path.push(index_byte);
        let encryption_key = generate_guardian_encryption_key(&guardian);
        proof {
            assert(path.deep_view() =~~= seq![
                secret_id@,
                views_of(guardians@)[i as int],
                seq![i as u8],
            ]);
        }
        requests.push(
            ShareRequest {
                guardian,
                share_index: #[verifier::truncate] (i as u8),
                derivation_path: path,
                encryption_key,
            },
        );
        i += 1;
    }
    Ok(SharePlan { secret_id, threshold, requests })
}

} // verus!

verus! {

/// The first index whose secret carries `id`, or -1.
pub open spec fn find_secret(secrets: Seq<SecretView>, id: Seq<u8>) -> int
    decreases secrets.len(),
{
    if secrets.len() == 0 {
        -1
    } else if secrets[0].secret_id == id {
        0
    } else {
        let rest = find_secret(secrets.drop_first(), id);
        if rest == -1 {
            -1
        } else {
            rest + 1
        }
    }
}

/// What `find_secret` returns: a valid first index with the sought id, or
/// -1 when no secret carries it.
pub proof fn lemma_find_secret(secrets: Seq<SecretView>, id: Seq<u8>)
    ensures
        ({
            let k = find_secret(secrets, id);
            &&& -1 <= k < secrets.len()
            &&& k >= 0 ==> secrets[k].secret_id == id && (forall|j: int|
                0 <= j < k ==> secrets[j].secret_id != id)
            &&& k == -1 ==> (forall|j: int| 0 <= j < secrets.len() ==> secrets[j].secret_id != id)
        }),
    decreases secrets.len(),
{
    if secrets.len() == 0 {
    } else if secrets[0].secret_id == id {
    } else {
        lemma_find_secret(secrets.drop_first(), id);
        assert(forall|j: int| 1 <= j < secrets.len() ==> secrets[j] == secrets.drop_first()[j - 1]);
    }
}

/// Finds the position of the stored secret carrying `id`, if any.
fn find_secret_index(secrets: &Vec<RecoverySecret>, id: &Vec<u8>) -> (r: Option<usize>)
    ensures
        ({
            let k = find_secret(secret_views(secrets@), id@);
            match r {
                Some(i) => k == i && i < secrets@.len(),
                None => k == -1,
            }
        }),
{
    let n: usize = secrets.len();
    let mut i: usize = 0;
    while i < n
        invariant
            0 <= i <= n,
            n == secrets@.len(),
            forall|j: int| 0 <= j < i ==> secret_views(secrets@)[j].secret_id != id@,
        decreases n - i,
    {
        if bytes_eq(secrets[i].secret_id.as_slice(), id.as_slice()) {
            proof {
                lemma_find_secret(secret_views(secrets@), id@);
                assert(secret_views(secrets@)[i as int].secret_id == id@);
            }
            return Some(i);
        }
        assert(secret_views(secrets@)[i as int].secret_id != id@);
        i += 1;
    }
    proof {
        lemma_find_secret(secret_views(secrets@), id@);
    }
    None
}

/// The secret list after storing `sv`: the secret with the same id is
/// replaced, or the new secret is appended.
pub open spec fn upsert_secret(secrets: Seq<SecretView>, sv: SecretView) -> Seq<SecretView> {
    let k = find_secret(secrets, sv.secret_id);
    if k == -1 {
        secrets.push(sv)
    } else {
        secrets.update(k, sv)
    }
}

/// The shares a finished plan stores, one per request, in order.
pub open spec fn planned_shares(requests: Seq<ShareRequest>, encrypted: Seq<Vec<u8>>) -> Seq<
    ShareView,
> {
    Seq::new(
        requests.len(),
        |i: int|
            ShareView {
                guardian: requests[i].guardian@,
                encrypted_share: encrypted[i]@,
                share_index: requests[i].share_index,
                derivation_path: requests[i].derivation_path.deep_view(),
            },
    )
}

/// Commits a finished share plan as one stored `RecoverySecret`.
///
/// This is the single write of share creation, run only after every
/// external key-derivation call has succeeded; a failure mid-gathering
/// leaves no trace in the store. Because other operations may have run
/// while the external calls were awaited, authorization and the guardian
/// count are validated again here before anything is written.
pub fn commit_guardian_shares(
    state: &mut VaultState,
    caller: &PrincipalId,
    plan: SharePlan,
    encrypted_shares: Vec<Vec<u8>>,
    now: u64,
) -> (r: Result<Vec<u8>, VaultError>)
    ensures
        match r {
            Ok(sid) => {
                &&& old(state)@.registry is Some
                &&& old(state)@.registry->Some_0.owner == caller@
                &&& plan.requests@.len() == old(state)@.registry->Some_0.guardians.len()
                &&& encrypted_shares@.len() == plan.requests@.len()
                &&& sid@ == plan.secret_id@
                &&& final(state)@ == (StateView {
                    secrets: upsert_secret(
                        old(state)@.secrets,
                        SecretView {
                            secret_id: plan.secret_id@,
                            shares: planned_shares(plan.requests@, encrypted_shares@),
                            threshold: plan.threshold,
                            created_at: now,
                        },
                    ),
                    ..old(state)@
                })
            },
            Err(e) => final(state)@ == old(state)@ && match e {
                VaultError::NotInitialized => old(state)@.registry is None,
                VaultError::Unauthorized => old(state)@.registry is Some && old(
                    state,
                )@.registry->Some_0.owner != caller@,
                VaultError::GuardianMismatch => old(state)@.registry is Some && old(
                    state,
                )@.registry->Some_0.owner == caller@ && (plan.requests@.len() != old(
                    state,
                )@.registry->Some_0.guardians.len() || encrypted_shares@.len()
                    != plan.requests@.len()),
                _ => false,
            },
        },
        old(state).wf() ==> final(state).wf(),
{
    let ghost s0 = state@;
    let registry_len: usize = match state.guardian_state {
        None => {
            return Err(VaultError::NotInitialized);
        },
        Some(ref g) => {
            if !g.owner.eq(caller) {
                return Err(VaultError::Unauthorized);
            }
            g.guardians.len()
        },
    };
    if plan.requests.len() != registry_len || encrypted_shares.len() != plan.requests.len() {
        return Err(VaultError::GuardianMismatch);
    }
    let mut shares: Vec<GuardianShare> = Vec::new();
    let n: usize = plan.requests.len();
    let mut i: usize = 0;
    while i < n
        invariant
            0 <= i <= n,
            n == plan.requests@.len(),
            n == encrypted_shares@.len(),
            shares@.len() == i,
            forall|j: int|
                0 <= j < i ==> (#[trigger] shares@[j])@ == planned_shares(
                    plan.requests@,
                    encrypted_shares@,
                )[j],
        decreases n - i,
    {
        let rq = &plan.requests[i];
        let encrypted_share = encrypted_shares[i].clone();
        let derivation_path = rq.derivation_path.clone();
        proof {
            assert(encrypted_share@ =~= encrypted_shares@[i as int]@);
            assert(derivation_path.deep_view() =~~= rq.derivation_path.deep_view());
        }
        shares.push(
            GuardianShare {
                guardian: rq.guardian.clone(),
                encrypted_share,
                share_index: rq.share_index,
                derivation_path,
            },
        );
        i += 1;
    }
    let secret = RecoverySecret {
        secret_id: plan.secret_id,
        guardian_shares: shares,
        threshold: plan.threshold,
        created_at: now,
    };
    let ghost sv = secret@;
    proof {
        assert(sv.shares =~= planned_shares(plan.requests@, encrypted_shares@));
    }
    let sid = secret.secret_id.clone();
    proof {
        assert(sid@ =~= secret.secret_id@);
        lemma_find_secret(s0.secrets, sv.secret_id);
    }
    match find_secret_index(&state.recovery_secrets, &secret.secret_id) {
        None => {
            state.recovery_secrets.push(secret);
            proof {
                assert(final(state)@.secrets =~= upsert_secret(s0.secrets, sv));
            }
        },
        Some(k) => {
            *vstd::std_specs::vec::vec_index_mut(&mut state.recovery_secrets, k) = secret;
            proof {
                assert(final(state)@.secrets =~= upsert_secret(s0.secrets, sv));
            }
        },
    }
    proof {
        assert(final(state)@ =~~= (StateView {
            secrets: upsert_secret(
                s0.secrets,
                SecretView {
                    secret_id: plan.secret_id@,
                    shares: planned_shares(plan.requests@, encrypted_shares@),
                    threshold: plan.threshold,
                    created_at: now,
                },
            ),
            ..s0
        }));
        if s0.well_formed() {
            lemma_wf_after_store_secret(s0, sv);
        }
    }
    Ok(sid)
}

/// Storing a secret in a well-formed snapshot leaves it well-formed.
proof fn lemma_wf_after_store_secret(s: StateView, sv: SecretView)
    requires
        s.well_formed(),
    ensures
        (StateView { secrets: upsert_secret(s.secrets, sv), ..s }).well_formed(),
{
    let k = find_secret(s.secrets, sv.secret_id);
    lemma_find_secret(s.secrets, sv.secret_id);
    let ids = s.secrets.map_values(|x: SecretView| x.secret_id);
    let secrets1 = upsert_secret(s.secrets, sv);
    let ids1 = secrets1.map_values(|x: SecretView| x.secret_id);
    if k == -1 {
        assert(ids1 =~= ids.push(sv.secret_id));
        assert(!ids.contains(sv.secret_id)) by {
            if ids.contains(sv.secret_id) {
                let w = choose|w: int| 0 <= w < ids.len() && ids[w] == sv.secret_id;
                assert(s.secrets[w].secret_id == sv.secret_id);
            }
        }
        crate::types::lemma_distinct_push(ids, sv.secret_id);
    } else {
        assert(ids1 =~= ids);
    }
}

} // verus!

verus! {

/// The first index whose share belongs to `guardian`, or -1.
pub open spec fn find_share(shares: Seq<ShareView>, guardian: Seq<u8>) -> int
    decreases shares.len(),
{
    if shares.len() == 0 {
        -1
    } else if shares[0].guardian == guardian {
        0
    } else {
        let rest = find_share(shares.drop_first(), guardian);
        if rest == -1 {
            -1
        } else {
            rest + 1
        }
    }
}

/// What `find_share` returns: a valid first index with the sought
/// guardian, or -1 when no share belongs to them.
pub proof fn lemma_find_share(shares: Seq<ShareView>, guardian: Seq<u8>)
    ensures
        ({
            let k = find_share(shares, guardian);
            &&& -1 <= k < shares.len()
            &&& k >= 0 ==> shares[k].guardian == guardian && (forall|j: int|
                0 <= j < k ==> shares[j].guardian != guardian)
            &&& k == -1 ==> (forall|j: int| 0 <= j < shares.len() ==> shares[j].guardian != guardian)
        }),
    decreases shares.len(),
{
    if shares.len() == 0 {
    } else if shares[0].guardian == guardian {
    } else {
        lemma_find_share(shares.drop_first(), guardian);
        assert(forall|j: int| 1 <= j < shares.len() ==> shares[j] == shares.drop_first()[j - 1]);
    }
}

/// Finds the position of the share belonging to `caller`, if any.
fn find_share_index(shares: &Vec<GuardianShare>, caller: &PrincipalId) -> (r: Option<usize>)
    ensures
        ({
            let k = find_share(share_views(shares@), caller@);
            match r {
                Some(i) => k == i && i < shares@.len(),
                None => k == -1,
            }
        }),
{
    let n: usize = shares.len();
    let mut i: usize = 0;
    while i < n
        invariant
            0 <= i <= n,
            n == shares@.len(),
            forall|j: int| 0 <= j < i ==> share_views(shares@)[j].guardian != caller@,
        decreases n - i,
    {
        if shares[i].guardian.eq(caller) {
            proof {
                lemma_find_share(share_views(shares@), caller@);
                assert(share_views(shares@)[i as int].guardian == caller@);
            }
            return Some(i);
        }
        assert(share_views(shares@)[i as int].guardian != caller@);
        i += 1;
    }
    proof {
        lemma_find_share(share_views(shares@), caller@);
    }
    None
}

/// The share that belongs to the caller under the given secret, and never
/// another guardian's share. Returns `None`, not an error, when the secret
/// or the caller's entry does not exist.
pub fn get_guardian_share(state: &VaultState, caller: &PrincipalId, secret_id: Vec<u8>) -> (r:
    Result<Option<GuardianShare>, VaultError>)
    ensures
        ({
            let si = find_secret(state@.secrets, secret_id@);
            match r {
                Ok(Some(gs)) => si >= 0 && {
                    let sh = find_share(state@.secrets[si].shares, caller@);
                    sh >= 0 && gs@ == state@.secrets[si].shares[sh] && gs@.guardian == caller@
                },
                Ok(None) => si == -1 || find_share(state@.secrets[si].shares, caller@) == -1,
                Err(_) => false,
            }
        }),
{
    match find_secret_index(&state.recovery_secrets, &secret_id) {
        None => Ok(None),
        Some(si) => {
            match find_share_index(&state.recovery_secrets[si].guardian_shares, caller) {
                None => Ok(None),
                Some(sh) => {
                    proof {
                        lemma_find_share(
                            share_views(state.recovery_secrets@[si as int].guardian_shares@),
                            caller@,
                        );
                    }
                    Ok(Some(state.recovery_secrets[si].guardian_shares[sh].clone()))
                },
            }
        },
    }
}

/// The status of the request carrying `recovery_id`, for guardians only.
pub fn get_recovery_status_for_guardian(
    state: &VaultState,
    caller: &PrincipalId,
    recovery_id: u64,
) -> (r: Result<Option<RecoveryRequest>, VaultError>)
    ensures
        match r {
            Ok(found) => state@.registry is Some
                && state@.registry->Some_0.guardians.contains(caller@) && ({
                let fi = find_request(state@.requests, recovery_id);
                match found {
                    Some(req) => fi >= 0 && req@ == state@.requests[fi],
                    None => fi == -1,
                }
            }),
            Err(e) => match e {
                VaultError::NotInitialized => state@.registry is None,
                VaultError::Unauthorized => state@.registry is Some
                    && !state@.registry->Some_0.guardians.contains(caller@),
                _ => false,
            },
        },
{
    match state.guardian_state {
        None => Err(VaultError::NotInitialized),
        Some(ref g) => {
            if !contains_principal(&g.guardians, caller) {
                return Err(VaultError::Unauthorized);
            }
            match find_request_index(&state.recovery_reqs, recovery_id) {
                Some(i) => Ok(Some(state.recovery_reqs[i].clone())),
                None => Ok(None),
            }
        },
    }
}

} // verus!
