use vstd::prelude::*;
use crate::errors::VaultError;
use crate::recovery::{
    approved_after, find_request, lemma_find_request, lemma_find_request_update, spec_approve,
};
use crate::shares::spec_complete;
use crate::state::StateView;
use crate::types::RequestView;

verus! {

/// One recovery-driving call against a fixed request id: a guardian's
/// approval, or a completion through submitted shares.
pub ghost enum RecoveryStep {
    Approve { caller: Seq<u8> },
    Complete,
}

/// The state after one step and the result that call returns.
pub open spec fn apply_step(s: StateView, step: RecoveryStep, id: u64) -> (StateView, Result<
    bool,
    VaultError,
>) {
    match step {
        RecoveryStep::Approve { caller } => spec_approve(s, caller, id),
        RecoveryStep::Complete => spec_complete(s, id),
    }
}

/// Whether the step performs the ownership transfer.
pub open spec fn step_commits(s: StateView, step: RecoveryStep, id: u64) -> bool {
    apply_step(s, step, id).1 == Ok::<bool, VaultError>(true)
}

/// Whether the request carrying `id` exists and is closed.
pub open spec fn request_closed(s: StateView, id: u64) -> bool {
    let i = find_request(s.requests, id);
    i >= 0 && !s.requests[i].open
}

/// A step against a closed request is rejected: it changes nothing and
/// never re-evaluates or re-commits.
pub proof fn lemma_closed_step_no_op(s: StateView, step: RecoveryStep, id: u64)
    requires
        request_closed(s, id),
    ensures
        apply_step(s, step, id).0 == s,
        !step_commits(s, step, id),
{
    lemma_find_request(s.requests, id);
}

/// A committing step leaves the request closed.
pub proof fn lemma_commit_closes(s: StateView, step: RecoveryStep, id: u64)
    requires
        step_commits(s, step, id),
    ensures
        request_closed(apply_step(s, step, id).0, id),
{
    lemma_find_request(s.requests, id);
    let i = find_request(s.requests, id);
    let req = s.requests[i];
    match step {
        RecoveryStep::Approve { caller } => {
            let reg = s.registry->Some_0;
            let approvals = approved_after(req.approvals, caller);
            lemma_find_request_update(
                s.requests,
                i,
                RequestView { approvals, open: false, ..req },
                id,
            );
        },
        RecoveryStep::Complete => {
            lemma_find_request_update(s.requests, i, RequestView { open: false, ..req }, id);
        },
    }
}

/// A step that does not commit leaves the registry — its owner included —
/// exactly as it was.
pub proof fn lemma_no_commit_keeps_registry(s: StateView, step: RecoveryStep, id: u64)
    requires
        !step_commits(s, step, id),
    ensures
        apply_step(s, step, id).0.registry == s.registry,
{
}

/// The state after a whole sequence of recovery-driving calls against one
/// request id.
pub open spec fn apply_steps(s: StateView, steps: Seq<RecoveryStep>, id: u64) -> StateView
    decreases steps.len(),
{
    if steps.len() == 0 {
        s
    } else {
        apply_steps(apply_step(s, steps[0], id).0, steps.drop_first(), id)
    }
}

/// How many of the calls in the sequence perform the ownership transfer.
pub open spec fn commit_count(s: StateView, steps: Seq<RecoveryStep>, id: u64) -> nat
    decreases steps.len(),
{
    if steps.len() == 0 {
        0
    } else {
        (if step_commits(s, steps[0], id) {
            1nat
        } else {
            0nat
        }) + commit_count(apply_step(s, steps[0], id).0, steps.drop_first(), id)
    }
}

/// Once the request is closed, every later call against it is rejected:
/// the state never moves again and no further call commits.
pub proof fn lemma_closed_stays(s: StateView, steps: Seq<RecoveryStep>, id: u64)
    requires
        request_closed(s, id),
    ensures
        apply_steps(s, steps, id) == s,
        commit_count(s, steps, id) == 0,
    decreases steps.len(),
{
    if steps.len() > 0 {
        lemma_closed_step_no_op(s, steps[0], id);
        lemma_closed_stays(s, steps.drop_first(), id);
    }
}

/// Exactly-once transfer: across any sequence of interleaved approval and
/// completion calls against one recovery id, at most one call performs the
/// ownership transfer. The committing call closes the request in the same
/// atomic step, so every later call observes it closed and is rejected.
pub proof fn lemma_transfer_at_most_once(s: StateView, steps: Seq<RecoveryStep>, id: u64)
    ensures
        commit_count(s, steps, id) <= 1,
    decreases steps.len(),
{
    if steps.len() > 0 {
        let s1 = apply_step(s, steps[0], id).0;
        if step_commits(s, steps[0], id) {
            lemma_commit_closes(s, steps[0], id);
            lemma_closed_stays(s1, steps.drop_first(), id);
        } else {
            lemma_transfer_at_most_once(s1, steps.drop_first(), id);
        }
    }
}

/// If no call in the sequence commits, the registry — its owner included —
/// comes out exactly as it went in: the owner changes only as the result
/// of the single committing call.
pub proof fn lemma_no_commit_no_transfer(s: StateView, steps: Seq<RecoveryStep>, id: u64)
    requires
        commit_count(s, steps, id) == 0,
    ensures
        apply_steps(s, steps, id).registry == s.registry,
    decreases steps.len(),
{
    if steps.len() > 0 {
        lemma_no_commit_keeps_registry(s, steps[0], id);
        lemma_no_commit_no_transfer(apply_step(s, steps[0], id).0, steps.drop_first(), id);
    }
}

/// Idempotent approval: approving twice from the same guardian on the same
/// request changes nothing beyond the first call — in particular the
/// approval count never grows beyond the first call's contribution.
pub proof fn lemma_approve_idempotent(s: StateView, caller: Seq<u8>, id: u64)
    ensures
        spec_approve(spec_approve(s, caller, id).0, caller, id).0 == spec_approve(s, caller, id).0,
{
    let (s1, r1) = spec_approve(s, caller, id);
    lemma_find_request(s.requests, id);
    match s.registry {
        None => {},
        Some(reg) => {
            if reg.guardians.contains(caller) {
                let i = find_request(s.requests, id);
                if i >= 0 && s.requests[i].open {
                    let req = s.requests[i];
                    let approvals = approved_after(req.approvals, caller);
                    assert(approvals.contains(caller)) by {
                        if !req.approvals.contains(caller) {
                            assert(approvals[approvals.len() - 1] == caller);
                        }
                    }
                    if approvals.len() >= reg.quorum {
                        lemma_find_request_update(
                            s.requests,
                            i,
                            RequestView { approvals, open: false, ..req },
                            id,
                        );
                    } else {
                        let req1 = RequestView { approvals, ..req };
                        lemma_find_request_update(s.requests, i, req1, id);
                        assert(approved_after(approvals, caller) == approvals);
                        assert(s1.requests[i] == req1);
                        assert(s1.requests.update(i, RequestView { approvals, ..req1 })
                            =~= s1.requests);
                        assert(spec_approve(s1, caller, id).0 =~~= s1);
                    }
                }
            }
        },
    }
}

} // verus!

verus! {

/// Quorum invariant: in every well-formed snapshot — and every operation
/// of this crate carries well-formedness from state to state — a
/// configured registry satisfies `1 <= quorum <= |guardians|`.
pub proof fn lemma_registry_quorum_invariant(s: StateView)
    requires
        s.well_formed(),
        s.registry is Some,
        s.registry->Some_0.guardians.len() > 0,
    ensures
        1 <= s.registry->Some_0.quorum <= s.registry->Some_0.guardians.len(),
{
}

} // verus!
