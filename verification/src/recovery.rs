use vstd::prelude::*;
use crate::errors::VaultError;
use crate::principal::{contains_principal, views_of, PrincipalId};
use crate::state::{StateView, VaultState};
use crate::types::{RecoveryRequest, RegistryView, RequestView};

verus! {

/// The views of a list of requests, in order.
pub open spec fn request_views(reqs: Seq<RecoveryRequest>) -> Seq<RequestView> {
    reqs.map_values(|r: RecoveryRequest| r@)
}

/// The first index whose request carries `id`, or -1 if there is none.
pub open spec fn find_request(reqs: Seq<RequestView>, id: u64) -> int
    decreases reqs.len(),
{
    if reqs.len() == 0 {
        -1
    } else if reqs[0].id == id {
        0
    } else {
        let rest = find_request(reqs.drop_first(), id);
        if rest == -1 {
            -1
        } else {
            rest + 1
        }
    }
}

/// What `find_request` returns: a valid first index with the sought id, or
/// -1 when no request carries it.
pub proof fn lemma_find_request(reqs: Seq<RequestView>, id: u64)
    ensures
        ({
            let i = find_request(reqs, id);
            &&& -1 <= i < reqs.len()
            &&& i >= 0 ==> reqs[i].id == id && (forall|j: int| 0 <= j < i ==> reqs[j].id != id)
            &&& i == -1 ==> (forall|j: int| 0 <= j < reqs.len() ==> reqs[j].id != id)
        }),
    decreases reqs.len(),
{
    if reqs.len() == 0 {
    } else if reqs[0].id == id {
    } else {
        lemma_find_request(reqs.drop_first(), id);
        assert(forall|j: int| 1 <= j < reqs.len() ==> reqs[j] == reqs.drop_first()[j - 1]);
    }
}

/// Updating a request in place, without changing its id, does not move the
/// first index of any id.
pub proof fn lemma_find_request_update(reqs: Seq<RequestView>, i: int, r2: RequestView, id: u64)
    requires
        0 <= i < reqs.len(),
        r2.id == reqs[i].id,
    ensures
        find_request(reqs.update(i, r2), id) == find_request(reqs, id),
    decreases reqs.len(),
{
    let upd = reqs.update(i, r2);
    assert(upd.len() == reqs.len());
    if reqs.len() == 0 {
    } else if i == 0 {
        if reqs[0].id == id {
        } else {
            assert(upd.drop_first() =~= reqs.drop_first());
        }
    } else {
        if reqs[0].id == id {
        } else {
            assert(upd.drop_first() =~= reqs.drop_first().update(i - 1, r2));
            lemma_find_request_update(reqs.drop_first(), i - 1, r2, id);
        }
    }
}

/// The approval list after one guardian's vote: unchanged if the guardian
/// already voted, extended by one otherwise.
pub open spec fn approved_after(approvals: Seq<Seq<u8>>, caller: Seq<u8>) -> Seq<Seq<u8>> {
    if approvals.contains(caller) {
        approvals
    } else {
        approvals.push(caller)
    }
}

/// The shared atomic commit both recovery paths go through: request `i` is
/// replaced by its closed form `req2` and the registry owner becomes the
/// request's proposed new owner, in one indivisible step.
pub open spec fn spec_commit(s: StateView, i: int, req2: RequestView) -> StateView {
    StateView {
        registry: Some(RegistryView { owner: req2.new_owner, ..s.registry->Some_0 }),
        requests: s.requests.update(i, req2),
        ..s
    }
}

/// The one executable commit step, shared by the approval path and the
/// share-driven completion path: request `i` is replaced by its closed
/// form `req` and the registry owner becomes the request's proposed owner.
/// No two callers can both reach it for one request: it closes the request
/// it commits.
pub(crate) fn commit_transfer(state: &mut VaultState, i: usize, req: RecoveryRequest)
    requires
        i < old(state)@.requests.len(),
        old(state)@.registry is Some,
        !req.open,
    ensures
        final(state)@ == spec_commit(old(state)@, i as int, req@),
{
    let ghost s0 = state@;
    let new_owner = req.new_owner.clone();
    *vstd::std_specs::vec::vec_index_mut(&mut state.recovery_reqs, i) = req;
    match state.guardian_state {
        Some(ref mut g) => {
            g.owner = new_owner;
        },
        None => {
            proof {
                assert(false);
            }
        },
    }
    proof {
        assert(final(state)@.requests =~~= spec_commit(s0, i as int, req@).requests);
        assert(final(state)@.registry->Some_0 =~~= spec_commit(s0, i as int, req@).registry->Some_0);
        assert(final(state)@ =~~= spec_commit(s0, i as int, req@));
    }
}

/// The whole effect of one `approve_recovery` call on a snapshot: the state
/// it leaves behind and the result it returns.
pub open spec fn spec_approve(s: StateView, caller: Seq<u8>, id: u64) -> (StateView, Result<
    bool,
    VaultError,
>) {
    match s.registry {
        None => (s, Err(VaultError::NotInitialized)),
        Some(reg) => {
            if !reg.guardians.contains(caller) {
                (s, Err(VaultError::Unauthorized))
            } else {
                let i = find_request(s.requests, id);
                if i == -1 {
                    (s, Err(VaultError::RequestNotFound))
                } else if !s.requests[i].open {
                    (s, Err(VaultError::RequestClosed))
                } else {
                    let req = s.requests[i];
                    let approvals = approved_after(req.approvals, caller);
                    if approvals.len() >= reg.quorum {
                        (
                            spec_commit(
                                s,
                                i,
                                RequestView { approvals, open: false, ..req },
                            ),
                            Ok(true),
                        )
                    } else {
                        (
                            StateView {
                                requests: s.requests.update(
                                    i,
                                    RequestView { approvals, ..req },
                                ),
                                ..s
                            },
                            Ok(false),
                        )
                    }
                }
            }
        },
    }
}

/// Finds the position of the request carrying `id`, if any.
pub(crate) fn find_request_index(reqs: &Vec<RecoveryRequest>, id: u64) -> (r: Option<usize>)
    ensures
        ({
            let fi = find_request(request_views(reqs@), id);
            match r {
                Some(i) => fi == i && i < reqs@.len(),
                None => fi == -1,
            }
        }),
{
    let n: usize = reqs.len();
    let mut i: usize = 0;
    while i < n
        invariant
            0 <= i <= n,
            n == reqs@.len(),
            forall|j: int| 0 <= j < i ==> request_views(reqs@)[j].id != id,
        decreases n - i,
    {
        if reqs[i].id == id {
            proof {
                lemma_find_request(request_views(reqs@), id);
                assert(request_views(reqs@)[i as int].id == id);
            }
            return Some(i);
        }
        assert(request_views(reqs@)[i as int].id != id);
        i += 1;
    }
    proof {
        lemma_find_request(request_views(reqs@), id);
    }
    None
}

/// Opens a recovery request proposing `new_owner` as the vault's next owner.
///
/// Only the current owner or a guardian may open one. The request receives
/// the next id from a monotonic counter that is never reused, starts `Open`
/// with no approvals, and stays open until a quorum closes it.
pub fn request_recovery(
    state: &mut VaultState,
    caller: &PrincipalId,
    new_owner: &PrincipalId,
) -> (r: Result<u64, VaultError>)
    requires
        old(state)@.next_recovery_id < u64::MAX,
    ensures
        match r {
            Ok(id) => {
                &&& old(state)@.registry is Some
                &&& {
                    let reg = old(state)@.registry->Some_0;
                    reg.owner == caller@ || reg.guardians.contains(caller@)
                }
                &&& id == old(state)@.next_recovery_id
                &&& final(state)@ == (StateView {
                    next_recovery_id: (old(state)@.next_recovery_id + 1) as u64,
                    requests: old(state)@.requests.push(
                        RequestView {
                            id,
                            new_owner: new_owner@,
                            approvals: Seq::empty(),
                            open: true,
                        },
                    ),
                    ..old(state)@
                })
            },
            Err(e) => final(state)@ == old(state)@ && match e {
                VaultError::NotInitialized => old(state)@.registry is None,
                VaultError::Unauthorized => {
                    &&& old(state)@.registry is Some
                    &&& old(state)@.registry->Some_0.owner != caller@
                    &&& !old(state)@.registry->Some_0.guardians.contains(caller@)
                },
                _ => false,
            },
        },
        old(state).wf() ==> final(state).wf(),
{
    match state.guardian_state {
        None => Err(VaultError::NotInitialized),
        Some(ref g) => {
            if !g.owner.eq(caller) && !contains_principal(&g.guardians, caller) {
                return Err(VaultError::Unauthorized);
            }
            let id = state.next_recovery_id;
            state.next_recovery_id = id + 1;
            state.recovery_reqs.push(
                RecoveryRequest {
                    id,
                    new_owner: new_owner.clone(),
                    approvals: Vec::new(),
                    open: true,
                },
            );
            proof {
                assert(views_of(Seq::<PrincipalId>::empty()) =~= Seq::<Seq<u8>>::empty());
                assert(final(state)@.requests =~~= old(state)@.requests.push(
                    RequestView {
                        id,
                        new_owner: new_owner@,
                        approvals: Seq::empty(),
                        open: true,
                    },
                ));
                assert(final(state)@ =~~= (StateView {
                    next_recovery_id: (old(state)@.next_recovery_id + 1) as u64,
                    requests: old(state)@.requests.push(
                        RequestView {
                            id,
                            new_owner: new_owner@,
                            approvals: Seq::empty(),
                            open: true,
                        },
                    ),
                    ..old(state)@
                }));
            }
            Ok(id)
        },
    }
}

/// Records one guardian's approval of the open request `id`, and performs
/// the ownership transfer the moment the quorum is reached.
///
/// Approving is idempotent: a guardian voting twice contributes one vote.
/// If the approval count reaches the quorum after this call, the registry
/// owner is rewritten to the request's proposed owner and the request is
/// closed, atomically in the same step; the call then returns `Ok(true)`.
/// A call against a closed request fails with `RequestClosed` and never
/// re-evaluates or re-commits.
pub fn approve_recovery(state: &mut VaultState, caller: &PrincipalId, id: u64) -> (r: Result<
    bool,
    VaultError,
>)
    ensures
        final(state)@ == spec_approve(old(state)@, caller@, id).0,
        r == spec_approve(old(state)@, caller@, id).1,
        old(state).wf() ==> final(state).wf(),
{
    let ghost s0 = state@;
    let (quorum, is_guardian) = match state.guardian_state {
        None => {
            return Err(VaultError::NotInitialized);
        },
        Some(ref g) => (g.quorum, contains_principal(&g.guardians, caller)),
    };
    if !is_guardian {
        return Err(VaultError::Unauthorized);
    }
    let i = match find_request_index(&state.recovery_reqs, id) {
        None => {
            return Err(VaultError::RequestNotFound);
        },
        Some(i) => i,
    };
    if !state.recovery_reqs[i].open {
        return Err(VaultError::RequestClosed);
    }
    let ghost req0 = s0.requests[i as int];
    let mut req = state.recovery_reqs[i].clone();
    if !contains_principal(&req.approvals, caller) {
        req.approvals.push(caller.clone());
        proof {
            assert(req@.approvals =~= approved_after(req0.approvals, caller@));
        }
    }
    proof {
        assert(req@.approvals == approved_after(req0.approvals, caller@));
    }
    let committed = req.approvals.len() >= (quorum as usize);
    if committed {
        req.open = false;
        commit_transfer(state, i, req);
        proof {
            let (s1, r1) = spec_approve(s0, caller@, id);
            assert(final(state)@ =~~= s1);
            if s0.well_formed() {
                lemma_wf_after_approve(s0, caller@, id);
            }
        }
        Ok(true)
    } else {
        *vstd::std_specs::vec::vec_index_mut(&mut state.recovery_reqs, i) = req;
        proof {
            let (s1, r1) = spec_approve(s0, caller@, id);
            assert(final(state)@.requests =~~= s1.requests);
            assert(final(state)@ =~~= s1);
            if s0.well_formed() {
                lemma_wf_after_approve(s0, caller@, id);
            }
        }
        Ok(false)
    }
}

/// An approval on a well-formed snapshot leaves a well-formed snapshot.
proof fn lemma_wf_after_approve(s: StateView, caller: Seq<u8>, id: u64)
    requires
        s.well_formed(),
    ensures
        spec_approve(s, caller, id).0.well_formed(),
{
    let (s1, r) = spec_approve(s, caller, id);
    if s.registry is Some && s.registry->Some_0.guardians.contains(caller) {
        let i = find_request(s.requests, id);
        lemma_find_request(s.requests, id);
        if i >= 0 && s.requests[i].open {
            let req = s.requests[i];
            let approvals = approved_after(req.approvals, caller);
            assert(crate::types::distinct_seq(approvals)) by {
                if !req.approvals.contains(caller) {
                    assert(forall|k: int| 0 <= k < req.approvals.len()
                        ==> req.approvals[k] != caller);
                }
            }
            assert(forall|j: int| 0 <= j < s1.requests.len() ==> (#[trigger] s1.requests[j]).id
                == s.requests[j].id);
            assert(forall|j: int| 0 <= j < s1.requests.len() ==> crate::types::distinct_seq(
                (#[trigger] s1.requests[j]).approvals,
            ));
        }
    }
}

/// A read-only copy of the request carrying `id`, open or closed.
/// Unauthenticated: a request's status leaks no secret material.
pub fn recovery_status(state: &VaultState, id: u64) -> (r: Option<RecoveryRequest>)
    ensures
        ({
            let fi = find_request(state@.requests, id);
            match r {
                Some(req) => fi >= 0 && req@ == state@.requests[fi],
                None => fi == -1,
            }
        }),
{
    match find_request_index(&state.recovery_reqs, id) {
        Some(i) => Some(state.recovery_reqs[i].clone()),
        None => None,
    }
}

/// Copies a list of requests, preserving their views in order.
fn clone_requests(reqs: &Vec<RecoveryRequest>) -> (r: Vec<RecoveryRequest>)
    ensures
        request_views(r@) == request_views(reqs@),
{
    let mut r: Vec<RecoveryRequest> = Vec::new();
    let n: usize = reqs.len();
    let mut i: usize = 0;
    while i < n
        invariant
            0 <= i <= n,
            n == reqs@.len(),
            r@.len() == i,
            forall|j: int| 0 <= j < i ==> r@[j]@ == reqs@[j]@,
        decreases n - i,
    {
        r.push(reqs[i].clone());
        i += 1;
    }
    proof {
        assert(request_views(r@) =~= request_views(reqs@));
    }
    r
}

/// All recovery requests, visible only to the owner and the guardians.
/// Any other caller receives an empty list: this is a visibility filter,
/// not an authorization failure.
pub fn get_recovery_requests(state: &VaultState, caller: &PrincipalId) -> (r: Vec<RecoveryRequest>)
    ensures
        ({
            let authorized = match state@.registry {
                Some(reg) => reg.owner == caller@ || reg.guardians.contains(caller@),
                None => false,
            };
            if authorized {
                request_views(r@) == state@.requests
            } else {
                r@.len() == 0
            }
        }),
{
    match state.guardian_state {
        None => Vec::new(),
        Some(ref g) => {
            if g.owner.eq(caller) || contains_principal(&g.guardians, caller) {
                clone_requests(&state.recovery_reqs)
            } else {
                Vec::new()
            }
        },
    }
}

} // verus!
