use vstd::prelude::*;
use crate::principal::{PrincipalId, views_of};

verus! {

/// Whether all elements of `s` are pairwise distinct.
pub open spec fn distinct_seq<A>(s: Seq<A>) -> bool {
    forall|i: int, j: int| 0 <= i < j < s.len() ==> s[i] != s[j]
}

/// Mathematical model of the host-service configuration.
#[verifier::ext_equal]
pub ghost struct ConfigView {
    pub ckbtc_ledger: Seq<u8>,
    pub ckbtc_minter: Seq<u8>,
    pub ecdsa_key_name: Seq<char>,
}

/// The external collaborators the vault talks to: the ledger and minter
/// canisters and the name of the signing key configured on the subnet.
#[derive(Debug)]
pub struct Config {
    pub ckbtc_ledger: PrincipalId,
    pub ckbtc_minter: PrincipalId,
    pub ecdsa_key_name: String,
}

impl View for Config {
    type V = ConfigView;

    open spec fn view(&self) -> ConfigView {
        ConfigView {
            ckbtc_ledger: self.ckbtc_ledger@,
            ckbtc_minter: self.ckbtc_minter@,
            ecdsa_key_name: self.ecdsa_key_name@,
        }
    }
}

impl Clone for Config {
    fn clone(&self) -> (r: Self)
        ensures
            r@ == self@,
    {
        Config {
            ckbtc_ledger: self.ckbtc_ledger.clone(),
            ckbtc_minter: self.ckbtc_minter.clone(),
            ecdsa_key_name: self.ecdsa_key_name.clone(),
        }
    }
}

/// Mathematical model of the guardian registry.
#[verifier::ext_equal]
pub ghost struct RegistryView {
    pub guardians: Seq<Seq<u8>>,
    pub quorum: u8,
    pub owner: Seq<u8>,
}

impl RegistryView {
    /// The registry is either fully unconfigured (no guardians, quorum 0) or
    /// fully valid (`1 <= quorum <= |guardians|`).
    pub open spec fn well_formed(self) -> bool {
        if self.guardians.len() == 0 {
            self.quorum == 0
        } else {
            1 <= self.quorum <= self.guardians.len()
        }
    }
}

/// The guardian registry: the vault owner, the designated guardians, and the
/// quorum of guardian approvals needed to transfer ownership.
#[derive(Debug)]
pub struct GuardianState {
    pub guardians: Vec<PrincipalId>,
    pub quorum: u8,
    pub owner: PrincipalId,
}

impl View for GuardianState {
    type V = RegistryView;

    open spec fn view(&self) -> RegistryView {
        RegistryView {
            guardians: views_of(self.guardians@),
            quorum: self.quorum,
            owner: self.owner@,
        }
    }
}

impl Clone for GuardianState {
    fn clone(&self) -> (r: Self)
        ensures
            r@ == self@,
    {
        let r = GuardianState {
            guardians: clone_principals(&self.guardians),
            quorum: self.quorum,
            owner: self.owner.clone(),
        };
        proof {
            assert(r@.guardians =~= self@.guardians);
        }
        r
    }
}

/// Copies a list of principals, preserving their identities in order.
pub fn clone_principals(v: &Vec<PrincipalId>) -> (r: Vec<PrincipalId>)
    ensures
        views_of(r@) == views_of(v@),
{
    let mut r: Vec<PrincipalId> = Vec::new();
    let n: usize = v.len();
    let mut i: usize = 0;
    while i < n
        invariant
            0 <= i <= n,
            n == v@.len(),
            r@.len() == i,
            forall|j: int| 0 <= j < i ==> r@[j]@ == v@[j]@,
        decreases n - i,
    {
        r.push(v[i].clone());
        i += 1;
    }
    proof {
        assert(views_of(r@) =~= views_of(v@));
    }
    r
}

/// Mathematical model of one recovery request.
#[verifier::ext_equal]
pub ghost struct RequestView {
    pub id: u64,
    pub new_owner: Seq<u8>,
    pub approvals: Seq<Seq<u8>>,
    pub open: bool,
}

/// A proposed ownership change awaiting sufficient guardian approval.
/// A request closes exactly once, irreversibly.
#[derive(Debug)]
pub struct RecoveryRequest {
    pub id: u64,
    pub new_owner: PrincipalId,
    pub approvals: Vec<PrincipalId>,
    pub open: bool,
}

impl View for RecoveryRequest {
    type V = RequestView;

    open spec fn view(&self) -> RequestView {
        RequestView {
            id: self.id,
            new_owner: self.new_owner@,
            approvals: views_of(self.approvals@),
            open: self.open,
        }
    }
}

impl Clone for RecoveryRequest {
    fn clone(&self) -> (r: Self)
        ensures
            r@ == self@,
    {
        let r = RecoveryRequest {
            id: self.id,
            new_owner: self.new_owner.clone(),
            approvals: clone_principals(&self.approvals),
            open: self.open,
        };
        proof {
            assert(r@.approvals =~= self@.approvals);
        }
        r
    }
}

} // verus!

verus! {

/// Appending an unseen element keeps a sequence duplicate-free.
pub proof fn lemma_distinct_push<A>(s: Seq<A>, a: A)
    requires
        distinct_seq(s),
        !s.contains(a),
    ensures
        distinct_seq(s.push(a)),
{
    assert forall|i: int, j: int|
        0 <= i < j < s.push(a).len() implies s.push(a)[i] != s.push(a)[j] by {
        if j == s.len() {
            assert(s.push(a)[i] == s[i]);
            if s[i] == a {
                assert(s.contains(a));
            }
        }
    }
}

/// Removing an element keeps a sequence duplicate-free.
pub proof fn lemma_distinct_remove<A>(s: Seq<A>, k: int)
    requires
        distinct_seq(s),
        0 <= k < s.len(),
    ensures
        distinct_seq(s.remove(k)),
{
    assert forall|i: int, j: int|
        0 <= i < j < s.remove(k).len() implies s.remove(k)[i] != s.remove(k)[j] by {
        let i0: int = if i < k { i } else { i + 1 };
        let j0: int = if j < k { j } else { j + 1 };
        assert(s.remove(k)[i] == s[i0]);
        assert(s.remove(k)[j] == s[j0]);
    }
}

} // verus!
