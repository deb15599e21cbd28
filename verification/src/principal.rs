use vstd::prelude::*;

verus! {

/// An opaque, unforgeable caller identity supplied by the hosting
/// environment. The vault only compares principals for equality and feeds
/// their raw bytes into key derivation; it never authenticates them itself.
#[derive(Debug)]
pub struct PrincipalId {
    bytes: Vec<u8>,
}

impl Clone for PrincipalId {
    fn clone(&self) -> (r: Self)
        ensures
            r@ == self@,
    {
        let bytes = self.bytes.clone();
        proof {
            assert(bytes@ =~= self.bytes@);
        }
        PrincipalId { bytes }
    }
}

impl View for PrincipalId {
    type V = Seq<u8>;

    closed spec fn view(&self) -> Seq<u8> {
        self.bytes@
    }
}

impl PrincipalId {
    /// Wraps the raw bytes of a principal as the host hands them over.
    pub fn from_bytes(bytes: Vec<u8>) -> (r: PrincipalId)
        ensures
            r@ == bytes@,
    {
        PrincipalId { bytes }
    }

    /// The raw bytes of this principal.
    pub fn as_slice(&self) -> (r: &[u8])
        ensures
            r@ == self@,
    {
        self.bytes.as_slice()
    }
}

/// Compares two byte strings element by element.
pub(crate) fn bytes_eq(a: &[u8], b: &[u8]) -> (r: bool)
    ensures
        r <==> a@ == b@,
{
    if a.len() != b.len() {
        assert(a@.len() != b@.len());
        return false;
    }
    let n: usize = a.len();
    let mut i: usize = 0;
    while i < n
        invariant
            0 <= i <= n,
            n == a@.len(),
            n == b@.len(),
            forall|j: int| 0 <= j < i ==> a@[j] == b@[j],
        decreases n - i,
    {
        if a[i] != b[i] {
            return false;
        }
        i += 1;
    }
    proof {
        assert(a@ =~= b@);
    }
    true
}

impl PartialEq for PrincipalId {
    fn eq(&self, other: &PrincipalId) -> (r: bool) {
        bytes_eq(self.bytes.as_slice(), other.bytes.as_slice())
    }
}

impl Eq for PrincipalId {}

impl vstd::std_specs::cmp::PartialEqSpecImpl for PrincipalId {
    open spec fn obeys_eq_spec() -> bool {
        true
    }

    open spec fn eq_spec(&self, other: &PrincipalId) -> bool {
        self@ == other@
    }
}

/// Whether the principal identified by `p` occurs in `s`.
pub open spec fn spec_contains_principal(s: Seq<Seq<u8>>, p: Seq<u8>) -> bool {
    s.contains(p)
}

/// The identities of a list of principals, in order.
pub open spec fn views_of(s: Seq<PrincipalId>) -> Seq<Seq<u8>> {
    s.map_values(|p: PrincipalId| p@)
}

/// Whether `p` occurs in the list `v`.
pub fn contains_principal(v: &Vec<PrincipalId>, p: &PrincipalId) -> (r: bool)
    ensures
        r <==> spec_contains_principal(views_of(v@), p@),
{
    let n: usize = v.len();
    let mut i: usize = 0;
    while i < n
        invariant
            0 <= i <= n,
            n == v@.len(),
            forall|j: int| 0 <= j < i ==> views_of(v@)[j] != p@,
        decreases n - i,
    {
        assert(views_of(v@)[i as int] == v@[i as int]@);
        if v[i].eq(p) {
            assert(views_of(v@).contains(p@)) by {
                assert(views_of(v@)[i as int] == p@);
            }
            return true;
        }
        i += 1;
    }
    proof {
        if views_of(v@).contains(p@) {
            let k = choose|k: int| 0 <= k < views_of(v@).len() && views_of(v@)[k] == p@;
            assert(false);
        }
    }
    false
}

} // verus!
