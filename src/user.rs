//! User identities.
use vstd::prelude::*;

verus! {

/// The longest identity, in bytes, that the platform hands out.
pub const MAX_ID_BYTES: usize = 29;

/// An authenticated principal, held as its significant bytes.
#[derive(Clone, Debug)]
pub struct UserId {
    pub bytes: Vec<u8>,
}

impl View for UserId {
    type V = Seq<u8>;

    open spec fn view(&self) -> Seq<u8> {
        self.bytes@
    }
}

impl UserId {
    /// Well formed: no longer than a principal can be.
    pub open spec fn wf(&self) -> bool {
        self@.len() <= MAX_ID_BYTES
    }

    pub fn from_bytes(bytes: Vec<u8>) -> (r: UserId)
        ensures
            r@ == bytes@,
    {
        UserId { bytes }
    }

    /// Whether two identities are the same principal.
    pub fn same(&self, other: &UserId) -> (r: bool)
        ensures
            r == (self@ == other@),
    {
        let n = self.bytes.len();
        if n != other.bytes.len() {
            return false;
        }
        let mut i: usize = 0;
        while i < n
            invariant
                n == self@.len(),
                n == other@.len(),
                i <= n,
                forall|j: int| 0 <= j < i ==> self@[j] == other@[j],
            decreases n - i,
        {
            if self.bytes[i] != other.bytes[i] {
                return false;
            }
            i = i + 1;
        }
        assert(self@ =~= other@);
        true
    }

    pub fn copy(&self) -> (r: UserId)
        ensures
            r@ == self@,
    {
        let mut bytes: Vec<u8> = Vec::new();
        let mut i: usize = 0;
        while i < self.bytes.len()
            invariant
                i <= self@.len(),
                bytes@ =~= self@.subrange(0, i as int),
            decreases self@.len() - i,
        {
            bytes.push(self.bytes[i]);
            i = i + 1;
        }
        assert(bytes@ =~= self@);
        UserId { bytes }
    }
}

impl PartialEq for UserId {
    fn eq(&self, other: &UserId) -> (r: bool) {
        self.same(other)
    }
}

impl vstd::std_specs::cmp::PartialEqSpecImpl for UserId {
    open spec fn obeys_eq_spec() -> bool {
        true
    }

    open spec fn eq_spec(&self, other: &UserId) -> bool {
        self@ == other@
    }
}

impl Eq for UserId {
}

/// Whether `a` precedes `b` in the platform's order of principals: the
/// shorter first, and among equally long ones, by their bytes.
pub open spec fn id_precedes(a: Seq<u8>, b: Seq<u8>) -> bool {
    a.len() < b.len() || (a.len() == b.len() && bytes_precede(a, b))
}

/// Lexicographic order on byte strings of one length.
pub open spec fn bytes_precede(a: Seq<u8>, b: Seq<u8>) -> bool {
    exists|k: int|
        0 <= k < a.len() && k < b.len() && a[k] < b[k] && forall|j: int| 0 <= j < k ==> a[j] == b[j]
}

/// The textual form of the principal with the given bytes.
pub uninterp spec fn principal_text(id: Seq<u8>) -> Seq<char>;

impl UserId {
    /// Relies on candid's `Principal::from_slice` (which panics on more than
    /// the longest identity's bytes) and `Principal::to_text`: the textual
    /// form of a principal depends on its bytes alone.
    #[verifier::external_body]
    pub(crate) fn to_text(&self) -> (r: String)
        requires
            self.wf(),
        ensures
            r@ == principal_text(self@),
    {
        candid::Principal::from_slice(&self.bytes).to_text()
    }

    /// Whether `self` precedes `other` in the platform's order of principals.
    pub fn precedes(&self, other: &UserId) -> (r: bool)
        ensures
            r == id_precedes(self@, other@),
    {
        let n = self.bytes.len();
        if n != other.bytes.len() {
            return n < other.bytes.len();
        }
        let mut k: usize = 0;
        while k < n
            invariant
                n == self@.len(),
                n == other@.len(),
                k <= n,
                forall|j: int| 0 <= j < k ==> self@[j] == other@[j],
            decreases n - k,
        {
            if self.bytes[k] != other.bytes[k] {
                let r = self.bytes[k] < other.bytes[k];
                proof {
                    if !r {
                        assert forall|m: int|
                            0 <= m < self@.len() && m < other@.len() && self@[m] < other@[m] implies !(forall|j: int|
                            0 <= j < m ==> self@[j] == other@[j]) by {
                            if m > k {
                                assert(self@[k as int] != other@[k as int]);
                            } else if m < k {
                                assert(self@[m] == other@[m]);
                            }
                        }
                    }
                }
                return r;
            }
            k = k + 1;
        }
        proof {
            assert forall|m: int|
                0 <= m < self@.len() && m < other@.len() && self@[m] < other@[m] implies false by {
                assert(self@[m] == other@[m]);
            }
        }
        false
    }
}

} // verus!
