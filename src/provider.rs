//! Provider identities and the keys that callers present for them.
use vstd::prelude::*;

verus! {

/// Identity of a provider: the 32-byte hash of its contract package.
#[derive(Clone, Copy, Debug)]
pub struct ProviderId {
    pub hash: [u8; 32],
}

impl View for ProviderId {
    type V = Seq<u8>;

    open spec fn view(&self) -> Seq<u8> {
        self.hash@
    }
}

impl ProviderId {
    /// The provider whose contract package has this hash.
    pub fn new(hash: [u8; 32]) -> (r: ProviderId)
        ensures
            r@ == hash@,
    {
        ProviderId { hash }
    }

    /// Whether two identities are the same hash.
    pub fn same_as(&self, other: &ProviderId) -> (r: bool)
        ensures
            r == (self@ == other@),
    {
        let mut i: usize = 0;
        while i < 32
            invariant
                i <= 32,
                self@.len() == 32,
                other@.len() == 32,
                forall|j: int| 0 <= j < i ==> self@[j] == other@[j],
            decreases 32 - i,
        {
            if self.hash[i] != other.hash[i] {
                return false;
            }
            i = i + 1;
        }
        assert(self@ =~= other@);
        true
    }
}

/// A key presented by a caller as a provider. Only a contract-package hash
/// names a provider; every other kind of key (an account, a URef, ...) is
/// refused.
#[derive(Clone, Copy, Debug)]
pub enum ProviderKey {
    Hash([u8; 32]),
    Other,
}

} // verus!
