//! Identities and invocation-level authorization.

use vstd::prelude::*;

verus! {

/// An account or contract identity on the ledger, reduced to the numeric
/// handle the environment assigns it: the escrow's rules only ever compare
/// identities for equality, so nothing more of an identity is modelled.
#[derive(Clone, Copy, PartialEq, Eq, Structural, Debug)]
pub struct Address {
    pub id: u64,
}

/// An identity has authorized the current invocation iff it stands among the
/// invocation's signers. This models the ledger's proof-of-authorization
/// check: the environment collects the signatures of one invocation and
/// hands them in as a list.
pub open spec fn spec_signed(signers: Seq<Address>, who: Address) -> bool {
    signers.contains(who)
}

/// Whether `who` has authorized the invocation whose signers are given.
pub fn is_signed(signers: &Vec<Address>, who: Address) -> (r: bool)
    ensures
        r == spec_signed(signers@, who),
{
    let mut i: usize = 0;
    while i < signers.len()
        invariant
            0 <= i <= signers@.len(),
            forall|j: int| 0 <= j < i ==> signers@[j] != who,
        decreases signers@.len() - i,
    {
        if signers[i] == who {
            assert(signers@.contains(who));
            return true;
        }
        i += 1;
    }
    false
}

} // verus!
