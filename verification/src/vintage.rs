//! In-memory model of the vintage policy collaborator.
//!
//! When vintage validation is enabled, the escrow consults this collaborator
//! for the minimum permissible unlock time of a token before accepting a
//! lock. The policy is a pure table: for a token it has no opinion about, it
//! reports no constraint (a minimum of zero).

use vstd::prelude::*;

verus! {

/// One policy entry: the minimum permissible unlock time for a token.
#[derive(Clone, Copy, PartialEq, Eq, Structural, Debug)]
pub struct VintageEntry {
    pub token_id: u32,
    pub min_unlock: u64,
}

/// The minimum the entries report for a token: the first entry naming the
/// token decides; absent any, there is no constraint.
pub open spec fn min_unlock_in(s: Seq<VintageEntry>, token_id: u32) -> u64
    decreases s.len(),
{
    if s.len() == 0 {
        0
    } else if s[0].token_id == token_id {
        s[0].min_unlock
    } else {
        min_unlock_in(s.drop_first(), token_id)
    }
}

/// The vintage policy collaborator: a table of minimum unlock times.
pub struct VintagePolicy {
    entries: Vec<VintageEntry>,
}

impl VintagePolicy {
    /// The raw policy entries, first match binding.
    pub closed spec fn entries_seq(self) -> Seq<VintageEntry> {
        self.entries@
    }

    /// The minimum permissible unlock time the policy reports for a token.
    pub open spec fn spec_min_unlock(self, token_id: u32) -> u64 {
        min_unlock_in(self.entries_seq(), token_id)
    }

    /// A policy with no constraints: every token's minimum is zero.
    pub fn new() -> (r: VintagePolicy)
        ensures
            forall|t: u32| r.spec_min_unlock(t) == 0,
    {
        VintagePolicy { entries: Vec::new() }
    }

    /// Declare the minimum permissible unlock time for a token, overriding
    /// any earlier declaration for it.
    pub fn set_minimum(&mut self, token_id: u32, min_unlock: u64)
        ensures
            final(self).spec_min_unlock(token_id) == min_unlock,
            forall|t: u32|
                t != token_id ==> final(self).spec_min_unlock(t) == old(self).spec_min_unlock(t),
    {
        self.entries.insert(0, VintageEntry { token_id, min_unlock });
        proof {
            assert(self.entries@.drop_first() =~= old(self).entries@);
        }
    }

    /// Report the minimum permissible unlock time for the token.
    pub fn get_vintage_unlock_timestamp(&self, token_id: u32) -> (r: u64)
        ensures
            r == self.spec_min_unlock(token_id),
    {
        let mut i: usize = 0;
        proof {
            assert(self.entries@.skip(0) =~= self.entries@);
        }
        while i < self.entries.len()
            invariant
                0 <= i <= self.entries@.len(),
                min_unlock_in(self.entries@, token_id) == min_unlock_in(
                    self.entries@.skip(i as int),
                    token_id,
                ),
            decreases self.entries@.len() - i,
        {
            proof {
                assert(self.entries@.skip(i as int)[0] == self.entries@[i as int]);
            }
            if self.entries[i].token_id == token_id {
                return self.entries[i].min_unlock;
            }
            proof {
                assert(self.entries@.skip(i as int).drop_first() =~= self.entries@.skip(
                    i as int + 1,
                ));
            }
            i += 1;
        }
        proof {
            assert(self.entries@.skip(i as int).len() == 0);
        }
        0
    }
}

} // verus!
