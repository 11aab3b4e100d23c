//! In-memory model of the external asset registry's custody bookkeeping.
//!
//! The escrow never caches who holds a token: custody is the registry's own
//! fact. This module models exactly the two obligations the escrow consumes —
//! `transfer_from` moves custody and fails if the named holder does not hold
//! the token, `owner_of` reports the current holder — together with `burn`,
//! which the retirement tracker consumes, and `set_holder`, with which the
//! environment seeds custody.

use vstd::prelude::*;

use crate::address::Address;

verus! {

/// One token's custody entry: which identity currently holds the token.
#[derive(Clone, Copy, PartialEq, Eq, Structural, Debug)]
pub struct TokenHolding {
    pub token_id: u32,
    pub holder: Address,
}

/// Why the registry refused a custody operation: the identity the call named
/// as the current holder does not hold the token (or the token does not
/// exist at all). The caller must treat this as an abort of the whole
/// surrounding operation.
#[derive(Clone, Copy, PartialEq, Eq, Structural, Debug)]
pub enum RegistryError {
    NotHolder,
}

/// No two entries name the same token.
pub open spec fn holdings_wf(s: Seq<TokenHolding>) -> bool {
    forall|i: int, j: int| 0 <= i < j < s.len() ==> s[i].token_id != s[j].token_id
}

/// Some entry names the token.
pub open spec fn holdings_has(s: Seq<TokenHolding>, token_id: u32) -> bool {
    exists|i: int| 0 <= i < s.len() && s[i].token_id == token_id
}

/// The index of the entry naming the token: unique when the entries are
/// well-formed and one exists.
pub open spec fn holdings_index(s: Seq<TokenHolding>, token_id: u32) -> int {
    choose|i: int| 0 <= i < s.len() && s[i].token_id == token_id
}

/// The holder the entries record for the token.
pub open spec fn holdings_holder(s: Seq<TokenHolding>, token_id: u32) -> Address {
    s[holdings_index(s, token_id)].holder
}

/// In well-formed entries, the entry at index `i` is the one and only entry
/// for its token.
proof fn lemma_holding_at(s: Seq<TokenHolding>, i: int)
    requires
        holdings_wf(s),
        0 <= i < s.len(),
    ensures
        holdings_has(s, s[i].token_id),
        holdings_index(s, s[i].token_id) == i,
        holdings_holder(s, s[i].token_id) == s[i].holder,
{
    assert(holdings_has(s, s[i].token_id)) by {
        assert(0 <= i < s.len() && s[i].token_id == s[i].token_id);
    }
    let j = holdings_index(s, s[i].token_id);
    assert(0 <= j < s.len() && s[j].token_id == s[i].token_id);
    if j < i {
        assert(s[j].token_id != s[i].token_id);
    } else if i < j {
        assert(s[i].token_id != s[j].token_id);
    }
}

/// The in-memory registry: custody entries, at most one per token.
pub struct AssetRegistry {
    holdings: Vec<TokenHolding>,
}

/// After the step, `token_id` is held by `to` and every other token's entry
/// is untouched.
pub open spec fn moved_to(pre: AssetRegistry, post: AssetRegistry, token_id: u32, to: Address) -> bool {
    &&& post.wf()
    &&& post.has_token(token_id)
    &&& post.holder_of(token_id) == to
    &&& forall|t: u32| t != token_id ==> post.has_token(t) == pre.has_token(t)
    &&& forall|t: u32|
        t != token_id && pre.has_token(t) ==> post.holder_of(t) == pre.holder_of(t)
}

/// After the step, `token_id` no longer exists and every other token's entry
/// is untouched.
pub open spec fn removed_from(pre: AssetRegistry, post: AssetRegistry, token_id: u32) -> bool {
    &&& post.wf()
    &&& !post.has_token(token_id)
    &&& forall|t: u32| t != token_id ==> post.has_token(t) == pre.has_token(t)
    &&& forall|t: u32|
        t != token_id && pre.has_token(t) ==> post.holder_of(t) == pre.holder_of(t)
}

impl AssetRegistry {
    /// The raw custody entries.
    pub closed spec fn holdings_seq(self) -> Seq<TokenHolding> {
        self.holdings@
    }

    /// At most one entry per token.
    pub open spec fn wf(self) -> bool {
        holdings_wf(self.holdings_seq())
    }

    /// The registry knows the token.
    pub open spec fn has_token(self, token_id: u32) -> bool {
        holdings_has(self.holdings_seq(), token_id)
    }

    /// The identity currently holding the token (meaningful only when
    /// `has_token` holds).
    pub open spec fn holder_of(self, token_id: u32) -> Address {
        holdings_holder(self.holdings_seq(), token_id)
    }

    /// An empty registry: no token exists yet.
    pub fn new() -> (r: AssetRegistry)
        ensures
            r.wf(),
            forall|t: u32| !r.has_token(t),
    {
        AssetRegistry { holdings: Vec::new() }
    }

    /// The index of the token's entry, if the registry knows the token.
    fn find_token(&self, token_id: u32) -> (r: Option<usize>)
        ensures
            match r {
                Some(i) => i < self.holdings_seq().len()
                    && self.holdings_seq()[i as int].token_id == token_id,
                None => !self.has_token(token_id),
            },
    {
        let mut i: usize = 0;
        while i < self.holdings.len()
            invariant
                0 <= i <= self.holdings_seq().len(),
                forall|j: int| 0 <= j < i ==> self.holdings_seq()[j].token_id != token_id,
            decreases self.holdings_seq().len() - i,
        {
            if self.holdings[i].token_id == token_id {
                return Some(i);
            }
            i += 1;
        }
        None
    }

    /// Report the current holder of the token, or its absence.
    pub fn owner_of(&self, token_id: u32) -> (r: Option<Address>)
        requires
            self.wf(),
        ensures
            r == (if self.has_token(token_id) {
                Some(self.holder_of(token_id))
            } else {
                None::<Address>
            }),
    {
        match self.find_token(token_id) {
            Some(i) => {
                proof {
                    lemma_holding_at(self.holdings_seq(), i as int);
                }
                Some(self.holdings[i].holder)
            }
            None => None,
        }
    }

    /// Record `holder` as the current holder of `token_id`, creating the
    /// token's entry if the registry did not know it. This is the
    /// environment's way of seeding custody; the escrow itself only moves
    /// custody through `transfer_from`.
    pub fn set_holder(&mut self, token_id: u32, holder: Address)
        requires
            old(self).wf(),
        ensures
            moved_to(*old(self), *final(self), token_id, holder),
    {
        let entry = TokenHolding { token_id, holder };
        match self.find_token(token_id) {
            Some(i) => {
                self.holdings.set(i, entry);
                proof {
                    lemma_update_holding(old(self).holdings_seq(), i as int, holder);
                }
            }
            None => {
                self.holdings.push(entry);
                proof {
                    lemma_push_holding(old(self).holdings_seq(), entry);
                }
            }
        }
    }

    /// Move custody of `token_id` from `from` to `to`. Fails — and changes
    /// nothing — unless `from` currently holds the token.
    pub fn transfer_from(&mut self, from: Address, to: Address, token_id: u32) -> (r: Result<
        (),
        RegistryError,
    >)
        requires
            old(self).wf(),
        ensures
            final(self).wf(),
            (r is Ok) == (old(self).has_token(token_id) && old(self).holder_of(token_id)
                == from),
            r is Ok ==> moved_to(*old(self), *final(self), token_id, to),
            r is Err ==> *final(self) == *old(self) && r == Err::<(), RegistryError>(
                RegistryError::NotHolder,
            ),
    {
        match self.find_token(token_id) {
            Some(i) => {
                proof {
                    lemma_holding_at(self.holdings_seq(), i as int);
                }
                if self.holdings[i].holder == from {
                    self.holdings.set(i, TokenHolding { token_id, holder: to });
                    proof {
                        lemma_update_holding(old(self).holdings_seq(), i as int, to);
                    }
                    Ok(())
                } else {
                    Err(RegistryError::NotHolder)
                }
            }
            None => Err(RegistryError::NotHolder),
        }
    }

    /// Destroy the token. Fails — and changes nothing — unless `from`
    /// currently holds it.
    pub fn burn(&mut self, token_id: u32, from: Address) -> (r: Result<(), RegistryError>)
        requires
            old(self).wf(),
        ensures
            final(self).wf(),
            (r is Ok) == (old(self).has_token(token_id) && old(self).holder_of(token_id)
                == from),
            r is Ok ==> removed_from(*old(self), *final(self), token_id),
            r is Err ==> *final(self) == *old(self) && r == Err::<(), RegistryError>(
                RegistryError::NotHolder,
            ),
    {
        match self.find_token(token_id) {
            Some(i) => {
                proof {
                    lemma_holding_at(self.holdings_seq(), i as int);
                }
                if self.holdings[i].holder == from {
                    self.holdings.swap_remove(i);
                    proof {
                        lemma_swap_remove_holding(old(self).holdings_seq(), i as int);
                    }
                    Ok(())
                } else {
                    Err(RegistryError::NotHolder)
                }
            }
            None => Err(RegistryError::NotHolder),
        }
    }
}

/// Replacing the holder inside the entry at index `i` keeps the entries
/// well-formed, records the new holder for that token, and leaves every
/// other token's entry as it was.
proof fn lemma_update_holding(s: Seq<TokenHolding>, i: int, holder: Address)
    requires
        holdings_wf(s),
        0 <= i < s.len(),
    ensures
        ({
            let s2 = s.update(i, TokenHolding { token_id: s[i].token_id, holder });
            &&& holdings_wf(s2)
            &&& holdings_has(s2, s[i].token_id)
            &&& holdings_holder(s2, s[i].token_id) == holder
            &&& forall|t: u32| t != s[i].token_id ==> holdings_has(s2, t) == holdings_has(s, t)
            &&& forall|t: u32|
                t != s[i].token_id && holdings_has(s, t) ==> holdings_holder(s2, t)
                    == holdings_holder(s, t)
        }),
{
    let s2 = s.update(i, TokenHolding { token_id: s[i].token_id, holder });
    assert(forall|k: int| 0 <= k < s2.len() ==> s2[k].token_id == s[k].token_id);
    assert forall|a: int, b: int| 0 <= a < b < s2.len() implies s2[a].token_id != s2[b].token_id by {
        assert(s[a].token_id != s[b].token_id);
    }
    lemma_holding_at(s2, i);
    assert forall|t: u32| t != s[i].token_id implies holdings_has(s2, t) == holdings_has(s, t) by {
        if holdings_has(s, t) {
            let k = choose|k: int| 0 <= k < s.len() && s[k].token_id == t;
            assert(0 <= k < s2.len() && s2[k].token_id == t);
        }
        if holdings_has(s2, t) {
            let k = choose|k: int| 0 <= k < s2.len() && s2[k].token_id == t;
            assert(0 <= k < s.len() && s[k].token_id == t);
        }
    }
    assert forall|t: u32|
        t != s[i].token_id && holdings_has(s, t) implies holdings_holder(s2, t)
        == holdings_holder(s, t) by {
        let k = choose|k: int| 0 <= k < s.len() && s[k].token_id == t;
        lemma_holding_at(s, k);
        assert(s2[k] == s[k]);
        lemma_holding_at(s2, k);
    }
}

/// Appending an entry for a token the entries do not yet name keeps them
/// well-formed, records the entry, and leaves every other token's entry as
/// it was.
proof fn lemma_push_holding(s: Seq<TokenHolding>, entry: TokenHolding)
    requires
        holdings_wf(s),
        !holdings_has(s, entry.token_id),
    ensures
        ({
            let s2 = s.push(entry);
            &&& holdings_wf(s2)
            &&& holdings_has(s2, entry.token_id)
            &&& holdings_holder(s2, entry.token_id) == entry.holder
            &&& forall|t: u32|
                t != entry.token_id ==> holdings_has(s2, t) == holdings_has(s, t)
            &&& forall|t: u32|
                t != entry.token_id && holdings_has(s, t) ==> holdings_holder(s2, t)
                    == holdings_holder(s, t)
        }),
{
    let s2 = s.push(entry);
    assert(forall|k: int| 0 <= k < s.len() ==> s2[k] == s[k]);
    assert(s2[s.len() as int] == entry);
    assert forall|a: int, b: int| 0 <= a < b < s2.len() implies s2[a].token_id != s2[b].token_id by {
        if b < s.len() {
            assert(s[a].token_id != s[b].token_id);
        } else {
            // the new last entry: its token was absent from `s`
            if s2[a].token_id == entry.token_id {
                assert(0 <= a < s.len() && s[a].token_id == entry.token_id);
                assert(holdings_has(s, entry.token_id));
            }
        }
    }
    lemma_holding_at(s2, s.len() as int);
    assert forall|t: u32|
        t != entry.token_id implies holdings_has(s2, t) == holdings_has(s, t) by {
        if holdings_has(s, t) {
            let k = choose|k: int| 0 <= k < s.len() && s[k].token_id == t;
            assert(0 <= k < s2.len() && s2[k].token_id == t);
        }
        if holdings_has(s2, t) {
            let k = choose|k: int| 0 <= k < s2.len() && s2[k].token_id == t;
            assert(k < s.len());
            assert(0 <= k < s.len() && s[k].token_id == t);
        }
    }
    assert forall|t: u32|
        t != entry.token_id && holdings_has(s, t) implies holdings_holder(s2, t)
        == holdings_holder(s, t) by {
        let k = choose|k: int| 0 <= k < s.len() && s[k].token_id == t;
        lemma_holding_at(s, k);
        assert(s2[k] == s[k]);
        lemma_holding_at(s2, k);
    }
}

/// Removing the entry at index `i` by swapping in the last entry keeps the
/// entries well-formed, makes that entry's token absent, and leaves every
/// other token's entry as it was.
proof fn lemma_swap_remove_holding(s: Seq<TokenHolding>, i: int)
    requires
        holdings_wf(s),
        0 <= i < s.len(),
    ensures
        ({
            let s2 = s.update(i, s.last()).drop_last();
            &&& holdings_wf(s2)
            &&& !holdings_has(s2, s[i].token_id)
            &&& forall|t: u32| t != s[i].token_id ==> holdings_has(s2, t) == holdings_has(s, t)
            &&& forall|t: u32|
                t != s[i].token_id && holdings_has(s, t) ==> holdings_holder(s2, t)
                    == holdings_holder(s, t)
        }),
{
    let s2 = s.update(i, s.last()).drop_last();
    let last = s.len() - 1;
    assert(s2.len() == last);
    assert(forall|k: int|
        0 <= k < s2.len() ==> s2[k] == (if k == i {
            s[last]
        } else {
            s[k]
        }));
    assert forall|a: int, b: int| 0 <= a < b < s2.len() implies s2[a].token_id != s2[b].token_id by {
        if a == i {
            assert(s2[a] == s[last] && s2[b] == s[b]);
            assert(s[b].token_id != s[last].token_id);
        } else if b == i {
            assert(s2[a] == s[a] && s2[b] == s[last]);
            assert(s[a].token_id != s[last].token_id);
        } else {
            assert(s[a].token_id != s[b].token_id);
        }
    }
    assert forall|k: int| 0 <= k < s2.len() implies s2[k].token_id != s[i].token_id by {
        if k == i {
            // the swapped-in entry came from the old last position, which is
            // a different position than `i` here
            assert(i < last);
            assert(s2[k] == s[last]);
            assert(s[i].token_id != s[last].token_id);
        } else {
            assert(s2[k] == s[k]);
            if k < i {
                assert(s[k].token_id != s[i].token_id);
            } else {
                assert(s[i].token_id != s[k].token_id);
            }
        }
    }
    assert(!holdings_has(s2, s[i].token_id));
    assert forall|t: u32|
        t != s[i].token_id implies holdings_has(s2, t) == holdings_has(s, t) by {
        if holdings_has(s, t) {
            let k = choose|k: int| 0 <= k < s.len() && s[k].token_id == t;
            assert(k != i);
            if k < last {
                assert(0 <= k < s2.len() && s2[k].token_id == t);
            } else {
                // the old last entry moved into position `i`
                assert(i < last);
                assert(0 <= i < s2.len() && s2[i].token_id == t);
            }
        }
        if holdings_has(s2, t) {
            let k = choose|k: int| 0 <= k < s2.len() && s2[k].token_id == t;
            if k == i {
                assert(0 <= last < s.len() && s[last].token_id == t);
            } else {
                assert(0 <= k < s.len() && s[k].token_id == t);
            }
        }
    }
    assert forall|t: u32|
        t != s[i].token_id && holdings_has(s, t) implies holdings_holder(s2, t)
        == holdings_holder(s, t) by {
        let k = choose|k: int| 0 <= k < s.len() && s[k].token_id == t;
        lemma_holding_at(s, k);
        assert(k != i);
        if k < last {
            assert(s2[k] == s[k]);
            lemma_holding_at(s2, k);
        } else {
            assert(i < last);
            assert(s2[i] == s[k]);
            lemma_holding_at(s2, i);
        }
    }
}

} // verus!
