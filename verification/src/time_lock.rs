//! The time-locked custody escrow.
//!
//! An owner deposits a token into the escrow's custody and the token becomes
//! unreleasable until either its scheduled unlock time has passed or the
//! configured administrator forces an early release. Each public operation is
//! one atomic step of the state machine: it takes the environment's facts
//! (the invocation's signers, the ledger clock) and the external
//! collaborators (the asset registry, the vintage policy) as arguments, and
//! its whole effect is pinned down by a named postcondition predicate.

use vstd::prelude::*;

use crate::address::Address;
use crate::address::is_signed;
use crate::address::spec_signed;
use crate::registry::AssetRegistry;
use crate::registry::moved_to;
use crate::vintage::VintagePolicy;

verus! {

/// Everything that can go wrong in an escrow operation. Authorization
/// failures and refused custody transfers abort an operation in the ledger
/// environment; here they are explicit results, so that no verified function
/// panics.
#[derive(Clone, Copy, PartialEq, Eq, Structural, Debug)]
pub enum TimeLockError {
    AlreadyInitialized,
    NotInitialized,
    AlreadyLocked,
    NotLocked,
    VintageCheckMissing,
    VintageMismatch,
    NotAuthorized,
    TransferFailed,
}

/// The durable fact that a token is held in escrow on behalf of an owner
/// until a given time. Immutable once created; destroyed by release.
#[derive(Clone, Copy, PartialEq, Eq, Structural, Debug)]
pub struct LockRecord {
    pub token_id: u32,
    pub owner: Address,
    pub unlock_timestamp: u64,
    pub deposited_at: u64,
}

/// The escrow's configuration, set once at initialization.
#[derive(Clone, Copy, Debug)]
pub struct TimeLockConfig {
    pub admin: Address,
    pub carbon_asset_contract: Address,
    pub validate_vintage: bool,
    pub vintage_check_contract: Option<Address>,
}

/// No two records name the same token: the one-active-lock-per-token
/// invariant.
pub open spec fn locks_wf(s: Seq<LockRecord>) -> bool {
    forall|i: int, j: int| 0 <= i < j < s.len() ==> s[i].token_id != s[j].token_id
}

/// Some record names the token.
pub open spec fn locks_has(s: Seq<LockRecord>, token_id: u32) -> bool {
    exists|i: int| 0 <= i < s.len() && s[i].token_id == token_id
}

/// The index of the record naming the token: unique when the records are
/// well-formed and one exists.
pub open spec fn locks_index(s: Seq<LockRecord>, token_id: u32) -> int {
    choose|i: int| 0 <= i < s.len() && s[i].token_id == token_id
}

/// The record kept for the token.
pub open spec fn locks_record(s: Seq<LockRecord>, token_id: u32) -> LockRecord {
    s[locks_index(s, token_id)]
}

/// In well-formed records, the record at index `i` is the one and only
/// record for its token.
proof fn lemma_lock_at(s: Seq<LockRecord>, i: int)
    requires
        locks_wf(s),
        0 <= i < s.len(),
    ensures
        locks_has(s, s[i].token_id),
        locks_index(s, s[i].token_id) == i,
        locks_record(s, s[i].token_id) == s[i],
{
    assert(locks_has(s, s[i].token_id)) by {
        assert(0 <= i < s.len() && s[i].token_id == s[i].token_id);
    }
    let j = locks_index(s, s[i].token_id);
    assert(0 <= j < s.len() && s[j].token_id == s[i].token_id);
    if j < i {
        assert(s[j].token_id != s[i].token_id);
    } else if i < j {
        assert(s[i].token_id != s[j].token_id);
    }
}

/// Appending a record for a token the records do not yet name keeps them
/// well-formed, adds exactly that record, and touches no other token's
/// record.
proof fn lemma_push_lock(s: Seq<LockRecord>, record: LockRecord)
    requires
        locks_wf(s),
        !locks_has(s, record.token_id),
    ensures
        ({
            let s2 = s.push(record);
            &&& locks_wf(s2)
            &&& locks_has(s2, record.token_id)
            &&& locks_record(s2, record.token_id) == record
            &&& forall|t: u32| t != record.token_id ==> locks_has(s2, t) == locks_has(s, t)
            &&& forall|t: u32|
                t != record.token_id && locks_has(s, t) ==> locks_record(s2, t) == locks_record(
                    s,
                    t,
                )
        }),
{
    let s2 = s.push(record);
    assert(forall|k: int| 0 <= k < s.len() ==> s2[k] == s[k]);
    assert(s2[s.len() as int] == record);
    assert forall|a: int, b: int| 0 <= a < b < s2.len() implies s2[a].token_id != s2[b].token_id by {
        if b < s.len() {
            assert(s[a].token_id != s[b].token_id);
        } else {
            if s2[a].token_id == record.token_id {
                assert(0 <= a < s.len() && s[a].token_id == record.token_id);
                assert(locks_has(s, record.token_id));
            }
        }
    }
    lemma_lock_at(s2, s.len() as int);
    assert forall|t: u32| t != record.token_id implies locks_has(s2, t) == locks_has(s, t) by {
        if locks_has(s, t) {
            let k = choose|k: int| 0 <= k < s.len() && s[k].token_id == t;
            assert(0 <= k < s2.len() && s2[k].token_id == t);
        }
        if locks_has(s2, t) {
            let k = choose|k: int| 0 <= k < s2.len() && s2[k].token_id == t;
            assert(k < s.len());
            assert(0 <= k < s.len() && s[k].token_id == t);
        }
    }
    assert forall|t: u32|
        t != record.token_id && locks_has(s, t) implies locks_record(s2, t) == locks_record(
        s,
        t,
    ) by {
        let k = choose|k: int| 0 <= k < s.len() && s[k].token_id == t;
        lemma_lock_at(s, k);
        assert(s2[k] == s[k]);
        lemma_lock_at(s2, k);
    }
}

/// Removing the record at index `i` by swapping in the last record keeps the
/// records well-formed, makes that record's token absent, and touches no
/// other token's record.
proof fn lemma_swap_remove_lock(s: Seq<LockRecord>, i: int)
    requires
        locks_wf(s),
        0 <= i < s.len(),
    ensures
        ({
            let s2 = s.update(i, s.last()).drop_last();
            &&& locks_wf(s2)
            &&& !locks_has(s2, s[i].token_id)
            &&& forall|t: u32| t != s[i].token_id ==> locks_has(s2, t) == locks_has(s, t)
            &&& forall|t: u32|
                t != s[i].token_id && locks_has(s, t) ==> locks_record(s2, t) == locks_record(
                    s,
                    t,
                )
        }),
{
    let s2 = s.update(i, s.last()).drop_last();
    let last = s.len() - 1;
    assert(s2.len() == last);
    assert(forall|k: int|
        0 <= k < s2.len() ==> s2[k] == (if k == i {
            s[last]
        } else {
            s[k]
        }));
    assert forall|a: int, b: int| 0 <= a < b < s2.len() implies s2[a].token_id != s2[b].token_id by {
        if a == i {
            assert(s2[a] == s[last] && s2[b] == s[b]);
            assert(s[b].token_id != s[last].token_id);
        } else if b == i {
            assert(s2[a] == s[a] && s2[b] == s[last]);
            assert(s[a].token_id != s[last].token_id);
        } else {
            assert(s[a].token_id != s[b].token_id);
        }
    }
    assert forall|k: int| 0 <= k < s2.len() implies s2[k].token_id != s[i].token_id by {
        if k == i {
            assert(i < last);
            assert(s2[k] == s[last]);
            assert(s[i].token_id != s[last].token_id);
        } else {
            assert(s2[k] == s[k]);
            if k < i {
                assert(s[k].token_id != s[i].token_id);
            } else {
                assert(s[i].token_id != s[k].token_id);
            }
        }
    }
    assert(!locks_has(s2, s[i].token_id));
    assert forall|t: u32| t != s[i].token_id implies locks_has(s2, t) == locks_has(s, t) by {
        if locks_has(s, t) {
            let k = choose|k: int| 0 <= k < s.len() && s[k].token_id == t;
            assert(k != i);
            if k < last {
                assert(0 <= k < s2.len() && s2[k].token_id == t);
            } else {
                assert(i < last);
                assert(0 <= i < s2.len() && s2[i].token_id == t);
            }
        }
        if locks_has(s2, t) {
            let k = choose|k: int| 0 <= k < s2.len() && s2[k].token_id == t;
            if k == i {
                assert(0 <= last < s.len() && s[last].token_id == t);
            } else {
                assert(0 <= k < s.len() && s[k].token_id == t);
            }
        }
    }
    assert forall|t: u32|
        t != s[i].token_id && locks_has(s, t) implies locks_record(s2, t) == locks_record(
        s,
        t,
    ) by {
        let k = choose|k: int| 0 <= k < s.len() && s[k].token_id == t;
        lemma_lock_at(s, k);
        assert(k != i);
        if k < last {
            assert(s2[k] == s[k]);
            lemma_lock_at(s2, k);
        } else {
            assert(i < last);
            assert(s2[i] == s[k]);
            lemma_lock_at(s2, i);
        }
    }
}

/// The escrow instance: its own custody address, its configuration, and the
/// active lock records.
pub struct TimeLockContract {
    contract_address: Address,
    config: Option<TimeLockConfig>,
    locks: Vec<LockRecord>,
}

/// After the step, exactly `record` was added: its token is now locked with
/// that record, and no other token's record changed.
pub open spec fn lock_added(pre: TimeLockContract, post: TimeLockContract, record: LockRecord) -> bool {
    &&& post.wf()
    &&& post.has_lock(record.token_id)
    &&& post.lock_of(record.token_id) == record
    &&& forall|t: u32| t != record.token_id ==> post.has_lock(t) == pre.has_lock(t)
    &&& forall|t: u32| t != record.token_id && pre.has_lock(t) ==> post.lock_of(t) == pre.lock_of(t)
}

/// After the step, the token's record is gone and no other token's record
/// changed.
pub open spec fn lock_removed(pre: TimeLockContract, post: TimeLockContract, token_id: u32) -> bool {
    &&& post.wf()
    &&& !post.has_lock(token_id)
    &&& forall|t: u32| t != token_id ==> post.has_lock(t) == pre.has_lock(t)
    &&& forall|t: u32| t != token_id && pre.has_lock(t) ==> post.lock_of(t) == pre.lock_of(t)
}

/// The whole effect of `initialize`: configuring twice is refused, the admin
/// must have authorized the invocation, and on success the configuration is
/// recorded with no lock active.
pub open spec fn initialize_post(
    pre: TimeLockContract,
    post: TimeLockContract,
    admin: Address,
    carbon_asset_contract: Address,
    validate_vintage: bool,
    vintage_check_contract: Option<Address>,
    signers: Seq<Address>,
    r: Result<(), TimeLockError>,
) -> bool {
    &&& post.spec_contract_address() == pre.spec_contract_address()
    &&& if pre.is_initialized() {
        r == Err::<(), TimeLockError>(TimeLockError::AlreadyInitialized) && post == pre
    } else if !spec_signed(signers, admin) {
        r == Err::<(), TimeLockError>(TimeLockError::NotAuthorized) && post == pre
    } else {
        &&& r is Ok
        &&& (post.spec_config() matches Some(cfg) && cfg.admin == admin
            && cfg.carbon_asset_contract == carbon_asset_contract && cfg.validate_vintage
            == validate_vintage && cfg.vintage_check_contract == vintage_check_contract)
        &&& forall|t: u32| !post.has_lock(t)
    }
}

/// The whole effect of `lock_credit`. The caller is either the asset
/// registry itself — the trusted relay, locking on behalf of the token's
/// recorded owner — or an owner who must have authorized the invocation.
/// Every refusal leaves both the escrow and the registry exactly as they
/// were; success deposits the token with the escrow and creates the record.
pub open spec fn lock_credit_post(
    pre_e: TimeLockContract,
    pre_r: AssetRegistry,
    post_e: TimeLockContract,
    post_r: AssetRegistry,
    caller: Address,
    token_id: u32,
    unlock_timestamp: u64,
    now: u64,
    signers: Seq<Address>,
    policy: VintagePolicy,
    r: Result<(), TimeLockError>,
) -> bool {
    &&& post_e.spec_contract_address() == pre_e.spec_contract_address()
    &&& post_e.spec_config() == pre_e.spec_config()
    &&& match pre_e.spec_config() {
        None => r == Err::<(), TimeLockError>(TimeLockError::NotInitialized) && post_e == pre_e
            && post_r == pre_r,
        Some(cfg) => {
            let relay = caller == cfg.carbon_asset_contract;
            let owner = if relay {
                pre_r.holder_of(token_id)
            } else {
                caller
            };
            if !relay && !spec_signed(signers, caller) {
                r == Err::<(), TimeLockError>(TimeLockError::NotAuthorized) && post_e == pre_e
                    && post_r == pre_r
            } else if cfg.validate_vintage && cfg.vintage_check_contract is None {
                r == Err::<(), TimeLockError>(TimeLockError::VintageCheckMissing) && post_e
                    == pre_e && post_r == pre_r
            } else if cfg.validate_vintage && unlock_timestamp < policy.spec_min_unlock(token_id) {
                r == Err::<(), TimeLockError>(TimeLockError::VintageMismatch) && post_e == pre_e
                    && post_r == pre_r
            } else if pre_e.has_lock(token_id) {
                r == Err::<(), TimeLockError>(TimeLockError::AlreadyLocked) && post_e == pre_e
                    && post_r == pre_r
            } else if !pre_r.has_token(token_id) || pre_r.holder_of(token_id) != owner {
                r == Err::<(), TimeLockError>(TimeLockError::TransferFailed) && post_e == pre_e
                    && post_r == pre_r
            } else {
                &&& r is Ok
                &&& lock_added(
                    pre_e,
                    post_e,
                    (LockRecord { token_id, owner, unlock_timestamp, deposited_at: now }),
                )
                &&& moved_to(pre_r, post_r, token_id, pre_e.spec_contract_address())
            }
        },
    }
}

/// The whole effect of `release_if_eligible`: an absent record and a
/// not-yet-eligible record are silent no-ops, never errors; an eligible
/// record has custody returned to its recorded owner and is removed.
pub open spec fn release_post(
    pre_e: TimeLockContract,
    pre_r: AssetRegistry,
    post_e: TimeLockContract,
    post_r: AssetRegistry,
    token_id: u32,
    now: u64,
    r: Result<(), TimeLockError>,
) -> bool {
    &&& post_e.spec_contract_address() == pre_e.spec_contract_address()
    &&& post_e.spec_config() == pre_e.spec_config()
    &&& if !pre_e.has_lock(token_id) {
        r is Ok && post_e == pre_e && post_r == pre_r
    } else if now < pre_e.lock_of(token_id).unlock_timestamp {
        r is Ok && post_e == pre_e && post_r == pre_r
    } else if pre_e.spec_config() is None {
        r == Err::<(), TimeLockError>(TimeLockError::NotInitialized) && post_e == pre_e && post_r
            == pre_r
    } else if !pre_r.has_token(token_id) || pre_r.holder_of(token_id)
        != pre_e.spec_contract_address() {
        r == Err::<(), TimeLockError>(TimeLockError::TransferFailed) && post_e == pre_e && post_r
            == pre_r
    } else {
        &&& r is Ok
        &&& lock_removed(pre_e, post_e, token_id)
        &&& moved_to(pre_r, post_r, token_id, pre_e.lock_of(token_id).owner)
    }
}

/// The whole effect of `force_release`: only the configured admin's
/// authorization opens this path, a missing record is a hard error, and the
/// unlock time is ignored entirely.
pub open spec fn force_release_post(
    pre_e: TimeLockContract,
    pre_r: AssetRegistry,
    post_e: TimeLockContract,
    post_r: AssetRegistry,
    token_id: u32,
    signers: Seq<Address>,
    r: Result<(), TimeLockError>,
) -> bool {
    &&& post_e.spec_contract_address() == pre_e.spec_contract_address()
    &&& post_e.spec_config() == pre_e.spec_config()
    &&& match pre_e.spec_config() {
        None => r == Err::<(), TimeLockError>(TimeLockError::NotInitialized) && post_e == pre_e
            && post_r == pre_r,
        Some(cfg) => {
            if !spec_signed(signers, cfg.admin) {
                r == Err::<(), TimeLockError>(TimeLockError::NotAuthorized) && post_e == pre_e
                    && post_r == pre_r
            } else if !pre_e.has_lock(token_id) {
                r == Err::<(), TimeLockError>(TimeLockError::NotLocked) && post_e == pre_e
                    && post_r == pre_r
            } else if !pre_r.has_token(token_id) || pre_r.holder_of(token_id)
                != pre_e.spec_contract_address() {
                r == Err::<(), TimeLockError>(TimeLockError::TransferFailed) && post_e == pre_e
                    && post_r == pre_r
            } else {
                &&& r is Ok
                &&& lock_removed(pre_e, post_e, token_id)
                &&& moved_to(pre_r, post_r, token_id, pre_e.lock_of(token_id).owner)
            }
        },
    }
}

/// The whole effect of `batch_release`: the items are released one after the
/// other, each with the full `release_if_eligible` semantics; the first
/// error stops the batch. The environment's transaction boundary, not the
/// scheduler, decides whether such an abort also rolls back the earlier
/// items.
pub open spec fn batch_release_post(
    pre_e: TimeLockContract,
    pre_r: AssetRegistry,
    post_e: TimeLockContract,
    post_r: AssetRegistry,
    tokens: Seq<u32>,
    now: u64,
    r: Result<(), TimeLockError>,
) -> bool
    decreases tokens.len(),
{
    if tokens.len() == 0 {
        post_e == pre_e && post_r == pre_r && r is Ok
    } else {
        exists|mid_e: TimeLockContract, mid_r: AssetRegistry, r0: Result<(), TimeLockError>|
            #![auto]
            release_post(pre_e, pre_r, mid_e, mid_r, tokens[0], now, r0) && if r0 is Ok {
                batch_release_post(mid_e, mid_r, post_e, post_r, tokens.drop_first(), now, r)
            } else {
                r == r0 && post_e == mid_e && post_r == mid_r
            }
    }
}

impl TimeLockContract {
    /// The escrow's own custody address on the ledger.
    pub closed spec fn spec_contract_address(self) -> Address {
        self.contract_address
    }

    /// The configuration, absent until `initialize` succeeds.
    pub closed spec fn spec_config(self) -> Option<TimeLockConfig> {
        self.config
    }

    /// The active lock records.
    pub closed spec fn locks_seq(self) -> Seq<LockRecord> {
        self.locks@
    }

    /// The escrow has been configured.
    pub open spec fn is_initialized(self) -> bool {
        self.spec_config() is Some
    }

    /// At most one lock record per token.
    pub open spec fn wf(self) -> bool {
        locks_wf(self.locks_seq())
    }

    /// A lock record exists for the token.
    pub open spec fn has_lock(self, token_id: u32) -> bool {
        locks_has(self.locks_seq(), token_id)
    }

    /// The lock record kept for the token (meaningful only when `has_lock`
    /// holds).
    pub open spec fn lock_of(self, token_id: u32) -> LockRecord {
        locks_record(self.locks_seq(), token_id)
    }

    /// A fresh, unconfigured escrow instance at the given custody address.
    pub fn new(contract_address: Address) -> (r: TimeLockContract)
        ensures
            r.wf(),
            !r.is_initialized(),
            r.spec_contract_address() == contract_address,
            forall|t: u32| !r.has_lock(t),
    {
        TimeLockContract { contract_address, config: None, locks: Vec::new() }
    }

    /// The index of the token's record, if one exists.
    fn find_lock(&self, token_id: u32) -> (r: Option<usize>)
        ensures
            match r {
                Some(i) => i < self.locks_seq().len() && self.locks_seq()[i as int].token_id
                    == token_id,
                None => !self.has_lock(token_id),
            },
    {
        let mut i: usize = 0;
        while i < self.locks.len()
            invariant
                0 <= i <= self.locks_seq().len(),
                forall|j: int| 0 <= j < i ==> self.locks_seq()[j].token_id != token_id,
            decreases self.locks_seq().len() - i,
        {
            if self.locks[i].token_id == token_id {
                return Some(i);
            }
            i += 1;
        }
        None
    }

    /// Configure the escrow, once. The admin must have authorized the
    /// invocation.
    pub fn initialize(
        &mut self,
        admin: Address,
        carbon_asset_contract: Address,
        validate_vintage: bool,
        vintage_check_contract: Option<Address>,
        signers: &Vec<Address>,
    ) -> (r: Result<(), TimeLockError>)
        requires
            old(self).wf(),
        ensures
            final(self).wf(),
            initialize_post(
                *old(self),
                *final(self),
                admin,
                carbon_asset_contract,
                validate_vintage,
                vintage_check_contract,
                signers@,
                r,
            ),
    {
        if self.config.is_some() {
            return Err(TimeLockError::AlreadyInitialized);
        }
        if !is_signed(signers, admin) {
            return Err(TimeLockError::NotAuthorized);
        }
        self.config = Some(
            TimeLockConfig { admin, carbon_asset_contract, validate_vintage, vintage_check_contract },
        );
        self.locks = Vec::new();
        Ok(())
    }

    /// Lock a token until `unlock_timestamp`: authorize the caller, consult
    /// the vintage policy when validation is enabled, refuse a second lock
    /// for the token, and take custody of it.
    pub fn lock_credit(
        &mut self,
        caller: Address,
        token_id: u32,
        unlock_timestamp: u64,
        now: u64,
        signers: &Vec<Address>,
        registry: &mut AssetRegistry,
        policy: &VintagePolicy,
    ) -> (r: Result<(), TimeLockError>)
        requires
            old(self).wf(),
            old(registry).wf(),
        ensures
            final(self).wf(),
            final(registry).wf(),
            lock_credit_post(
                *old(self),
                *old(registry),
                *final(self),
                *final(registry),
                caller,
                token_id,
                unlock_timestamp,
                now,
                signers@,
                *policy,
                r,
            ),
    {
        let cfg = match self.config {
            Some(c) => c,
            None => {
                return Err(TimeLockError::NotInitialized);
            },
        };
        let relay = caller == cfg.carbon_asset_contract;
        if !relay && !is_signed(signers, caller) {
            return Err(TimeLockError::NotAuthorized);
        }
        if cfg.validate_vintage {
            if cfg.vintage_check_contract.is_none() {
                return Err(TimeLockError::VintageCheckMissing);
            }
            let min_unlock = policy.get_vintage_unlock_timestamp(token_id);
            if unlock_timestamp < min_unlock {
                return Err(TimeLockError::VintageMismatch);
            }
        }
        if self.find_lock(token_id).is_some() {
            return Err(TimeLockError::AlreadyLocked);
        }
        let owner = if relay {
            match registry.owner_of(token_id) {
                Some(a) => a,
                None => {
                    return Err(TimeLockError::TransferFailed);
                },
            }
        } else {
            caller
        };
        match registry.transfer_from(owner, self.contract_address, token_id) {
            Ok(()) => {},
            Err(_) => {
                return Err(TimeLockError::TransferFailed);
            },
        }
        let record = LockRecord { token_id, owner, unlock_timestamp, deposited_at: now };
        proof {
            lemma_push_lock(self.locks@, record);
        }
        self.locks.push(record);
        Ok(())
    }

    /// Release the token if it is locked and its unlock time has passed;
    /// otherwise do nothing. Absence and ineligibility are normal outcomes,
    /// so polling callers need not pre-filter.
    pub fn release_if_eligible(
        &mut self,
        token_id: u32,
        now: u64,
        registry: &mut AssetRegistry,
    ) -> (r: Result<(), TimeLockError>)
        requires
            old(self).wf(),
            old(registry).wf(),
        ensures
            final(self).wf(),
            final(registry).wf(),
            release_post(
                *old(self),
                *old(registry),
                *final(self),
                *final(registry),
                token_id,
                now,
                r,
            ),
    {
        let i = match self.find_lock(token_id) {
            Some(i) => i,
            None => {
                return Ok(());
            },
        };
        proof {
            lemma_lock_at(self.locks@, i as int);
        }
        let record = self.locks[i];
        if now < record.unlock_timestamp {
            return Ok(());
        }
        if self.config.is_none() {
            return Err(TimeLockError::NotInitialized);
        }
        match registry.transfer_from(self.contract_address, record.owner, token_id) {
            Ok(()) => {},
            Err(_) => {
                return Err(TimeLockError::TransferFailed);
            },
        }
        proof {
            lemma_swap_remove_lock(self.locks@, i as int);
        }
        self.locks.swap_remove(i);
        Ok(())
    }

    /// Apply `release_if_eligible` to each token in order. Each item's
    /// outcome is independent; the first error stops the remaining items.
    pub fn batch_release(
        &mut self,
        token_ids: &Vec<u32>,
        now: u64,
        registry: &mut AssetRegistry,
    ) -> (r: Result<(), TimeLockError>)
        requires
            old(self).wf(),
            old(registry).wf(),
        ensures
            final(self).wf(),
            final(registry).wf(),
            batch_release_post(
                *old(self),
                *old(registry),
                *final(self),
                *final(registry),
                token_ids@,
                now,
                r,
            ),
    {
        let mut i: usize = 0;
        while i < token_ids.len()
            invariant
                0 <= i <= token_ids@.len(),
                self.wf(),
                registry.wf(),
                batch_release_post(
                    *old(self),
                    *old(registry),
                    *self,
                    *registry,
                    token_ids@.take(i as int),
                    now,
                    Ok(()),
                ),
            decreases token_ids@.len() - i,
        {
            let ghost pre_e = *self;
            let ghost pre_r = *registry;
            let res = self.release_if_eligible(token_ids[i], now, registry);
            match res {
                Ok(()) => {
                    proof {
                        lemma_batch_release_snoc(
                            *old(self),
                            *old(registry),
                            pre_e,
                            pre_r,
                            *self,
                            *registry,
                            token_ids@.take(i as int),
                            token_ids@[i as int],
                            now,
                            Ok(()),
                        );
                        assert(token_ids@.take(i as int).push(token_ids@[i as int])
                            =~= token_ids@.take(i as int + 1));
                    }
                },
                Err(e) => {
                    proof {
                        assert(token_ids@.skip(i as int)[0] == token_ids@[i as int]);
                        lemma_batch_release_abort(
                            *old(self),
                            *old(registry),
                            pre_e,
                            pre_r,
                            *self,
                            *registry,
                            token_ids@.take(i as int),
                            token_ids@.skip(i as int),
                            now,
                            res,
                        );
                        assert(token_ids@.take(i as int) + token_ids@.skip(i as int)
                            =~= token_ids@);
                    }
                    return Err(e);
                },
            }
            i += 1;
        }
        proof {
            assert(token_ids@.take(token_ids@.len() as int) =~= token_ids@);
        }
        Ok(())
    }

    /// Release the token unconditionally: the configured admin's
    /// authorization bypasses the unlock time, but a missing record is a
    /// hard error.
    pub fn force_release(
        &mut self,
        token_id: u32,
        signers: &Vec<Address>,
        registry: &mut AssetRegistry,
    ) -> (r: Result<(), TimeLockError>)
        requires
            old(self).wf(),
            old(registry).wf(),
        ensures
            final(self).wf(),
            final(registry).wf(),
            force_release_post(
                *old(self),
                *old(registry),
                *final(self),
                *final(registry),
                token_id,
                signers@,
                r,
            ),
    {
        let cfg = match self.config {
            Some(c) => c,
            None => {
                return Err(TimeLockError::NotInitialized);
            },
        };
        if !is_signed(signers, cfg.admin) {
            return Err(TimeLockError::NotAuthorized);
        }
        let i = match self.find_lock(token_id) {
            Some(i) => i,
            None => {
                return Err(TimeLockError::NotLocked);
            },
        };
        proof {
            lemma_lock_at(self.locks@, i as int);
        }
        let record = self.locks[i];
        match registry.transfer_from(self.contract_address, record.owner, token_id) {
            Ok(()) => {},
            Err(_) => {
                return Err(TimeLockError::TransferFailed);
            },
        }
        proof {
            lemma_swap_remove_lock(self.locks@, i as int);
        }
        self.locks.swap_remove(i);
        Ok(())
    }

    /// The token's lock record, or its explicit absence — never a default.
    pub fn get_lock_status(&self, token_id: u32) -> (r: Option<LockRecord>)
        requires
            self.wf(),
        ensures
            r == (if self.has_lock(token_id) {
                Some(self.lock_of(token_id))
            } else {
                None::<LockRecord>
            }),
    {
        match self.find_lock(token_id) {
            Some(i) => {
                proof {
                    lemma_lock_at(self.locks@, i as int);
                }
                Some(self.locks[i])
            },
            None => None,
        }
    }

    /// Exactly the tokens whose record's unlock time lies strictly after
    /// `timestamp`, each once. A full scan, linear in the number of active
    /// locks.
    pub fn get_tokens_locked_until(&self, timestamp: u64) -> (r: Vec<u32>)
        requires
            self.wf(),
        ensures
            forall|t: u32|
                r@.contains(t) <==> (self.has_lock(t) && self.lock_of(t).unlock_timestamp
                    > timestamp),
            forall|a: int, b: int| 0 <= a < b < r@.len() ==> r@[a] != r@[b],
    {
        let mut result: Vec<u32> = Vec::new();
        let mut i: usize = 0;
        while i < self.locks.len()
            invariant
                0 <= i <= self.locks@.len(),
                self.wf(),
                forall|t: u32|
                    result@.contains(t) <==> (exists|k: int|
                        0 <= k < i && self.locks@[k].token_id == t
                            && self.locks@[k].unlock_timestamp > timestamp),
                forall|a: int, b: int| 0 <= a < b < result@.len() ==> result@[a] != result@[b],
            decreases self.locks@.len() - i,
        {
            if self.locks[i].unlock_timestamp > timestamp {
                let ghost prev = result@;
                result.push(self.locks[i].token_id);
                proof {
                    assert forall|t: u32|
                        result@.contains(t) <==> (exists|k: int|
                            0 <= k < i + 1 && self.locks@[k].token_id == t
                                && self.locks@[k].unlock_timestamp > timestamp) by {
                        if result@.contains(t) {
                            let j = choose|j: int| 0 <= j < result@.len() && result@[j] == t;
                            if j < prev.len() {
                                assert(prev.contains(t));
                            } else {
                                assert(self.locks@[i as int].token_id == t);
                            }
                        }
                        if exists|k: int|
                            0 <= k < i + 1 && self.locks@[k].token_id == t
                                && self.locks@[k].unlock_timestamp > timestamp {
                            let k = choose|k: int|
                                0 <= k < i + 1 && self.locks@[k].token_id == t
                                    && self.locks@[k].unlock_timestamp > timestamp;
                            if k < i {
                                assert(prev.contains(t));
                                let j = choose|j: int| 0 <= j < prev.len() && prev[j] == t;
                                assert(result@[j] == t);
                            } else {
                                assert(result@[prev.len() as int] == t);
                            }
                        }
                    }
                    assert forall|a: int, b: int|
                        0 <= a < b < result@.len() implies result@[a] != result@[b] by {
                        if b == prev.len() {
                            // the new token was not collected before: its
                            // record index is `i`, and the records are
                            // well-formed
                            if result@[a] == result@[b] {
                                assert(prev.contains(result@[b]));
                                let k = choose|k: int|
                                    0 <= k < i && self.locks@[k].token_id == result@[b]
                                        && self.locks@[k].unlock_timestamp > timestamp;
                                assert(self.locks@[k].token_id != self.locks@[i as int].token_id);
                            }
                        }
                    }
                }
            } else {
                proof {
                    assert forall|t: u32|
                        result@.contains(t) <==> (exists|k: int|
                            0 <= k < i + 1 && self.locks@[k].token_id == t
                                && self.locks@[k].unlock_timestamp > timestamp) by {
                        if exists|k: int|
                            0 <= k < i + 1 && self.locks@[k].token_id == t
                                && self.locks@[k].unlock_timestamp > timestamp {
                            let k = choose|k: int|
                                0 <= k < i + 1 && self.locks@[k].token_id == t
                                    && self.locks@[k].unlock_timestamp > timestamp;
                            assert(k < i);
                        }
                    }
                }
            }
            i += 1;
        }
        proof {
            assert forall|t: u32|
                result@.contains(t) <==> (self.has_lock(t) && self.lock_of(t).unlock_timestamp
                    > timestamp) by {
                if result@.contains(t) {
                    let k = choose|k: int|
                        0 <= k < i && self.locks@[k].token_id == t
                            && self.locks@[k].unlock_timestamp > timestamp;
                    lemma_lock_at(self.locks@, k);
                }
                if self.has_lock(t) && self.lock_of(t).unlock_timestamp > timestamp {
                    let k = locks_index(self.locks@, t);
                    assert(0 <= k < self.locks@.len() && self.locks@[k].token_id == t);
                    assert(self.locks@[k] == self.lock_of(t));
                }
            }
        }
        result
    }

    /// The configured admin identity.
    pub fn get_admin(&self) -> (r: Result<Address, TimeLockError>)
        ensures
            r == (match self.spec_config() {
                Some(cfg) => Ok::<Address, TimeLockError>(cfg.admin),
                None => Err::<Address, TimeLockError>(TimeLockError::NotInitialized),
            }),
    {
        match &self.config {
            Some(cfg) => Ok(cfg.admin),
            None => Err(TimeLockError::NotInitialized),
        }
    }

    /// The configured asset registry identity.
    pub fn get_carbon_asset_contract(&self) -> (r: Result<Address, TimeLockError>)
        ensures
            r == (match self.spec_config() {
                Some(cfg) => Ok::<Address, TimeLockError>(cfg.carbon_asset_contract),
                None => Err::<Address, TimeLockError>(TimeLockError::NotInitialized),
            }),
    {
        match &self.config {
            Some(cfg) => Ok(cfg.carbon_asset_contract),
            None => Err(TimeLockError::NotInitialized),
        }
    }
}

/// Extending an error-free batch by one more released token is again a
/// batch with that token's outcome.
pub proof fn lemma_batch_release_snoc(
    pre_e: TimeLockContract,
    pre_r: AssetRegistry,
    mid_e: TimeLockContract,
    mid_r: AssetRegistry,
    post_e: TimeLockContract,
    post_r: AssetRegistry,
    tokens: Seq<u32>,
    token: u32,
    now: u64,
    r2: Result<(), TimeLockError>,
)
    requires
        batch_release_post(pre_e, pre_r, mid_e, mid_r, tokens, now, Ok(())),
        release_post(mid_e, mid_r, post_e, post_r, token, now, r2),
    ensures
        batch_release_post(pre_e, pre_r, post_e, post_r, tokens.push(token), now, r2),
    decreases tokens.len(),
{
    let full = tokens.push(token);
    if tokens.len() == 0 {
        assert(full[0] == token);
        assert(full.drop_first() =~= Seq::<u32>::empty());
        assert(mid_e == pre_e && mid_r == pre_r);
        if r2 is Ok {
            assert(batch_release_post(post_e, post_r, post_e, post_r, full.drop_first(), now, r2));
        }
        assert(release_post(pre_e, pre_r, post_e, post_r, full[0], now, r2));
    } else {
        let (m1_e, m1_r, r0) = choose|
            m1_e: TimeLockContract,
            m1_r: AssetRegistry,
            r0: Result<(), TimeLockError>,
        |
            #![auto]
            release_post(pre_e, pre_r, m1_e, m1_r, tokens[0], now, r0) && if r0 is Ok {
                batch_release_post(m1_e, m1_r, mid_e, mid_r, tokens.drop_first(), now, Ok(()))
            } else {
                Ok::<(), TimeLockError>(()) == r0 && mid_e == m1_e && mid_r == m1_r
            };
        assert(r0 is Ok);
        lemma_batch_release_snoc(
            m1_e,
            m1_r,
            mid_e,
            mid_r,
            post_e,
            post_r,
            tokens.drop_first(),
            token,
            now,
            r2,
        );
        assert(full.drop_first() =~= tokens.drop_first().push(token));
        assert(full[0] == tokens[0]);
        assert(release_post(pre_e, pre_r, m1_e, m1_r, full[0], now, r0));
    }
}

/// Extending an error-free batch by a failing item aborts the batch with
/// that item's error; the items after it are not reached.
pub proof fn lemma_batch_release_abort(
    pre_e: TimeLockContract,
    pre_r: AssetRegistry,
    mid_e: TimeLockContract,
    mid_r: AssetRegistry,
    post_e: TimeLockContract,
    post_r: AssetRegistry,
    done: Seq<u32>,
    rest: Seq<u32>,
    now: u64,
    r2: Result<(), TimeLockError>,
)
    requires
        batch_release_post(pre_e, pre_r, mid_e, mid_r, done, now, Ok(())),
        rest.len() > 0,
        release_post(mid_e, mid_r, post_e, post_r, rest[0], now, r2),
        r2 is Err,
    ensures
        batch_release_post(pre_e, pre_r, post_e, post_r, done + rest, now, r2),
    decreases done.len(),
{
    let full = done + rest;
    if done.len() == 0 {
        assert(full[0] == rest[0]);
        assert(mid_e == pre_e && mid_r == pre_r);
        assert(release_post(pre_e, pre_r, post_e, post_r, full[0], now, r2));
    } else {
        let (m1_e, m1_r, r0) = choose|
            m1_e: TimeLockContract,
            m1_r: AssetRegistry,
            r0: Result<(), TimeLockError>,
        |
            #![auto]
            release_post(pre_e, pre_r, m1_e, m1_r, done[0], now, r0) && if r0 is Ok {
                batch_release_post(m1_e, m1_r, mid_e, mid_r, done.drop_first(), now, Ok(()))
            } else {
                Ok::<(), TimeLockError>(()) == r0 && mid_e == m1_e && mid_r == m1_r
            };
        assert(r0 is Ok);
        lemma_batch_release_abort(
            m1_e,
            m1_r,
            mid_e,
            mid_r,
            post_e,
            post_r,
            done.drop_first(),
            rest,
            now,
            r2,
        );
        assert(full.drop_first() =~= done.drop_first() + rest);
        assert(full[0] == done[0]);
        assert(release_post(pre_e, pre_r, m1_e, m1_r, full[0], now, r0));
    }
}

} // verus!
