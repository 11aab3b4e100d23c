//! The laws of the escrow's state machine, each proved from the operations'
//! postcondition predicates alone. A law's hypotheses name one operation's
//! recorded effect (its `..._post` predicate, exactly what the operation's
//! `ensures` states), so each law holds of every run of the corresponding
//! calls.

use vstd::prelude::*;

use crate::address::Address;
use crate::address::spec_signed;
use crate::registry::AssetRegistry;
use crate::time_lock::TimeLockContract;
use crate::time_lock::TimeLockError;
use crate::time_lock::force_release_post;
use crate::time_lock::lock_credit_post;
use crate::time_lock::release_post;
use crate::vintage::VintagePolicy;

verus! {

/// Locking an already-locked token always fails with `AlreadyLocked` and
/// leaves the existing record — and everything else — untouched. The
/// hypotheses let the caller past the authorization gate and the vintage
/// check, the two refusals that take precedence.
pub proof fn lemma_lock_already_locked(
    pre_e: TimeLockContract,
    pre_r: AssetRegistry,
    post_e: TimeLockContract,
    post_r: AssetRegistry,
    caller: Address,
    token_id: u32,
    unlock_timestamp: u64,
    now: u64,
    signers: Seq<Address>,
    policy: VintagePolicy,
    r: Result<(), TimeLockError>,
)
    requires
        lock_credit_post(
            pre_e,
            pre_r,
            post_e,
            post_r,
            caller,
            token_id,
            unlock_timestamp,
            now,
            signers,
            policy,
            r,
        ),
        pre_e.has_lock(token_id),
        (pre_e.spec_config() matches Some(cfg) && (caller == cfg.carbon_asset_contract
            || spec_signed(signers, caller)) && (cfg.validate_vintage
            ==> cfg.vintage_check_contract is Some && unlock_timestamp >= policy.spec_min_unlock(
            token_id,
        ))),
    ensures
        r == Err::<(), TimeLockError>(TimeLockError::AlreadyLocked),
        post_e == pre_e,
        post_r == pre_r,
        post_e.lock_of(token_id) == pre_e.lock_of(token_id),
{
}

/// Releasing an eligible token twice releases it exactly once: the second
/// call is a silent no-op that changes nothing and raises no error.
pub proof fn lemma_release_idempotent(
    e0: TimeLockContract,
    reg0: AssetRegistry,
    e1: TimeLockContract,
    reg1: AssetRegistry,
    e2: TimeLockContract,
    reg2: AssetRegistry,
    token_id: u32,
    now: u64,
    res1: Result<(), TimeLockError>,
    res2: Result<(), TimeLockError>,
)
    requires
        release_post(e0, reg0, e1, reg1, token_id, now, res1),
        release_post(e1, reg1, e2, reg2, token_id, now, res2),
        e0.is_initialized(),
        e0.has_lock(token_id),
        now >= e0.lock_of(token_id).unlock_timestamp,
        reg0.has_token(token_id),
        reg0.holder_of(token_id) == e0.spec_contract_address(),
    ensures
        res1 is Ok,
        !e1.has_lock(token_id),
        reg1.holder_of(token_id) == e0.lock_of(token_id).owner,
        res2 is Ok,
        e2 == e1,
        reg2 == reg1,
{
}

/// Before the unlock time, `release_if_eligible` is a guard, not an error:
/// the record and custody stay exactly as they were.
pub proof fn lemma_release_before_unlock_no_op(
    e0: TimeLockContract,
    reg0: AssetRegistry,
    e1: TimeLockContract,
    reg1: AssetRegistry,
    token_id: u32,
    now: u64,
    res: Result<(), TimeLockError>,
)
    requires
        release_post(e0, reg0, e1, reg1, token_id, now, res),
        e0.has_lock(token_id),
        now < e0.lock_of(token_id).unlock_timestamp,
    ensures
        res is Ok,
        e1 == e0,
        reg1 == reg0,
{
}

/// With the admin's authorization, `force_release` succeeds exactly when a
/// record exists — the clock plays no part — and fails with `NotLocked`
/// otherwise. The custody hypothesis is the external fact the escrow relies
/// on: while a token is locked, the escrow holds it.
pub proof fn lemma_force_release_unconditional(
    e0: TimeLockContract,
    reg0: AssetRegistry,
    e1: TimeLockContract,
    reg1: AssetRegistry,
    token_id: u32,
    signers: Seq<Address>,
    res: Result<(), TimeLockError>,
)
    requires
        force_release_post(e0, reg0, e1, reg1, token_id, signers, res),
        (e0.spec_config() matches Some(cfg) && spec_signed(signers, cfg.admin)),
        e0.has_lock(token_id) ==> reg0.has_token(token_id) && reg0.holder_of(token_id)
            == e0.spec_contract_address(),
    ensures
        (res is Ok) == e0.has_lock(token_id),
        !e0.has_lock(token_id) ==> res == Err::<(), TimeLockError>(TimeLockError::NotLocked)
            && e1 == e0 && reg1 == reg0,
        e0.has_lock(token_id) ==> !e1.has_lock(token_id) && reg1.has_token(token_id)
            && reg1.holder_of(token_id) == e0.lock_of(token_id).owner,
{
}

/// The round trip: locking a token and releasing it at or after its unlock
/// time removes the record and returns custody to whoever held the token
/// before the lock.
pub proof fn lemma_lock_release_round_trip(
    e0: TimeLockContract,
    reg0: AssetRegistry,
    e1: TimeLockContract,
    reg1: AssetRegistry,
    e2: TimeLockContract,
    reg2: AssetRegistry,
    caller: Address,
    token_id: u32,
    unlock_timestamp: u64,
    lock_now: u64,
    release_now: u64,
    signers: Seq<Address>,
    policy: VintagePolicy,
    res1: Result<(), TimeLockError>,
    res2: Result<(), TimeLockError>,
)
    requires
        lock_credit_post(
            e0,
            reg0,
            e1,
            reg1,
            caller,
            token_id,
            unlock_timestamp,
            lock_now,
            signers,
            policy,
            res1,
        ),
        res1 is Ok,
        release_post(e1, reg1, e2, reg2, token_id, release_now, res2),
        release_now >= unlock_timestamp,
    ensures
        res2 is Ok,
        !e2.has_lock(token_id),
        reg0.has_token(token_id),
        reg2.has_token(token_id),
        reg2.holder_of(token_id) == reg0.holder_of(token_id),
{
}

/// With validation enabled and a configured policy, a lock whose requested
/// unlock time lies strictly before the policy's minimum fails with
/// `VintageMismatch` and creates no record.
pub proof fn lemma_vintage_enforced(
    pre_e: TimeLockContract,
    pre_r: AssetRegistry,
    post_e: TimeLockContract,
    post_r: AssetRegistry,
    caller: Address,
    token_id: u32,
    unlock_timestamp: u64,
    now: u64,
    signers: Seq<Address>,
    policy: VintagePolicy,
    r: Result<(), TimeLockError>,
)
    requires
        lock_credit_post(
            pre_e,
            pre_r,
            post_e,
            post_r,
            caller,
            token_id,
            unlock_timestamp,
            now,
            signers,
            policy,
            r,
        ),
        (pre_e.spec_config() matches Some(cfg) && cfg.validate_vintage
            && cfg.vintage_check_contract is Some && (caller == cfg.carbon_asset_contract
            || spec_signed(signers, caller))),
        unlock_timestamp < policy.spec_min_unlock(token_id),
    ensures
        r == Err::<(), TimeLockError>(TimeLockError::VintageMismatch),
        post_e == pre_e,
        post_r == pre_r,
{
}

} // verus!
