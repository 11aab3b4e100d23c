//! Scenario and property tests for the time-locked custody escrow.

use time_lock::address::Address;
use time_lock::registry::AssetRegistry;
use time_lock::time_lock::TimeLockContract;
use time_lock::time_lock::TimeLockError;
use time_lock::vintage::VintagePolicy;

fn admin() -> Address {
    Address { id: 1 }
}

fn owner() -> Address {
    Address { id: 2 }
}

fn registry_addr() -> Address {
    Address { id: 3 }
}

fn escrow_addr() -> Address {
    Address { id: 100 }
}

fn stranger() -> Address {
    Address { id: 9 }
}

/// An initialized escrow (validation disabled) with token 7 held by owner().
fn setup() -> (TimeLockContract, AssetRegistry, VintagePolicy) {
    let mut registry = AssetRegistry::new();
    registry.set_holder(7, owner());
    let mut escrow = TimeLockContract::new(escrow_addr());
    let policy = VintagePolicy::new();
    let r = escrow.initialize(admin(), registry_addr(), false, None, &vec![admin()]);
    assert_eq!(r, Ok(()));
    (escrow, registry, policy)
}

#[test]
fn lock_creates_record() {
    let (mut escrow, mut registry, policy) = setup();
    let r = escrow.lock_credit(owner(), 7, 1000, 10, &vec![owner()], &mut registry, &policy);
    assert_eq!(r, Ok(()));
    let rec = escrow.get_lock_status(7).expect("record must exist");
    assert_eq!(rec.token_id, 7);
    assert_eq!(rec.owner, owner());
    assert_eq!(rec.unlock_timestamp, 1000);
    assert_eq!(rec.deposited_at, 10);
    assert_eq!(registry.owner_of(7), Some(escrow_addr()));
}

#[test]
fn release_before_unlock_is_a_no_op() {
    let (mut escrow, mut registry, policy) = setup();
    escrow.lock_credit(owner(), 7, 1000, 10, &vec![owner()], &mut registry, &policy).unwrap();
    let r = escrow.release_if_eligible(7, 500, &mut registry);
    assert_eq!(r, Ok(()));
    assert!(escrow.get_lock_status(7).is_some());
    assert_eq!(registry.owner_of(7), Some(escrow_addr()));
}

#[test]
fn release_at_unlock_returns_custody() {
    let (mut escrow, mut registry, policy) = setup();
    escrow.lock_credit(owner(), 7, 1000, 10, &vec![owner()], &mut registry, &policy).unwrap();
    let r = escrow.release_if_eligible(7, 1000, &mut registry);
    assert_eq!(r, Ok(()));
    assert!(escrow.get_lock_status(7).is_none());
    assert_eq!(registry.owner_of(7), Some(owner()));
}

#[test]
fn release_is_idempotent() {
    let (mut escrow, mut registry, policy) = setup();
    escrow.lock_credit(owner(), 7, 1000, 10, &vec![owner()], &mut registry, &policy).unwrap();
    assert_eq!(escrow.release_if_eligible(7, 1500, &mut registry), Ok(()));
    assert!(escrow.get_lock_status(7).is_none());
    // the second call is a silent no-op, never an error
    assert_eq!(escrow.release_if_eligible(7, 1500, &mut registry), Ok(()));
    assert!(escrow.get_lock_status(7).is_none());
    assert_eq!(registry.owner_of(7), Some(owner()));
}

#[test]
fn release_of_unknown_token_is_a_no_op() {
    let (mut escrow, mut registry, _policy) = setup();
    assert_eq!(escrow.release_if_eligible(42, 5000, &mut registry), Ok(()));
}

#[test]
fn second_lock_fails_already_locked() {
    let (mut escrow, mut registry, policy) = setup();
    escrow.lock_credit(owner(), 7, 1000, 10, &vec![owner()], &mut registry, &policy).unwrap();
    let r = escrow.lock_credit(owner(), 7, 2000, 20, &vec![owner()], &mut registry, &policy);
    assert_eq!(r, Err(TimeLockError::AlreadyLocked));
    // the existing record is untouched
    let rec = escrow.get_lock_status(7).unwrap();
    assert_eq!(rec.unlock_timestamp, 1000);
    assert_eq!(rec.deposited_at, 10);
}

#[test]
fn vintage_mismatch_creates_no_record() {
    let mut registry = AssetRegistry::new();
    registry.set_holder(9, owner());
    let mut escrow = TimeLockContract::new(escrow_addr());
    let mut policy = VintagePolicy::new();
    policy.set_minimum(9, 2000);
    let vintage_addr = Address { id: 4 };
    escrow.initialize(admin(), registry_addr(), true, Some(vintage_addr), &vec![admin()]).unwrap();
    let r = escrow.lock_credit(owner(), 9, 1500, 10, &vec![owner()], &mut registry, &policy);
    assert_eq!(r, Err(TimeLockError::VintageMismatch));
    assert!(escrow.get_lock_status(9).is_none());
    assert_eq!(registry.owner_of(9), Some(owner()));
}

#[test]
fn vintage_minimum_met_locks() {
    let mut registry = AssetRegistry::new();
    registry.set_holder(9, owner());
    let mut escrow = TimeLockContract::new(escrow_addr());
    let mut policy = VintagePolicy::new();
    policy.set_minimum(9, 2000);
    escrow.initialize(admin(), registry_addr(), true, Some(Address { id: 4 }), &vec![admin()]).unwrap();
    let r = escrow.lock_credit(owner(), 9, 2000, 10, &vec![owner()], &mut registry, &policy);
    assert_eq!(r, Ok(()));
}

#[test]
fn vintage_check_missing_when_no_policy_configured() {
    let mut registry = AssetRegistry::new();
    registry.set_holder(7, owner());
    let mut escrow = TimeLockContract::new(escrow_addr());
    let policy = VintagePolicy::new();
    escrow.initialize(admin(), registry_addr(), true, None, &vec![admin()]).unwrap();
    let r = escrow.lock_credit(owner(), 7, 1000, 10, &vec![owner()], &mut registry, &policy);
    assert_eq!(r, Err(TimeLockError::VintageCheckMissing));
}

#[test]
fn force_release_by_non_admin_fails() {
    let (mut escrow, mut registry, policy) = setup();
    escrow.lock_credit(owner(), 7, 1000, 10, &vec![owner()], &mut registry, &policy).unwrap();
    let r = escrow.force_release(7, &vec![stranger()], &mut registry);
    assert_eq!(r, Err(TimeLockError::NotAuthorized));
    assert!(escrow.get_lock_status(7).is_some());
}

#[test]
fn force_release_by_admin_ignores_the_clock() {
    let (mut escrow, mut registry, policy) = setup();
    escrow.lock_credit(owner(), 7, 1000, 10, &vec![owner()], &mut registry, &policy).unwrap();
    // well before the unlock time
    let r = escrow.force_release(7, &vec![admin()], &mut registry);
    assert_eq!(r, Ok(()));
    assert!(escrow.get_lock_status(7).is_none());
    assert_eq!(registry.owner_of(7), Some(owner()));
}

#[test]
fn force_release_of_unknown_token_fails_not_locked() {
    let (mut escrow, mut registry, _policy) = setup();
    let r = escrow.force_release(42, &vec![admin()], &mut registry);
    assert_eq!(r, Err(TimeLockError::NotLocked));
}

#[test]
fn lock_requires_the_caller_signature() {
    let (mut escrow, mut registry, policy) = setup();
    let r = escrow.lock_credit(owner(), 7, 1000, 10, &vec![stranger()], &mut registry, &policy);
    assert_eq!(r, Err(TimeLockError::NotAuthorized));
}

#[test]
fn lock_by_non_holder_fails_transfer() {
    let (mut escrow, mut registry, policy) = setup();
    let r = escrow.lock_credit(stranger(), 7, 1000, 10, &vec![stranger()], &mut registry, &policy);
    assert_eq!(r, Err(TimeLockError::TransferFailed));
    assert_eq!(registry.owner_of(7), Some(owner()));
}

#[test]
fn relay_lock_needs_no_signature_and_finds_the_owner() {
    let (mut escrow, mut registry, policy) = setup();
    // the asset registry itself initiates the lock; no signers at all
    let r = escrow.lock_credit(registry_addr(), 7, 1000, 10, &Vec::new(), &mut registry, &policy);
    assert_eq!(r, Ok(()));
    let rec = escrow.get_lock_status(7).unwrap();
    assert_eq!(rec.owner, owner());
    assert_eq!(registry.owner_of(7), Some(escrow_addr()));
}

#[test]
fn operations_before_initialize_fail() {
    let mut registry = AssetRegistry::new();
    registry.set_holder(7, owner());
    let mut escrow = TimeLockContract::new(escrow_addr());
    let policy = VintagePolicy::new();
    let r = escrow.lock_credit(owner(), 7, 1000, 10, &vec![owner()], &mut registry, &policy);
    assert_eq!(r, Err(TimeLockError::NotInitialized));
    assert_eq!(escrow.get_admin(), Err(TimeLockError::NotInitialized));
    assert_eq!(escrow.get_carbon_asset_contract(), Err(TimeLockError::NotInitialized));
}

#[test]
fn initialize_twice_fails() {
    let (mut escrow, _registry, _policy) = setup();
    let r = escrow.initialize(admin(), registry_addr(), false, None, &vec![admin()]);
    assert_eq!(r, Err(TimeLockError::AlreadyInitialized));
}

#[test]
fn initialize_requires_the_admin_signature() {
    let mut escrow = TimeLockContract::new(escrow_addr());
    let r = escrow.initialize(admin(), registry_addr(), false, None, &vec![stranger()]);
    assert_eq!(r, Err(TimeLockError::NotAuthorized));
}

#[test]
fn getters_report_the_configuration() {
    let (escrow, _registry, _policy) = setup();
    assert_eq!(escrow.get_admin(), Ok(admin()));
    assert_eq!(escrow.get_carbon_asset_contract(), Ok(registry_addr()));
}

#[test]
fn tokens_locked_until_returns_exactly_the_later_unlocks() {
    let (mut escrow, mut registry, policy) = setup();
    registry.set_holder(8, owner());
    registry.set_holder(9, owner());
    escrow.lock_credit(owner(), 7, 100, 1, &vec![owner()], &mut registry, &policy).unwrap();
    escrow.lock_credit(owner(), 8, 200, 1, &vec![owner()], &mut registry, &policy).unwrap();
    escrow.lock_credit(owner(), 9, 300, 1, &vec![owner()], &mut registry, &policy).unwrap();
    let mut later = escrow.get_tokens_locked_until(150);
    later.sort();
    assert_eq!(later, vec![8, 9]);
    // strictness: an unlock equal to the bound is not reported
    let mut at_200 = escrow.get_tokens_locked_until(200);
    at_200.sort();
    assert_eq!(at_200, vec![9]);
    assert_eq!(escrow.get_tokens_locked_until(300), Vec::<u32>::new());
}

#[test]
fn batch_release_releases_only_the_eligible() {
    let (mut escrow, mut registry, policy) = setup();
    registry.set_holder(8, owner());
    registry.set_holder(9, owner());
    escrow.lock_credit(owner(), 7, 100, 1, &vec![owner()], &mut registry, &policy).unwrap();
    escrow.lock_credit(owner(), 8, 200, 1, &vec![owner()], &mut registry, &policy).unwrap();
    escrow.lock_credit(owner(), 9, 300, 1, &vec![owner()], &mut registry, &policy).unwrap();
    // token 42 is unknown: a silent no-op inside the batch
    let r = escrow.batch_release(&vec![7, 8, 9, 42], 250, &mut registry);
    assert_eq!(r, Ok(()));
    assert!(escrow.get_lock_status(7).is_none());
    assert!(escrow.get_lock_status(8).is_none());
    assert!(escrow.get_lock_status(9).is_some());
    assert_eq!(registry.owner_of(7), Some(owner()));
    assert_eq!(registry.owner_of(8), Some(owner()));
    assert_eq!(registry.owner_of(9), Some(escrow_addr()));
}

#[test]
fn round_trip_restores_the_original_holder() {
    let (mut escrow, mut registry, policy) = setup();
    escrow.lock_credit(owner(), 7, 1000, 10, &vec![owner()], &mut registry, &policy).unwrap();
    escrow.release_if_eligible(7, 2000, &mut registry).unwrap();
    assert_eq!(registry.owner_of(7), Some(owner()));
    assert!(escrow.get_lock_status(7).is_none());
    // the token can be locked again after returning to `Unlocked`
    let r = escrow.lock_credit(owner(), 7, 3000, 2000, &vec![owner()], &mut registry, &policy);
    assert_eq!(r, Ok(()));
}
