//! Tests for the retirement tracker, its batch path, and its transaction
//! hash.

use sha2::Digest;
use time_lock::address::Address;
use time_lock::registry::AssetRegistry;
use time_lock::retirement::ContractError;
use time_lock::retirement::RetirementTracker;

fn admin() -> Address {
    Address { id: 1 }
}

fn entity() -> Address {
    Address { id: 2 }
}

fn registry_addr() -> Address {
    Address { id: 3 }
}

fn other_entity() -> Address {
    Address { id: 5 }
}

/// An initialized tracker with tokens 7 and 8 held by the entity and token 9
/// held by someone else.
fn setup() -> (RetirementTracker, AssetRegistry) {
    let mut registry = AssetRegistry::new();
    registry.set_holder(7, entity());
    registry.set_holder(8, entity());
    registry.set_holder(9, other_entity());
    let mut tracker = RetirementTracker::new();
    tracker.initialize(admin(), registry_addr(), &vec![admin()]).unwrap();
    (tracker, registry)
}

/// The bytes the tracker hashes: token id, timestamp and ledger sequence,
/// each big-endian.
fn expected_hash(token_id: u32, timestamp: u64, ledger_seq: u64) -> Vec<u8> {
    let mut input: Vec<u8> = Vec::new();
    input.extend_from_slice(&token_id.to_be_bytes());
    input.extend_from_slice(&timestamp.to_be_bytes());
    input.extend_from_slice(&ledger_seq.to_be_bytes());
    sha2::Sha256::digest(&input).to_vec()
}

#[test]
fn retire_records_the_burn() {
    let (mut tracker, mut registry) = setup();
    let reason = Some(String::from("annual report"));
    let rec = tracker
        .retire(7, entity(), reason, 5000, 77, &vec![entity()], &mut registry)
        .expect("retirement must succeed");
    assert_eq!(rec.token_id, 7);
    assert_eq!(rec.retiring_entity, entity());
    assert_eq!(rec.timestamp, 5000);
    assert_eq!(rec.reason, Some(String::from("annual report")));
    // the transaction hash is the SHA-256 of the ledger-state bytes — not
    // the input handed back, and not anything else
    assert_eq!(rec.tx_hash.len(), 32);
    assert_eq!(rec.tx_hash, expected_hash(7, 5000, 77));
    // the token is burned and recorded
    assert!(tracker.is_retired(7));
    assert_eq!(registry.owner_of(7), None);
    let stored = tracker.get_retirement_record(7).expect("record must be stored");
    assert_eq!(stored.tx_hash, expected_hash(7, 5000, 77));
    assert_eq!(stored.reason, Some(String::from("annual report")));
}

#[test]
fn retire_twice_fails() {
    let (mut tracker, mut registry) = setup();
    tracker.retire(7, entity(), None, 5000, 77, &vec![entity()], &mut registry).unwrap();
    let r = tracker.retire(7, entity(), None, 6000, 78, &vec![entity()], &mut registry);
    assert_eq!(r.unwrap_err(), ContractError::TokenAlreadyRetired);
}

#[test]
fn retire_without_signature_fails() {
    let (mut tracker, mut registry) = setup();
    let r = tracker.retire(7, entity(), None, 5000, 77, &vec![other_entity()], &mut registry);
    assert_eq!(r.unwrap_err(), ContractError::NotAuthorized);
    assert!(!tracker.is_retired(7));
}

#[test]
fn retire_of_a_token_not_held_fails_burn() {
    let (mut tracker, mut registry) = setup();
    let r = tracker.retire(9, entity(), None, 5000, 77, &vec![entity()], &mut registry);
    assert_eq!(r.unwrap_err(), ContractError::BurnFailed);
    assert!(!tracker.is_retired(9));
    assert_eq!(registry.owner_of(9), Some(other_entity()));
}

#[test]
fn retire_before_initialize_fails() {
    let mut registry = AssetRegistry::new();
    registry.set_holder(7, entity());
    let mut tracker = RetirementTracker::new();
    let r = tracker.retire(7, entity(), None, 5000, 77, &vec![entity()], &mut registry);
    assert_eq!(r.unwrap_err(), ContractError::ContractNotInitialized);
}

#[test]
fn batch_retire_skips_failures_and_keeps_order() {
    let (mut tracker, mut registry) = setup();
    // 9 is not held by the entity; 7 repeated is already retired
    let records = tracker
        .batch_retire(&vec![7, 9, 8, 7], entity(), None, 5000, 77, &vec![entity()], &mut registry)
        .unwrap();
    assert_eq!(records.len(), 2);
    assert_eq!(records[0].token_id, 7);
    assert_eq!(records[1].token_id, 8);
    assert!(tracker.is_retired(7));
    assert!(tracker.is_retired(8));
    assert!(!tracker.is_retired(9));
}

#[test]
fn batch_retire_without_signature_fails() {
    let (mut tracker, mut registry) = setup();
    let r = tracker.batch_retire(&vec![7], entity(), None, 5000, 77, &vec![admin()], &mut registry);
    assert_eq!(r.unwrap_err(), ContractError::NotAuthorized);
    assert!(!tracker.is_retired(7));
}

#[test]
fn retirements_by_entity_come_in_retirement_order() {
    let (mut tracker, mut registry) = setup();
    tracker.retire(8, entity(), None, 5000, 77, &vec![entity()], &mut registry).unwrap();
    tracker.retire(7, entity(), None, 5001, 78, &vec![entity()], &mut registry).unwrap();
    registry.set_holder(9, entity());
    tracker.retire(9, entity(), None, 5002, 79, &vec![entity()], &mut registry).unwrap();
    assert_eq!(tracker.get_retirements_by_entity(entity()), vec![8, 7, 9]);
    assert_eq!(tracker.get_retirements_by_entity(other_entity()), Vec::<u32>::new());
}

#[test]
fn unknown_token_has_no_record() {
    let (tracker, _registry) = setup();
    assert!(!tracker.is_retired(42));
    assert!(tracker.get_retirement_record(42).is_none());
}

#[test]
fn update_carbon_asset_contract_is_admin_only() {
    let (mut tracker, _registry) = setup();
    let new_contract = Address { id: 30 };
    let r = tracker.update_carbon_asset_contract(entity(), new_contract, &vec![entity()]);
    assert_eq!(r.unwrap_err(), ContractError::NotAuthorized);
    assert_eq!(tracker.get_carbon_asset_contract(), Some(registry_addr()));
    tracker.update_carbon_asset_contract(admin(), new_contract, &vec![admin()]).unwrap();
    assert_eq!(tracker.get_carbon_asset_contract(), Some(new_contract));
    assert_eq!(tracker.get_admin(), Some(admin()));
}

#[test]
fn getters_are_absent_before_initialize() {
    let tracker = RetirementTracker::new();
    assert_eq!(tracker.get_admin(), None);
    assert_eq!(tracker.get_carbon_asset_contract(), None);
}

#[test]
fn tracker_initialize_requires_the_admin_signature() {
    let mut tracker = RetirementTracker::new();
    let r = tracker.initialize(admin(), registry_addr(), &vec![entity()]);
    assert_eq!(r.unwrap_err(), ContractError::NotAuthorized);
    assert_eq!(tracker.get_admin(), None);
}
