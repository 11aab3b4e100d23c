//! Tests for the buffer pool's initialization-only state.

use time_lock::address::Address;
use time_lock::buffer_pool::BufferPoolContract;
use time_lock::buffer_pool::BufferPoolError;

fn admin() -> Address {
    Address { id: 1 }
}

fn governance() -> Address {
    Address { id: 2 }
}

fn registry_addr() -> Address {
    Address { id: 3 }
}

#[test]
fn initialize_records_the_configuration() {
    let mut pool = BufferPoolContract::new();
    assert_eq!(pool.get_replenishment_percentage(), None);
    assert_eq!(pool.get_total_value_locked(), None);
    let r = pool.initialize(admin(), governance(), registry_addr(), 2500);
    assert_eq!(r, Ok(()));
    assert_eq!(pool.get_replenishment_percentage(), Some(2500));
    assert_eq!(pool.get_total_value_locked(), Some(0));
}

#[test]
fn pool_initialize_twice_fails() {
    let mut pool = BufferPoolContract::new();
    pool.initialize(admin(), governance(), registry_addr(), 0).unwrap();
    let r = pool.initialize(admin(), governance(), registry_addr(), 100);
    assert_eq!(r, Err(BufferPoolError::AlreadyExists));
    assert_eq!(pool.get_replenishment_percentage(), Some(0));
}

#[test]
fn percentage_must_lie_in_basis_points() {
    let mut pool = BufferPoolContract::new();
    assert_eq!(
        pool.initialize(admin(), governance(), registry_addr(), -1),
        Err(BufferPoolError::InvalidPercentage)
    );
    assert_eq!(
        pool.initialize(admin(), governance(), registry_addr(), 10001),
        Err(BufferPoolError::InvalidPercentage)
    );
    assert_eq!(pool.get_replenishment_percentage(), None);
    // both bounds are allowed
    assert_eq!(pool.initialize(admin(), governance(), registry_addr(), 10000), Ok(()));
}
