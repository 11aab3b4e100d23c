//! The buffer pool: configuration-only state for the replenishment reserve.
//!
//! The pool holds nothing but its initialization-time configuration: the
//! governing identities, the registry it will draw from, and a replenishment
//! percentage in basis points.

use vstd::prelude::*;

use crate::address::Address;

verus! {

/// Why initialization was refused.
#[derive(Clone, Copy, PartialEq, Eq, Structural, Debug)]
pub enum BufferPoolError {
    AlreadyExists,
    InvalidPercentage,
}

/// The pool's configuration. The percentage is in basis points, so it lies
/// between 0 and 10000.
#[derive(Clone, Copy, Debug)]
pub struct BufferPoolConfig {
    pub admin: Address,
    pub governance: Address,
    pub carbon_asset_contract: Address,
    pub replenishment_percentage: i64,
    pub total_value_locked: i64,
}

/// The buffer pool instance.
pub struct BufferPoolContract {
    config: Option<BufferPoolConfig>,
}

impl BufferPoolContract {
    /// The configuration, absent until `initialize` succeeds.
    pub closed spec fn spec_config(self) -> Option<BufferPoolConfig> {
        self.config
    }

    /// The pool has been configured.
    pub open spec fn is_initialized(self) -> bool {
        self.spec_config() is Some
    }

    /// A fresh, unconfigured pool.
    pub fn new() -> (r: BufferPoolContract)
        ensures
            !r.is_initialized(),
    {
        BufferPoolContract { config: None }
    }

    /// Configure the pool, once. The percentage is in basis points and must
    /// lie between 0 and 10000; nothing is locked yet.
    pub fn initialize(
        &mut self,
        admin: Address,
        governance: Address,
        carbon_asset_contract: Address,
        initial_percentage: i64,
    ) -> (r: Result<(), BufferPoolError>)
        ensures
            if old(self).is_initialized() {
                r == Err::<(), BufferPoolError>(BufferPoolError::AlreadyExists) && *final(self)
                    == *old(self)
            } else if initial_percentage < 0 || initial_percentage > 10000 {
                r == Err::<(), BufferPoolError>(BufferPoolError::InvalidPercentage) && *final(self)
                    == *old(self)
            } else {
                r is Ok && (final(self).spec_config() matches Some(cfg) && cfg.admin == admin
                    && cfg.governance == governance && cfg.carbon_asset_contract
                    == carbon_asset_contract && cfg.replenishment_percentage == initial_percentage
                    && cfg.total_value_locked == 0)
            },
    {
        if self.config.is_some() {
            return Err(BufferPoolError::AlreadyExists);
        }
        if initial_percentage < 0 || initial_percentage > 10000 {
            return Err(BufferPoolError::InvalidPercentage);
        }
        self.config = Some(
            BufferPoolConfig {
                admin,
                governance,
                carbon_asset_contract,
                replenishment_percentage: initial_percentage,
                total_value_locked: 0,
            },
        );
        Ok(())
    }

    /// The configured replenishment percentage, if any.
    pub fn get_replenishment_percentage(&self) -> (r: Option<i64>)
        ensures
            r == (match self.spec_config() {
                Some(cfg) => Some(cfg.replenishment_percentage),
                None => None::<i64>,
            }),
    {
        match &self.config {
            Some(cfg) => Some(cfg.replenishment_percentage),
            None => None,
        }
    }

    /// The total value locked in the pool, if configured.
    pub fn get_total_value_locked(&self) -> (r: Option<i64>)
        ensures
            r == (match self.spec_config() {
                Some(cfg) => Some(cfg.total_value_locked),
                None => None::<i64>,
            }),
    {
        match &self.config {
            Some(cfg) => Some(cfg.total_value_locked),
            None => None,
        }
    }
}

} // verus!
