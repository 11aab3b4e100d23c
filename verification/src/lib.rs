//! A time-locked custody escrow for unique asset tokens, together with the
//! two small companion ledgers it is deployed beside: a retirement tracker
//! that records permanent token burns, and a buffer pool that only holds
//! configuration.
//!
//! The escrow takes custody of a token until a scheduled unlock time has
//! passed or a privileged administrator forces an early release. Every rule
//! of the state machine — authorization branching, optional vintage policy
//! validation, the one-active-lock-per-token invariant, idempotent release —
//! is stated in contracts and proved. The surrounding ledger environment
//! (durable storage, signature checks, the clock, cross-contract dispatch)
//! is modelled by plain values handed in by the caller: identities are
//! numeric handles, the invocation's signers are a list, the clock is an
//! argument, and the external asset registry and vintage policy are
//! in-memory collaborators with the obligations the escrow relies on.

pub mod address;
pub mod buffer_pool;
pub mod digest;
pub mod registry;
pub mod retirement;
pub mod time_lock;
pub mod time_lock_laws;
pub mod vintage;
