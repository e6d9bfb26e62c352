//! A minimal on-chain ledger: per-address balances with admin-gated
//! redistribution, admin rotation, deposits and a read-only balance query,
//! together with an equal-split reward mode over a registered staker list.
//!
//! The ledger state is an ordered mapping from address to balance plus the
//! current admin identity.  Every command is validated and authorized before
//! any mutation; a rejected command leaves the stored state untouched.

pub mod balances;
pub mod contract;
pub mod errors;
pub mod msg;
pub mod order;
pub mod query;
pub mod stakers;
pub mod state;
pub mod store;
