//! Staking ledger with time-released reward streams: users stake a single
//! asset and accrue proportional shares of any number of reward assets.

pub mod accounting;
pub mod contract;
pub mod engine;
pub mod error;
pub mod msg;
pub mod state;
