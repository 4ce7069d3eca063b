//! A staking pool that streams a reward asset to stakers in proportion to
//! their share of the total stake, with lazily checkpointed per-account
//! accrual.

pub mod arith;
pub mod model;
pub mod ledger;
pub mod pool;
pub mod laws;

pub use ledger::Record;
pub use model::{AccountId, Balance, SCALE, Timestamp};
pub use pool::{Error, Staking};
