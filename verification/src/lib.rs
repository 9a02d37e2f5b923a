//! A staking-rewards accounting engine: participants lock a balance into a pool, earn a share
//! of a reward stream that halves every year, and withdraw principal or claim rewards at any
//! time.
//!
//! [`StakingContract`] is the pool and its operations. An operation neither reads the host
//! nor talks to a token: it is handed the caller, the time and what the token said, and hands
//! back what the token has to do. [`ledger::Ledger`] and [`pool::Pool`] say in mathematical
//! terms what each operation makes of the pool; [`laws`] holds what is proved of the pool as
//! a whole, and [`solvency`] what it rests on where it comes to what the pool owes. Every
//! pool keeps the invariant [`ledger::Ledger::inv`] by its type, so that no operation asks
//! anything of its caller.

pub mod allocation;
pub mod contract;
pub mod data;
pub mod errors;
pub mod laws;
pub mod ledger;
pub mod mapping;
pub mod pool;
pub mod reputation;
pub mod rewards;
pub mod schedule;
pub mod solvency;
pub mod totals;
pub mod types;

pub use crate::contract::StakingContract;
pub use crate::data::Data;
pub use crate::errors::{PSP22Error, PSP37Error, StakingError};
pub use crate::ledger::{Deposit, Payout};
pub use crate::mapping::Mapping;
pub use crate::pool::ReputationGrant;
pub use crate::types::{AccountId, Balance, Timestamp};
