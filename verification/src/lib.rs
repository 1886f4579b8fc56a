//! A verified economic engine for a three-slot matrix referral plan coupled
//! to a time-weighted staking ledger.
//!
//! The crate decides who owes what and by how much state changes; it never
//! moves value itself. Value transfer, account storage, clocks and signers
//! are the hosting environment's concern: every operation here is a bounded,
//! synchronous computation over plain values, it either fully commits or
//! fully fails, and each public function carries a contract that pins its
//! result down.

pub mod account;
pub mod errors;
pub mod matrix;
pub mod notices;
pub mod resolver;
pub mod staking;

pub use account::{Account, BoosterEvent, MatrixSlot};
pub use errors::{EngineError, ErrorCategory};
pub use matrix::{MatrixLedger, OpOutcome};
pub use notices::{
    BoosterNotice, CycleNotice, DividendNotice, DividendTag, FreezeNotice, MissMode,
    MissedNotice, PlacementNotice, UnfreezeNotice,
};
pub use staking::{
    get_x3_cycles, stake, unstake, update_user_rewards, AccruedReward, Boost, Pool,
    StakeKind, StakeOutcome, StakingInfo, StakingLimit, UnstakeOutcome, UserStake,
};
