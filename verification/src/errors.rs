use vstd::prelude::*;

verus! {

/// Every way an engine operation can fail. Each operation's contract says
/// exactly which inputs produce which variant; an error always means that
/// no state changed.
#[derive(Clone, Copy, Debug, PartialEq, Eq, Structural)]
pub enum EngineError {
    /// Registrations and purchases are disabled while the ledger is paused.
    ContractPaused,
    /// The referrer identity is empty or equals the new user's identity.
    InvalidReferrer,
    /// The referrer identity does not resolve to a registered account.
    InvalidReferrerAccount,
    /// The new user's identity is empty.
    InvalidUser,
    /// The wallet is already registered.
    UserAlreadyExists,
    /// The wallet is not registered.
    UserNotExists,
    /// The level is not below the configured maximum level.
    LevelOutOfRange,
    /// The level is already active for this account.
    LevelAlreadyActive,
    /// A level can only be bought once the previous level is active.
    PreviousLevelRequired,
    /// The account's withdrawable balance is zero.
    NothingToClaim,
    /// An upline walk needed an account that is not in the directory.
    MissingUplineAccount,
    /// An upline walk exceeded its maximum hop count.
    HopLimitExceeded,
    /// The booster log may not grow past its sanity ceiling.
    ExcessiveBoosterCapacity,
    /// A checked arithmetic step could not be represented.
    Overflow,
    /// More staking levels than the pool supports.
    TooManyLevels,
    /// A staking limit has `min` above `max`.
    InvalidLimits,
    /// The matrix account handed to the staking engine belongs to a
    /// different wallet than the stake record.
    InvalidExternalState,
    /// The matrix account has not activated the level being staked.
    InsufficientMatrixLevel,
    /// The staked amount would leave the `[min, max]` band for its level.
    AmountOutOfLimits,
    /// Opening a fresh stake requires an unconsumed matrix cycle.
    NoStakingRights,
    /// Additions to a stake are only accepted before its period ends.
    StakingPeriodEnded,
    /// A stake can only be closed once its period has ended.
    StakingPeriodNotEnded,
    /// There is no staked amount to close at this level.
    NothingToUnstake,
}

/// The coarse error taxonomy: validation failures are rejected before any
/// mutation, state errors report a sequencing rule, arithmetic errors abort
/// a call whose checked math could not be represented, and a missing
/// collaborator means a required ancestor account was not supplied.
#[derive(Clone, Copy, Debug, PartialEq, Eq, Structural)]
pub enum ErrorCategory {
    Validation,
    State,
    Arithmetic,
    MissingCollaborator,
}

impl EngineError {
    /// Which part of the error taxonomy a variant belongs to.
    pub open spec fn spec_category(self) -> ErrorCategory {
        match self {
            EngineError::ContractPaused => ErrorCategory::State,
            EngineError::InvalidReferrer => ErrorCategory::Validation,
            EngineError::InvalidReferrerAccount => ErrorCategory::Validation,
            EngineError::InvalidUser => ErrorCategory::Validation,
            EngineError::UserAlreadyExists => ErrorCategory::Validation,
            EngineError::UserNotExists => ErrorCategory::Validation,
            EngineError::LevelOutOfRange => ErrorCategory::Validation,
            EngineError::LevelAlreadyActive => ErrorCategory::Validation,
            EngineError::PreviousLevelRequired => ErrorCategory::Validation,
            EngineError::NothingToClaim => ErrorCategory::State,
            EngineError::MissingUplineAccount => ErrorCategory::MissingCollaborator,
            EngineError::HopLimitExceeded => ErrorCategory::MissingCollaborator,
            EngineError::ExcessiveBoosterCapacity => ErrorCategory::Validation,
            EngineError::Overflow => ErrorCategory::Arithmetic,
            EngineError::TooManyLevels => ErrorCategory::Validation,
            EngineError::InvalidLimits => ErrorCategory::Validation,
            EngineError::InvalidExternalState => ErrorCategory::Validation,
            EngineError::InsufficientMatrixLevel => ErrorCategory::Validation,
            EngineError::AmountOutOfLimits => ErrorCategory::Validation,
            EngineError::NoStakingRights => ErrorCategory::State,
            EngineError::StakingPeriodEnded => ErrorCategory::State,
            EngineError::StakingPeriodNotEnded => ErrorCategory::State,
            EngineError::NothingToUnstake => ErrorCategory::State,
        }
    }

    /// Runtime view of the taxonomy, equal to the specification mapping.
    pub fn category(&self) -> (c: ErrorCategory)
        ensures
            c == self.spec_category(),
    {
        match self {
            EngineError::ContractPaused => ErrorCategory::State,
            EngineError::InvalidReferrer => ErrorCategory::Validation,
            EngineError::InvalidReferrerAccount => ErrorCategory::Validation,
            EngineError::InvalidUser => ErrorCategory::Validation,
            EngineError::UserAlreadyExists => ErrorCategory::Validation,
            EngineError::UserNotExists => ErrorCategory::Validation,
            EngineError::LevelOutOfRange => ErrorCategory::Validation,
            EngineError::LevelAlreadyActive => ErrorCategory::Validation,
            EngineError::PreviousLevelRequired => ErrorCategory::Validation,
            EngineError::NothingToClaim => ErrorCategory::State,
            EngineError::MissingUplineAccount => ErrorCategory::MissingCollaborator,
            EngineError::HopLimitExceeded => ErrorCategory::MissingCollaborator,
            EngineError::ExcessiveBoosterCapacity => ErrorCategory::Validation,
            EngineError::Overflow => ErrorCategory::Arithmetic,
            EngineError::TooManyLevels => ErrorCategory::Validation,
            EngineError::InvalidLimits => ErrorCategory::Validation,
            EngineError::InvalidExternalState => ErrorCategory::Validation,
            EngineError::InsufficientMatrixLevel => ErrorCategory::Validation,
            EngineError::AmountOutOfLimits => ErrorCategory::Validation,
            EngineError::NoStakingRights => ErrorCategory::State,
            EngineError::StakingPeriodEnded => ErrorCategory::State,
            EngineError::StakingPeriodNotEnded => ErrorCategory::State,
            EngineError::NothingToUnstake => ErrorCategory::State,
        }
    }
}

} // verus!
