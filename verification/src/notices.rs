use vstd::prelude::*;

verus! {

/// Why an upline account missed a receive during resolution.
#[derive(Clone, Copy, Debug, PartialEq, Eq, Structural)]
pub enum MissMode {
    /// The level was not active on the account, so it was overtaken.
    Overtaken,
    /// The level was active but blocked.
    Blocked,
}

/// How a dividend payment was classified.
#[derive(Clone, Copy, Debug, PartialEq, Eq, Structural)]
pub enum DividendTag {
    /// A regular placement under the direct referrer.
    Simple,
    /// A payment routed past the direct referrer (overtake or pass-up).
    Extra,
}

/// One non-terminal step of an upline resolution.
#[derive(Clone, Copy, Debug, PartialEq, Eq, Structural)]
pub struct MissedNotice {
    /// The account that missed the receive.
    pub receiver: u64,
    /// The buyer whose payment was being placed.
    pub from: u64,
    /// The level being resolved.
    pub level: u8,
    /// Why the account missed.
    pub mode: MissMode,
}

/// A dividend credited (or routed to the staking pool) by one operation.
#[derive(Clone, Copy, Debug, PartialEq, Eq, Structural)]
pub struct DividendNotice {
    /// Who the dividend went to; the root's dividends go to the staking
    /// pool instead of an account.
    pub receiver: u64,
    /// The buyer whose payment funded it.
    pub from: u64,
    /// The level it was earned on.
    pub level: u8,
    /// The amount.
    pub amount: u64,
    /// Its classification.
    pub tag: DividendTag,
}

/// A referral placed into a receiver's slot.
#[derive(Clone, Copy, Debug, PartialEq, Eq, Structural)]
pub struct PlacementNotice {
    /// The slot owner.
    pub receiver: u64,
    /// The buyer who filled the place.
    pub caller: u64,
    /// The level.
    pub level: u8,
    /// The place taken, counted from 1; 3 completes a cycle.
    pub place: u8,
}

/// A slot completed a cycle of three referrals.
#[derive(Clone, Copy, Debug, PartialEq, Eq, Structural)]
pub struct CycleNotice {
    /// The slot owner.
    pub receiver: u64,
    /// The level that cycled.
    pub level: u8,
    /// The slot's lifetime cycle count after this cycle.
    pub cycles: u32,
}

/// An amount was frozen under a slot.
#[derive(Clone, Copy, Debug, PartialEq, Eq, Structural)]
pub struct FreezeNotice {
    /// The slot owner.
    pub wallet: u64,
    /// The level.
    pub level: u8,
    /// The amount now frozen.
    pub amount: u64,
}

/// A frozen amount was released to its owner's balance, minus the burn.
#[derive(Clone, Copy, Debug, PartialEq, Eq, Structural)]
pub struct UnfreezeNotice {
    /// The slot owner.
    pub wallet: u64,
    /// The level.
    pub level: u8,
    /// What reached the balance.
    pub released: u64,
    /// The 0.5% skim taken off.
    pub burned: u64,
}

/// A booster event was appended to an account's log.
#[derive(Clone, Copy, Debug, PartialEq, Eq, Structural)]
pub struct BoosterNotice {
    /// The log owner.
    pub wallet: u64,
    /// The level whose repeat cycle produced the boost.
    pub level: u8,
    /// The slot's cycle count at that moment.
    pub cycles: u32,
    /// When the boost window opens.
    pub created_at: u64,
}

} // verus!
