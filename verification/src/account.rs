use vstd::prelude::*;

use crate::errors::EngineError;

verus! {

/// Divisor of the fixed skim taken when a frozen amount is released:
/// one part in 200, i.e. 0.5%.
pub const BURN_DIVISOR: u64 = 200;

/// Capacity a fresh booster log starts with.
pub const BOOSTER_INITIAL_CAPACITY: usize = 10;

/// Sanity ceiling on the booster log: the capacity-doubling policy never
/// grows past this many entries.
pub const BOOSTER_CAPACITY_CEILING: usize = 100;

/// Per-level compensation-plan state of one account. A slot exists exactly
/// for the levels the account has activated, contiguously from level 0.
#[derive(Clone, Copy, Debug, PartialEq, Eq, Structural)]
pub struct MatrixSlot {
    /// Set when the slot cycles while the next level is not yet active;
    /// cleared when the next level is bought.
    pub blocked: bool,
    /// Referrals placed in the current cycle; always 0, 1 or 2 between
    /// operations (a third referral resets the count).
    pub referrals: u8,
    /// How many times this slot has completed a cycle of three referrals.
    pub cycles: u32,
    /// Amount currently frozen under this slot.
    pub frozen: u64,
    /// Timestamp at which the level was activated.
    pub activated_at: u64,
    /// Timestamp of the slot's first completed cycle.
    pub last_cycle_at: u64,
}

/// One entry of the append-only booster log: a repeat cycle completion,
/// consumed by the staking engine as a time-bounded reward boost.
#[derive(Clone, Copy, Debug, PartialEq, Eq, Structural)]
pub struct BoosterEvent {
    /// Timestamp at which the boost window opens.
    pub created_at: u64,
    /// The matrix level whose cycle produced the boost.
    pub level: u8,
}

/// One participant: identity, upline reference, withdrawable balance,
/// the matrix slots owned so far, and the booster log.
///
/// Wallet identities are opaque non-zero numbers; `0` stands for "no
/// wallet" and is only ever seen as the root account's referrer.
#[derive(Debug)]
pub struct Account {
    /// The participant's identity; never 0.
    pub wallet: u64,
    /// The identity of the direct upline; 0 only for the root account.
    pub referrer: u64,
    /// Withdrawable balance.
    pub balance: u64,
    /// Slot `L` is at index `L`; a level is active iff its index is below
    /// the length of this vector.
    pub slots: Vec<MatrixSlot>,
    /// Append-only booster log.
    pub boosters: Vec<BoosterEvent>,
    /// Capacity the growth policy has granted to the booster log; storage
    /// allocation for it is the hosting environment's concern.
    pub booster_capacity: usize,
}

/// Level `level` is active for the account: its slot exists.
pub open spec fn account_active(a: Account, level: int) -> bool {
    0 <= level < a.slots@.len()
}

/// A slot's referral count is always 0, 1 or 2 between operations.
pub open spec fn slot_wf(s: MatrixSlot) -> bool {
    s.referrals <= 2
}

/// Local well-formedness of one account: every slot's referral count is in
/// range and the booster log fits the capacity its policy granted.
pub open spec fn account_wf(a: Account) -> bool {
    &&& forall|i: int| 0 <= i < a.slots@.len() ==> slot_wf(#[trigger] a.slots@[i])
    &&& a.boosters@.len() <= a.booster_capacity <= BOOSTER_CAPACITY_CEILING
}

/// The slot a newly activated level starts with.
pub open spec fn spec_fresh_slot(now: u64) -> MatrixSlot {
    MatrixSlot {
        blocked: false,
        referrals: 0,
        cycles: 0,
        frozen: 0,
        activated_at: now,
        last_cycle_at: 0,
    }
}

/// Burn skim taken when `f` is released: `f / 200`, floored.
pub open spec fn spec_burn_of(f: u64) -> u64 {
    (f / BURN_DIVISOR) as u64
}

/// What the owner receives when `f` is released: `f` minus the skim.
pub open spec fn spec_release_of(f: u64) -> u64 {
    (f - spec_burn_of(f)) as u64
}

/// Next capacity granted to a booster log that has filled `cap` entries:
/// double, from the initial capacity when starting from nothing, and never
/// past the sanity ceiling.
pub open spec fn spec_grown_capacity(cap: usize) -> usize {
    if cap == 0 {
        BOOSTER_INITIAL_CAPACITY
    } else if cap >= 50 {
        BOOSTER_CAPACITY_CEILING
    } else {
        (2 * cap) as usize
    }
}

impl Account {
    /// A fresh account as registration creates it: level 0 active, nothing
    /// frozen, an empty booster log at its initial capacity.
    pub fn open_account(wallet: u64, referrer: u64, now: u64) -> (a: Account)
        ensures
            a.wallet == wallet,
            a.referrer == referrer,
            a.balance == 0,
            a.slots@ =~= seq![spec_fresh_slot(now)],
            a.boosters@ =~= Seq::<BoosterEvent>::empty(),
            a.booster_capacity == BOOSTER_INITIAL_CAPACITY,
            account_wf(a),
    {
        let mut slots: Vec<MatrixSlot> = Vec::new();
        slots.push(fresh_slot(now));
        Account {
            wallet,
            referrer,
            balance: 0,
            slots,
            boosters: Vec::new(),
            booster_capacity: BOOSTER_INITIAL_CAPACITY,
        }
    }

    /// Releases the amount frozen under slot `level`, if any: a 0.5% skim
    /// is burned (returned for external routing) and the rest is credited
    /// to the account's balance.
    pub fn unfreeze(&mut self, level: u8) -> (r: Result<Option<u64>, EngineError>)
        requires
            account_active(*old(self), level as int),
        ensures
            match r {
                Ok(None) => {
                    &&& old(self).slots@[level as int].frozen == 0
                    &&& *final(self) == *old(self)
                },
                Ok(Some(burn)) => {
                    let f = old(self).slots@[level as int].frozen;
                    &&& f > 0
                    &&& burn == spec_burn_of(f)
                    &&& final(self).balance == old(self).balance + spec_release_of(f)
                    &&& final(self).slots@ == old(self).slots@.update(
                        level as int,
                        MatrixSlot { frozen: 0, ..old(self).slots@[level as int] },
                    )
                    &&& final(self).wallet == old(self).wallet
                    &&& final(self).referrer == old(self).referrer
                    &&& final(self).boosters == old(self).boosters
                    &&& final(self).booster_capacity == old(self).booster_capacity
                },
                Err(e) => {
                    let f = old(self).slots@[level as int].frozen;
                    &&& e == EngineError::Overflow
                    &&& f > 0
                    &&& old(self).balance + spec_release_of(f) > u64::MAX
                    &&& *final(self) == *old(self)
                },
            },
    {
        let lvl = level as usize;
        let f = self.slots[lvl].frozen;
        if f == 0 {
            return Ok(None);
        }
        let burn = f / BURN_DIVISOR;
        let release = f - burn;
        match self.balance.checked_add(release) {
            None => Err(EngineError::Overflow),
            Some(new_balance) => {
                self.balance = new_balance;
                self.slots[lvl].frozen = 0;
                Ok(Some(burn))
            },
        }
    }

    /// Appends one event to the booster log, growing the granted capacity
    /// by the doubling policy when the log has filled it, and refusing to
    /// grow past the sanity ceiling.
    pub fn append_booster(&mut self, created_at: u64, level: u8) -> (r: Result<
        (),
        EngineError,
    >)
        requires
            old(self).boosters@.len() <= old(self).booster_capacity <= BOOSTER_CAPACITY_CEILING,
        ensures
            match r {
                Ok(()) => {
                    &&& old(self).boosters@.len() < BOOSTER_CAPACITY_CEILING
                    &&& final(self).boosters@ == old(self).boosters@.push(
                        BoosterEvent { created_at, level },
                    )
                    &&& final(self).booster_capacity == (if old(self).boosters@.len()
                        == old(self).booster_capacity {
                        spec_grown_capacity(old(self).booster_capacity)
                    } else {
                        old(self).booster_capacity
                    })
                    &&& final(self).boosters@.len() <= final(self).booster_capacity
                        <= BOOSTER_CAPACITY_CEILING
                    &&& final(self).wallet == old(self).wallet
                    &&& final(self).referrer == old(self).referrer
                    &&& final(self).balance == old(self).balance
                    &&& final(self).slots == old(self).slots
                },
                Err(e) => {
                    &&& e == EngineError::ExcessiveBoosterCapacity
                    &&& old(self).boosters@.len() >= BOOSTER_CAPACITY_CEILING
                    &&& *final(self) == *old(self)
                },
            },
    {
        if self.boosters.len() >= BOOSTER_CAPACITY_CEILING {
            return Err(EngineError::ExcessiveBoosterCapacity);
        }
        if self.boosters.len() == self.booster_capacity {
            let cap = self.booster_capacity;
            self.booster_capacity = if cap == 0 {
                BOOSTER_INITIAL_CAPACITY
            } else if cap >= 50 {
                BOOSTER_CAPACITY_CEILING
            } else {
                2 * cap
            };
        }
        self.boosters.push(BoosterEvent { created_at, level });
        Ok(())
    }
}

/// The slot a newly activated level starts with.
pub fn fresh_slot(now: u64) -> (s: MatrixSlot)
    ensures
        s == spec_fresh_slot(now),
{
    MatrixSlot {
        blocked: false,
        referrals: 0,
        cycles: 0,
        frozen: 0,
        activated_at: now,
        last_cycle_at: 0,
    }
}

/// Whether `level` is active for the account.
pub fn is_level_active(a: &Account, level: u8) -> (b: bool)
    ensures
        b <==> account_active(*a, level as int),
{
    (level as usize) < a.slots.len()
}

/// Slots are prefix-closed by construction: a level is active exactly when
/// its index is below the slot vector's length, so an active level `l > 0`
/// means level `l - 1` is active too.
pub proof fn lemma_active_prefix_closed(a: Account, l: int)
    requires
        l >= 1,
        account_active(a, l),
    ensures
        account_active(a, l - 1),
{
}

/// Total amount frozen across a sequence of slots.
pub open spec fn frozen_sum(slots: Seq<MatrixSlot>) -> int
    decreases slots.len(),
{
    if slots.len() == 0 {
        0
    } else {
        frozen_sum(slots.drop_last()) + slots.last().frozen
    }
}

/// Everything one account is owed: its balance plus all its frozen amounts.
pub open spec fn account_credit(a: Account) -> int {
    a.balance + frozen_sum(a.slots@)
}

/// Everything a directory of accounts is owed.
pub open spec fn total_credit(s: Seq<Account>) -> int
    decreases s.len(),
{
    if s.len() == 0 {
        0
    } else {
        total_credit(s.drop_last()) + account_credit(s.last())
    }
}

/// Replacing one slot changes the frozen sum by the difference of the
/// frozen fields.
pub proof fn lemma_frozen_sum_update(slots: Seq<MatrixSlot>, i: int, v: MatrixSlot)
    requires
        0 <= i < slots.len(),
    ensures
        frozen_sum(slots.update(i, v)) == frozen_sum(slots) - slots[i].frozen + v.frozen,
    decreases slots.len(),
{
    let upd = slots.update(i, v);
    if i == slots.len() - 1 {
        assert(upd.drop_last() =~= slots.drop_last());
    } else {
        assert(upd.drop_last() =~= slots.drop_last().update(i, v));
        lemma_frozen_sum_update(slots.drop_last(), i, v);
        assert(upd.last() == slots.last());
    }
}

/// Appending one slot adds its frozen field to the frozen sum.
pub proof fn lemma_frozen_sum_push(slots: Seq<MatrixSlot>, v: MatrixSlot)
    ensures
        frozen_sum(slots.push(v)) == frozen_sum(slots) + v.frozen,
{
    assert(slots.push(v).drop_last() =~= slots);
}

/// Replacing one account changes the directory's total credit by the
/// difference of the account credits.
pub proof fn lemma_total_credit_update(s: Seq<Account>, i: int, a: Account)
    requires
        0 <= i < s.len(),
    ensures
        total_credit(s.update(i, a)) == total_credit(s) - account_credit(s[i]) + account_credit(a),
    decreases s.len(),
{
    let upd = s.update(i, a);
    if i == s.len() - 1 {
        assert(upd.drop_last() =~= s.drop_last());
    } else {
        assert(upd.drop_last() =~= s.drop_last().update(i, a));
        lemma_total_credit_update(s.drop_last(), i, a);
        assert(upd.last() == s.last());
    }
}

/// Appending one account adds its credit to the directory's total credit.
pub proof fn lemma_total_credit_push(s: Seq<Account>, a: Account)
    ensures
        total_credit(s.push(a)) == total_credit(s) + account_credit(a),
{
    assert(s.push(a).drop_last() =~= s);
}

/// Conservation of the freeze vault: releasing a frozen amount moves it
/// from the frozen sum to the balance except for the burn skim, so one
/// unfreeze changes an account's credit by exactly minus the burn.
pub proof fn lemma_unfreeze_conserves(a0: Account, a1: Account, level: int, burn: u64)
    requires
        account_active(a0, level),
        a0.slots@[level].frozen > 0,
        burn == spec_burn_of(a0.slots@[level].frozen),
        a1.balance == a0.balance + spec_release_of(a0.slots@[level].frozen),
        a1.slots@ == a0.slots@.update(level, MatrixSlot { frozen: 0, ..a0.slots@[level] }),
    ensures
        account_credit(a1) == account_credit(a0) - burn,
{
    lemma_frozen_sum_update(
        a0.slots@,
        level,
        MatrixSlot { frozen: 0, ..a0.slots@[level] },
    );
}

} // verus!
