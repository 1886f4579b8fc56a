use vstd::prelude::*;

use crate::account::{
    account_active, account_wf, fresh_slot, slot_wf, spec_burn_of, spec_fresh_slot,
    spec_grown_capacity, spec_release_of, Account, BoosterEvent, MatrixSlot,
    BOOSTER_CAPACITY_CEILING, BOOSTER_INITIAL_CAPACITY, BURN_DIVISOR,
};
use crate::errors::EngineError;
use crate::notices::{
    BoosterNotice, CycleNotice, DividendNotice, DividendTag, FreezeNotice, MissedNotice,
    PlacementNotice, UnfreezeNotice,
};
use crate::resolver::{
    ancestor_spec, directory_wf, find_account_index, find_pass_up_ancestor, has_wallet,
    index_of_wallet, lemma_ancestor_under_wf, lemma_directory_wf_preserved,
    lemma_index_of_wallet, lemma_resolve_under_wf, referrer_precedes, resolve_receiver,
    resolve_spec, wallet_at, SpecAncestor, SpecResolve,
};

verus! {

/// Most levels a price list may configure; levels are addressed by `u8`.
pub const MAX_MATRIX_LEVELS: usize = 255;

/// The matrix ledger: the level price list, the pause flag, and the
/// directory of every registered account, with the root account at
/// index 0. The root always has every configured level active and
/// unblocked, so every upline walk terminates there.
#[derive(Debug)]
pub struct MatrixLedger {
    /// The root account's wallet identity; never 0.
    pub root: u64,
    /// While set, registrations and level purchases are refused.
    pub paused: bool,
    /// Price of each level; the number of levels is this list's length.
    pub prices: Vec<u64>,
    /// Every registered account, in registration order.
    pub accounts: Vec<Account>,
}

impl MatrixLedger {
    /// Ledger well-formedness: the directory invariants hold for the
    /// configured root and level count, the price list fits the `u8`
    /// level space, and every account is locally well-formed.
    pub open spec fn wf(self) -> bool {
        &&& directory_wf(self.accounts@, self.root, self.prices@.len() as int)
        &&& self.prices@.len() <= MAX_MATRIX_LEVELS
        &&& forall|i: int|
            0 <= i < self.accounts@.len() ==> account_wf(#[trigger] self.accounts@[i])
    }

    /// Sets up a ledger with the given root identity and price list. The
    /// root account starts with every level active, unblocked and empty.
    pub fn new(root: u64, prices: Vec<u64>, now: u64) -> (r: Result<MatrixLedger, EngineError>)
        ensures
            match r {
                Ok(ledger) => {
                    &&& root != 0
                    &&& prices@.len() <= MAX_MATRIX_LEVELS
                    &&& ledger.root == root
                    &&& !ledger.paused
                    &&& ledger.prices@ == prices@
                    &&& ledger.accounts@.len() == 1
                    &&& ({
                        let a = ledger.accounts@[0];
                        &&& a.wallet == root
                        &&& a.referrer == 0
                        &&& a.balance == 0
                        &&& a.slots@.len() == prices@.len()
                        &&& forall|l: int|
                            0 <= l < prices@.len() ==> a.slots@[l] == spec_fresh_slot(now)
                        &&& a.boosters@.len() == 0
                    })
                    &&& ledger.wf()
                },
                Err(e) => {
                    ||| (e == EngineError::InvalidUser && root == 0)
                    ||| (e == EngineError::TooManyLevels && root != 0 && prices@.len()
                        > MAX_MATRIX_LEVELS)
                },
            },
    {
        if root == 0 {
            return Err(EngineError::InvalidUser);
        }
        if prices.len() > MAX_MATRIX_LEVELS {
            return Err(EngineError::TooManyLevels);
        }
        let max_level = prices.len();
        let mut slots: Vec<MatrixSlot> = Vec::new();
        let mut k: usize = 0;
        while k < max_level
            invariant
                k <= max_level,
                slots@.len() == k,
                forall|l: int| 0 <= l < k ==> slots@[l] == spec_fresh_slot(now),
            decreases max_level - k,
        {
            slots.push(fresh_slot(now));
            k = k + 1;
        }
        let root_account = Account {
            wallet: root,
            referrer: 0,
            balance: 0,
            slots,
            boosters: Vec::new(),
            booster_capacity: crate::account::BOOSTER_INITIAL_CAPACITY,
        };
        let mut accounts: Vec<Account> = Vec::new();
        accounts.push(root_account);
        Ok(MatrixLedger { root, paused: false, prices, accounts })
    }

    /// Disables registrations and level purchases.
    pub fn pause(&mut self)
        ensures
            final(self).paused,
            final(self).root == old(self).root,
            final(self).prices == old(self).prices,
            final(self).accounts == old(self).accounts,
            old(self).wf() ==> final(self).wf(),
    {
        self.paused = true;
    }

    /// Re-enables registrations and level purchases.
    pub fn unpause(&mut self)
        ensures
            !final(self).paused,
            final(self).root == old(self).root,
            final(self).prices == old(self).prices,
            final(self).accounts == old(self).accounts,
            old(self).wf() ==> final(self).wf(),
    {
        self.paused = false;
    }

    /// Withdraws an account's whole balance: returns the amount owed and
    /// zeroes the balance; the hosting environment moves the value.
    pub fn claim(&mut self, wallet: u64) -> (r: Result<u64, EngineError>)
        requires
            old(self).wf(),
        ensures
            match r {
                Ok(amount) => {
                    &&& has_wallet(old(self).accounts@, wallet)
                    &&& exists|i: int|
                        {
                            &&& #[trigger] wallet_at(old(self).accounts@, wallet, i)
                            &&& amount == old(self).accounts@[i].balance
                            &&& amount > 0
                            &&& final(self).accounts@ == old(self).accounts@.update(
                                i,
                                Account {
                                    balance: 0,
                                    ..old(self).accounts@[i]
                                },
                            )
                        }
                    &&& final(self).root == old(self).root
                    &&& final(self).paused == old(self).paused
                    &&& final(self).prices == old(self).prices
                    &&& final(self).wf()
                },
                Err(e) => {
                    &&& *final(self) == *old(self)
                    &&& if !has_wallet(old(self).accounts@, wallet) {
                        e == EngineError::UserNotExists
                    } else {
                        &&& e == EngineError::NothingToClaim
                        &&& forall|i: int|
                            #[trigger] wallet_at(old(self).accounts@, wallet, i)
                                ==> old(self).accounts@[i].balance == 0
                    }
                },
            },
    {
        match find_account_index(&self.accounts, wallet) {
            None => Err(EngineError::UserNotExists),
            Some(i) => {
                let ghost pre = self.accounts@;
                let amount = self.accounts[i].balance;
                if amount == 0 {
                    proof {
                        assert forall|j: int| wallet_at(pre, wallet, j) implies pre[j].balance
                            == 0 by {
                            if j != i as int {
                                if j < i as int {
                                    assert(pre[j].wallet != pre[i as int].wallet);
                                } else {
                                    assert(pre[i as int].wallet != pre[j].wallet);
                                }
                            }
                        }
                    }
                    return Err(EngineError::NothingToClaim);
                }
                self.accounts[i].balance = 0;
                proof {
                    assert(wallet_at(pre, wallet, i as int));
                    assert(self.accounts@ =~= pre.update(
                        i as int,
                        Account { balance: 0, ..pre[i as int] },
                    ));
                    crate::resolver::lemma_directory_wf_preserved(
                        pre,
                        self.accounts@,
                        old(self).root,
                        old(self).prices@.len() as int,
                        old(self).prices@.len() as int,
                    );
                    assert(forall|k: int|
                        0 <= k < self.accounts@.len() ==> account_wf(
                            #[trigger] self.accounts@[k],
                        ));
                }
                Ok(amount)
            },
        }
    }

    /// Replaces the level price list and extends the root account with a
    /// fresh slot for every newly configured level, so the root keeps
    /// every level active.
    pub fn update_prices(&mut self, prices: Vec<u64>, now: u64) -> (r: Result<
        (),
        EngineError,
    >)
        requires
            old(self).wf(),
        ensures
            match r {
                Ok(()) => {
                    &&& prices@.len() <= MAX_MATRIX_LEVELS
                    &&& final(self).prices@ == prices@
                    &&& final(self).root == old(self).root
                    &&& final(self).paused == old(self).paused
                    &&& final(self).accounts@.len() == old(self).accounts@.len()
                    &&& ({
                        let r0 = old(self).accounts@[0];
                        let r1 = final(self).accounts@[0];
                        &&& r1.slots@.len() == (if r0.slots@.len() >= prices@.len() {
                            r0.slots@.len() as int
                        } else {
                            prices@.len() as int
                        })
                        &&& forall|l: int|
                            0 <= l < r0.slots@.len() ==> r1.slots@[l] == r0.slots@[l]
                        &&& forall|l: int|
                            r0.slots@.len() <= l < r1.slots@.len() ==> r1.slots@[l]
                                == spec_fresh_slot(now)
                        &&& r1.wallet == r0.wallet
                        &&& r1.referrer == r0.referrer
                        &&& r1.balance == r0.balance
                        &&& r1.boosters@ == r0.boosters@
                        &&& r1.booster_capacity == r0.booster_capacity
                    })
                    &&& forall|k: int|
                        1 <= k < old(self).accounts@.len() ==> final(self).accounts@[k] == old(
                            self,
                        ).accounts@[k]
                    &&& final(self).wf()
                },
                Err(e) => {
                    &&& *final(self) == *old(self)
                    &&& e == EngineError::TooManyLevels
                    &&& prices@.len() > MAX_MATRIX_LEVELS
                },
            },
    {
        if prices.len() > MAX_MATRIX_LEVELS {
            return Err(EngineError::TooManyLevels);
        }
        let ghost pre = *old(self);
        let target = prices.len();
        self.prices = prices;
        let ghost r0 = pre.accounts@[0];
        while self.accounts[0].slots.len() < target
            invariant
                self.prices@ == prices@,
                self.root == pre.root,
                self.paused == pre.paused,
                target == prices@.len(),
                self.accounts@.len() == pre.accounts@.len(),
                self.accounts@.len() >= 1,
                forall|k: int|
                    1 <= k < self.accounts@.len() ==> self.accounts@[k] == pre.accounts@[k],
                r0 == pre.accounts@[0],
                r0.slots@.len() <= self.accounts@[0].slots@.len(),
                self.accounts@[0].slots@.len() <= (if r0.slots@.len() >= target {
                    r0.slots@.len() as int
                } else {
                    target as int
                }),
                forall|l: int|
                    0 <= l < r0.slots@.len() ==> self.accounts@[0].slots@[l] == r0.slots@[l],
                forall|l: int|
                    r0.slots@.len() <= l < self.accounts@[0].slots@.len()
                        ==> self.accounts@[0].slots@[l] == spec_fresh_slot(now),
                self.accounts@[0].wallet == r0.wallet,
                self.accounts@[0].referrer == r0.referrer,
                self.accounts@[0].balance == r0.balance,
                self.accounts@[0].boosters == r0.boosters,
                self.accounts@[0].booster_capacity == r0.booster_capacity,
            decreases target - self.accounts[0].slots.len(),
        {
            self.accounts[0].slots.push(fresh_slot(now));
        }
        proof {
            let s0 = pre.accounts@;
            let s1 = self.accounts@;
            let ml = self.prices@.len() as int;
            assert(s1[0].slots@.len() >= ml);
            assert forall|l: int| 0 <= l < s1[0].slots@.len() implies !(
            #[trigger] s1[0].slots@[l]).blocked by {
                if l < r0.slots@.len() {
                    assert(s1[0].slots@[l] == r0.slots@[l]);
                } else {
                    assert(s1[0].slots@[l] == spec_fresh_slot(now));
                }
            }
            crate::resolver::lemma_directory_wf_preserved(
                s0,
                s1,
                self.root,
                pre.prices@.len() as int,
                ml,
            );
            assert forall|i: int| 0 <= i < s1.len() implies account_wf(#[trigger] s1[i]) by {
                if i == 0 {
                    assert(account_wf(r0));
                    assert forall|l: int|
                        0 <= l < s1[0].slots@.len() implies crate::account::slot_wf(
                        #[trigger] s1[0].slots@[l],
                    ) by {
                        if l < r0.slots@.len() {
                            assert(s1[0].slots@[l] == r0.slots@[l]);
                        } else {
                            assert(s1[0].slots@[l] == spec_fresh_slot(now));
                        }
                    }
                } else {
                    assert(s1[i] == s0[i]);
                }
            }
        }
        Ok(())
    }
}

} // verus!


verus! {

/// A slot with two referrals completes its cycle when the third arrives.
pub open spec fn spec_cycled(s: MatrixSlot) -> bool {
    s.referrals >= 2
}

/// A slot after one referral is placed into it: the third referral resets
/// the count, bumps the lifetime cycle counter, stamps the first cycle's
/// time, and blocks the slot when the next level should have been bought;
/// otherwise the count simply increments.
pub open spec fn spec_placed_slot(s0: MatrixSlot, now: u64, block_it: bool) -> MatrixSlot {
    if spec_cycled(s0) {
        MatrixSlot {
            referrals: 0,
            cycles: (s0.cycles + 1) as u32,
            last_cycle_at: if s0.cycles == 0 {
                now
            } else {
                s0.last_cycle_at
            },
            blocked: s0.blocked || block_it,
            ..s0
        }
    } else {
        MatrixSlot { referrals: (s0.referrals + 1) as u8, ..s0 }
    }
}

/// Everything one registration or level purchase reports back: what was
/// paid, what must be routed to the staking pool, and the structured
/// notices for the hosting environment's event sink.
#[derive(Debug, PartialEq, Eq)]
pub struct OpOutcome {
    /// The level price the buyer paid.
    pub price: u64,
    /// Total the hosting environment must move to the staking pool:
    /// dividends routed there plus the burn skim.
    pub to_staking: u64,
    /// The burn-skim portion inside `to_staking`.
    pub burned: u64,
    /// The wallet that received the placement (or whose dividends were
    /// routed to the pool, for the root).
    pub receiver: u64,
    /// One notice per upline account that missed the receive.
    pub missed: Vec<MissedNotice>,
    /// The single dividend this operation produced.
    pub dividend: DividendNotice,
    /// The referral placed into the receiver's slot; absent on overtake.
    pub placement: Option<PlacementNotice>,
    /// Present when the placement completed a cycle.
    pub cycle: Option<CycleNotice>,
    /// Present when a repeat cycle appended a booster event.
    pub booster: Option<BoosterNotice>,
    /// Present when a cycle released a frozen amount.
    pub unfrozen: Option<UnfreezeNotice>,
    /// The buyer's own payment, frozen under the buyer's slot.
    pub frozen: FreezeNotice,
}

/// How an overtake changes the receiver: a half-price dividend lands on
/// its balance, or goes to the staking pool instead when the receiver is
/// the root.
pub open spec fn overtaken_receiver_rel(a0: Account, a1: Account, is_root: bool, half: u64) -> bool {
    &&& a1.wallet == a0.wallet
    &&& a1.referrer == a0.referrer
    &&& a1.slots@ == a0.slots@
    &&& a1.boosters@ == a0.boosters@
    &&& a1.booster_capacity == a0.booster_capacity
    &&& if is_root {
        a1.balance == a0.balance
    } else {
        &&& a0.balance + half <= u64::MAX
        &&& a1.balance == a0.balance + half
    }
}

/// How a regular placement changes the receiver. Without a cycle, the
/// referral count increments and a half-price dividend is frozen under
/// the slot (or routed to the pool for the root). With a cycle, the slot
/// resets and its frozen amount is released to the balance minus the
/// burn, a repeat cycle appends a booster event under the capacity
/// policy, and the slot is blocked when the next level is owed.
pub open spec fn settled_receiver_rel(
    a0: Account,
    a1: Account,
    level: int,
    now: u64,
    price: u64,
    is_root: bool,
    max_level: int,
) -> bool {
    let s0 = a0.slots@[level];
    let cycled = spec_cycled(s0);
    let block_it = level + 1 < max_level && !account_active(a0, level + 1);
    let placed = spec_placed_slot(s0, now, block_it);
    &&& a1.wallet == a0.wallet
    &&& a1.referrer == a0.referrer
    &&& if cycled {
        &&& a1.balance == a0.balance + spec_release_of(s0.frozen)
        &&& a1.slots@ == a0.slots@.update(level, MatrixSlot { frozen: 0, ..placed })
        &&& if s0.cycles >= 1 {
            &&& a1.boosters@ == a0.boosters@.push(
                BoosterEvent { created_at: now, level: level as u8 },
            )
            &&& a1.booster_capacity == (if a0.boosters@.len() == a0.booster_capacity {
                spec_grown_capacity(a0.booster_capacity)
            } else {
                a0.booster_capacity
            })
        } else {
            &&& a1.boosters@ == a0.boosters@
            &&& a1.booster_capacity == a0.booster_capacity
        }
    } else {
        &&& a1.balance == a0.balance
        &&& (!is_root ==> s0.frozen + price / 2 <= u64::MAX)
        &&& a1.slots@ == a0.slots@.update(
            level,
            MatrixSlot {
                frozen: (if is_root {
                    s0.frozen
                } else {
                    (s0.frozen + price / 2) as u64
                }),
                ..placed
            },
        )
        &&& a1.boosters@ == a0.boosters@
        &&& a1.booster_capacity == a0.booster_capacity
    }
}

/// How a full-price pass-up changes the nearest ancestor with the level
/// active: the price is frozen under that ancestor's slot.
pub open spec fn passed_up_rel(a0: Account, a1: Account, level: int, price: u64) -> bool {
    &&& a1.wallet == a0.wallet
    &&& a1.referrer == a0.referrer
    &&& a1.balance == a0.balance
    &&& a0.slots@[level].frozen + price <= u64::MAX
    &&& a1.slots@ == a0.slots@.update(
        level,
        MatrixSlot { frozen: (a0.slots@[level].frozen + price) as u64, ..a0.slots@[level] },
    )
    &&& a1.boosters@ == a0.boosters@
    &&& a1.booster_capacity == a0.booster_capacity
}

/// Exactly when the settlement of one payment fails, and with which
/// error, mirroring the order in which the settlement checks its steps:
/// the upline resolution, then per-branch checked arithmetic, the booster
/// ceiling, and the pass-up walk.
pub open spec fn settle_check(
    s0: Seq<Account>,
    root: u64,
    buyer: u64,
    start: u64,
    level: int,
    price: u64,
) -> Option<EngineError> {
    match resolve_spec(s0, buyer, start, level as u8, s0.len()) {
        SpecResolve::Missing => Some(EngineError::MissingUplineAccount),
        SpecResolve::HopLimit => Some(EngineError::HopLimitExceeded),
        SpecResolve::Found { idx: ri, missed } => {
            let rcv = s0[ri];
            if rcv.wallet != start {
                if rcv.wallet != root && rcv.balance + price / 2 > u64::MAX {
                    Some(EngineError::Overflow)
                } else {
                    None
                }
            } else {
                let slot0 = rcv.slots@[level];
                if !spec_cycled(slot0) {
                    if rcv.wallet != root && slot0.frozen + price / 2 > u64::MAX {
                        Some(EngineError::Overflow)
                    } else {
                        None
                    }
                } else if slot0.cycles == u32::MAX {
                    Some(EngineError::Overflow)
                } else if slot0.frozen > 0 && rcv.balance + spec_release_of(slot0.frozen)
                    > u64::MAX {
                    Some(EngineError::Overflow)
                } else if slot0.cycles >= 1 && rcv.boosters@.len() >= BOOSTER_CAPACITY_CEILING {
                    Some(EngineError::ExcessiveBoosterCapacity)
                } else {
                    let anc_start = if rcv.referrer == 0 {
                        root
                    } else {
                        rcv.referrer
                    };
                    match ancestor_spec(s0, root, anc_start, level as u8, s0.len()) {
                        SpecAncestor::AncMissing => Some(EngineError::MissingUplineAccount),
                        SpecAncestor::AncHopLimit => Some(EngineError::HopLimitExceeded),
                        SpecAncestor::AncRoot => if price + spec_burn_of(slot0.frozen)
                            > u64::MAX {
                            Some(EngineError::Overflow)
                        } else {
                            None
                        },
                        SpecAncestor::AncFound { idx: ai } => if s0[ai].slots@[level].frozen
                            + price > u64::MAX {
                            Some(EngineError::Overflow)
                        } else {
                            None
                        },
                    }
                }
            }
        },
    }
}

/// How a successful settlement changes the directory entries that existed
/// before the operation, and what the outcome reports. `skip` is the
/// buyer's index for a level purchase (whose own change is stated
/// separately) or `-1` for a registration (whose account is appended).
pub open spec fn settled_rel(
    s0: Seq<Account>,
    s1: Seq<Account>,
    out: OpOutcome,
    root: u64,
    max_level: int,
    buyer: u64,
    start: u64,
    level: int,
    price: u64,
    now: u64,
    skip: int,
) -> bool {
    let n = s0.len() as int;
    let rr = resolve_spec(s0, buyer, start, level as u8, s0.len());
    &&& rr matches SpecResolve::Found { idx: ri, missed: ms }
    &&& out.missed@ == ms
    &&& out.receiver == s0[ri].wallet
    &&& out.price == price
    &&& out.frozen == FreezeNotice { wallet: buyer, level: level as u8, amount: price }
    &&& ({
        let rcv = s0[ri];
        if rcv.wallet != start {
            &&& overtaken_receiver_rel(rcv, s1[ri], rcv.wallet == root, (price / 2) as u64)
            &&& out.to_staking == (if rcv.wallet == root {
                (price / 2) as u64
            } else {
                0
            })
            &&& out.burned == 0
            &&& out.dividend == DividendNotice {
                receiver: rcv.wallet,
                from: buyer,
                level: level as u8,
                amount: (price / 2) as u64,
                tag: DividendTag::Extra,
            }
            &&& out.placement is None
            &&& out.cycle is None
            &&& out.booster is None
            &&& out.unfrozen is None
            &&& forall|k: int| 0 <= k < n && k != ri && k != skip ==> s1[k] == s0[k]
        } else {
            let slot0 = rcv.slots@[level];
            let cycled = spec_cycled(slot0);
            &&& settled_receiver_rel(rcv, s1[ri], level, now, price, rcv.wallet == root, max_level)
            &&& out.placement == Some(
                PlacementNotice {
                    receiver: rcv.wallet,
                    caller: buyer,
                    level: level as u8,
                    place: (slot0.referrals + 1) as u8,
                },
            )
            &&& if !cycled {
                &&& out.cycle is None
                &&& out.booster is None
                &&& out.unfrozen is None
                &&& out.burned == 0
                &&& out.to_staking == (if rcv.wallet == root {
                    (price / 2) as u64
                } else {
                    0
                })
                &&& out.dividend == DividendNotice {
                    receiver: rcv.wallet,
                    from: buyer,
                    level: level as u8,
                    amount: (price / 2) as u64,
                    tag: DividendTag::Simple,
                }
                &&& forall|k: int| 0 <= k < n && k != ri && k != skip ==> s1[k] == s0[k]
            } else {
                let burn = spec_burn_of(slot0.frozen);
                let anc_start = if rcv.referrer == 0 {
                    root
                } else {
                    rcv.referrer
                };
                &&& out.cycle == Some(
                    CycleNotice {
                        receiver: rcv.wallet,
                        level: level as u8,
                        cycles: (slot0.cycles + 1) as u32,
                    },
                )
                &&& out.booster == (if slot0.cycles >= 1 {
                    Some(
                        BoosterNotice {
                            wallet: rcv.wallet,
                            level: level as u8,
                            cycles: (slot0.cycles + 1) as u32,
                            created_at: now,
                        },
                    )
                } else {
                    None::<BoosterNotice>
                })
                &&& out.unfrozen == (if slot0.frozen > 0 {
                    Some(
                        UnfreezeNotice {
                            wallet: rcv.wallet,
                            level: level as u8,
                            released: spec_release_of(slot0.frozen),
                            burned: burn,
                        },
                    )
                } else {
                    None::<UnfreezeNotice>
                })
                &&& out.burned == burn
                &&& match ancestor_spec(s0, root, anc_start, level as u8, s0.len()) {
                    SpecAncestor::AncRoot => {
                        &&& out.to_staking == price + burn
                        &&& out.dividend == DividendNotice {
                            receiver: root,
                            from: buyer,
                            level: level as u8,
                            amount: price,
                            tag: DividendTag::Extra,
                        }
                        &&& forall|k: int| 0 <= k < n && k != ri && k != skip ==> s1[k] == s0[k]
                    },
                    SpecAncestor::AncFound { idx: ai } => {
                        &&& passed_up_rel(s0[ai], s1[ai], level, price)
                        &&& out.to_staking == burn
                        &&& out.dividend == DividendNotice {
                            receiver: s0[ai].wallet,
                            from: buyer,
                            level: level as u8,
                            amount: price,
                            tag: DividendTag::Extra,
                        }
                        &&& forall|k: int|
                            0 <= k < n && k != ri && k != ai && k != skip ==> s1[k] == s0[k]
                    },
                    _ => false,
                }
            }
        }
    })
}

/// In a well-formed directory, both walks a settlement makes succeed:
/// the resolution finds a receiver at or below the start account's index,
/// and when the receiver's slot cycles, the pass-up walk ends at the root
/// or at an ancestor strictly below the receiver.
pub proof fn lemma_settle_indices(
    s0: Seq<Account>,
    root: u64,
    max_level: int,
    buyer: u64,
    start: u64,
    level: u8,
    si: int,
)
    requires
        directory_wf(s0, root, max_level),
        (level as int) < max_level,
        wallet_at(s0, start, si),
    ensures
        ({
            let rr = resolve_spec(s0, buyer, start, level, s0.len());
            &&& rr matches SpecResolve::Found { idx: ri, missed: ms }
            &&& 0 <= ri <= si
            &&& ({
                let anc_start = if s0[ri].referrer == 0 {
                    root
                } else {
                    s0[ri].referrer
                };
                match ancestor_spec(s0, root, anc_start, level, s0.len()) {
                    SpecAncestor::AncRoot => true,
                    SpecAncestor::AncFound { idx: ai } => 0 <= ai < ri,
                    _ => false,
                }
            })
        }),
{
    lemma_index_of_wallet(s0, start, si);
    lemma_resolve_under_wf(s0, root, max_level, buyer, si, level, s0.len());
    let rr = resolve_spec(s0, buyer, start, level, s0.len());
    let ri = rr->idx;
    if ri == 0 {
        assert(s0[0].referrer == 0);
        assert(ancestor_spec(s0, root, root, level, s0.len()) is AncRoot);
    } else {
        assert(referrer_precedes(s0, ri));
        let j = choose|j: int| 0 <= j < ri && (#[trigger] s0[j].wallet) == s0[ri].referrer;
        assert(s0[ri].referrer != 0);
        lemma_ancestor_under_wf(s0, root, max_level, s0[ri].referrer, j, level, s0.len());
    }
}

} // verus!

verus! {

impl MatrixLedger {
    /// Settles one payment of `price` by `buyer` at `level`: resolves the
    /// receiver by walking the upline from wallet `start` (the buyer's
    /// referrer), places the referral when the receiver is that referrer,
    /// releases a cycled slot's freeze, passes a full-price dividend up on
    /// a cycle, and routes the root's dividends to the staking pool. The
    /// buyer's own entry is never touched; the caller freezes the buyer's
    /// payment itself.
    fn settle(&mut self, buyer: u64, start: u64, level: u8, price: u64, now: u64) -> (r:
        Result<OpOutcome, EngineError>)
        requires
            old(self).wf(),
            has_wallet(old(self).accounts@, start),
            (level as int) < old(self).prices@.len(),
        ensures
            final(self).root == old(self).root,
            final(self).paused == old(self).paused,
            final(self).prices == old(self).prices,
            final(self).accounts@.len() == old(self).accounts@.len(),
            forall|k: int|
                0 <= k < old(self).accounts@.len() ==> (#[trigger] final(self).accounts@[k]).wallet
                    == old(self).accounts@[k].wallet && final(self).accounts@[k].referrer == old(
                    self,
                ).accounts@[k].referrer,
            final(self).wf(),
            match r {
                Ok(out) => {
                    &&& settle_check(
                        old(self).accounts@,
                        old(self).root,
                        buyer,
                        start,
                        level as int,
                        price,
                    ) is None
                    &&& settled_rel(
                        old(self).accounts@,
                        final(self).accounts@,
                        out,
                        old(self).root,
                        old(self).prices@.len() as int,
                        buyer,
                        start,
                        level as int,
                        price,
                        now,
                        -1,
                    )
                },
                Err(e) => {
                    &&& *final(self) == *old(self)
                    &&& settle_check(
                        old(self).accounts@,
                        old(self).root,
                        buyer,
                        start,
                        level as int,
                        price,
                    ) == Some(e)
                },
            },
    {
        let ghost s0 = self.accounts@;
        let ghost root_g = self.root;
        let ghost max_level = self.prices@.len() as int;
        let n = self.accounts.len();
        proof {
            let si = choose|si: int| wallet_at(s0, start, si);
            lemma_settle_indices(s0, root_g, max_level, buyer, start, level, si);
        }
        let (ri, missed) = match resolve_receiver(&self.accounts, buyer, start, level, n) {
            Ok(p) => p,
            Err(e) => {
                return Err(e);
            },
        };
        let lvl = level as usize;
        let rcv_wallet = self.accounts[ri].wallet;
        let is_root = rcv_wallet == self.root;
        proof {
            assert(account_wf(s0[ri as int]));
            assert(slot_wf(s0[ri as int].slots@[lvl as int]));
        }
        if rcv_wallet != start {
            // Overtake: the receiver is not the buyer's direct referrer,
            // so only half the price is accounted for, to the receiver's
            // balance or, for the root, to the staking pool.
            let half = price / 2;
            if !is_root {
                let b = self.accounts[ri].balance;
                let nb = match b.checked_add(half) {
                    None => {
                        return Err(EngineError::Overflow);
                    },
                    Some(x) => x,
                };
                self.accounts[ri].balance = nb;
            }
            let out = OpOutcome {
                price,
                to_staking: if is_root {
                    half
                } else {
                    0
                },
                burned: 0,
                receiver: rcv_wallet,
                missed,
                dividend: DividendNotice {
                    receiver: rcv_wallet,
                    from: buyer,
                    level,
                    amount: half,
                    tag: DividendTag::Extra,
                },
                placement: None,
                cycle: None,
                booster: None,
                unfrozen: None,
                frozen: FreezeNotice { wallet: buyer, level, amount: price },
            };
            proof {
                assert(self.accounts@[0].slots@ == s0[0].slots@);
                lemma_directory_wf_preserved(s0, self.accounts@, root_g, max_level, max_level);
                assert(forall|k: int|
                    0 <= k < self.accounts@.len() ==> account_wf(#[trigger] self.accounts@[k]));
            }
            return Ok(out);
        }
        // Regular placement: the receiver is the buyer's direct referrer.
        let slot0 = self.accounts[ri].slots[lvl];
        let cycled = slot0.referrals >= 2;
        if !cycled {
            // The slot takes its first or second referral: half the price
            // is frozen under it (or routed to the pool for the root).
            let new_frozen = if is_root {
                slot0.frozen
            } else {
                match slot0.frozen.checked_add(price / 2) {
                    None => {
                        return Err(EngineError::Overflow);
                    },
                    Some(x) => x,
                }
            };
            let nslot = MatrixSlot {
                referrals: slot0.referrals + 1,
                frozen: new_frozen,
                ..slot0
            };
            self.accounts[ri].slots[lvl] = nslot;
            let out = OpOutcome {
                price,
                to_staking: if is_root {
                    price / 2
                } else {
                    0
                },
                burned: 0,
                receiver: rcv_wallet,
                missed,
                dividend: DividendNotice {
                    receiver: rcv_wallet,
                    from: buyer,
                    level,
                    amount: price / 2,
                    tag: DividendTag::Simple,
                },
                placement: Some(
                    PlacementNotice {
                        receiver: rcv_wallet,
                        caller: buyer,
                        level,
                        place: slot0.referrals + 1,
                    },
                ),
                cycle: None,
                booster: None,
                unfrozen: None,
                frozen: FreezeNotice { wallet: buyer, level, amount: price },
            };
            proof {
                assert(settled_receiver_rel(
                    s0[ri as int],
                    self.accounts@[ri as int],
                    level as int,
                    now,
                    price,
                    is_root,
                    max_level,
                ));
                if ri as int == 0 {
                    assert(!nslot.blocked);
                }
                assert forall|l: int| 0 <= l < self.accounts@[0].slots@.len() implies !(
                #[trigger] self.accounts@[0].slots@[l]).blocked by {
                    if ri as int == 0 && l == lvl as int {
                    } else {
                        assert(self.accounts@[0].slots@[l] == s0[0].slots@[l]);
                    }
                }
                lemma_directory_wf_preserved(s0, self.accounts@, root_g, max_level, max_level);
                assert forall|k: int|
                    0 <= k < self.accounts@.len() implies account_wf(
                    #[trigger] self.accounts@[k],
                ) by {
                    if k == ri as int {
                        assert(account_wf(s0[k]));
                        assert(forall|l: int|
                            0 <= l < self.accounts@[k].slots@.len() && l != lvl as int
                                ==> self.accounts@[k].slots@[l] == s0[k].slots@[l]);
                    } else {
                        assert(self.accounts@[k] == s0[k]);
                    }
                }
            }
            return Ok(out);
        }
        // The third referral: the slot cycles. Check every arithmetic step
        // before any state is touched, so a failure aborts the whole call.
        if slot0.cycles == u32::MAX {
            return Err(EngineError::Overflow);
        }
        let f = slot0.frozen;
        let burn = f / BURN_DIVISOR;
        let release = f - burn;
        let new_balance = if f > 0 {
            match self.accounts[ri].balance.checked_add(release) {
                None => {
                    return Err(EngineError::Overflow);
                },
                Some(x) => x,
            }
        } else {
            self.accounts[ri].balance
        };
        let push_booster = slot0.cycles >= 1;
        if push_booster && self.accounts[ri].boosters.len() >= BOOSTER_CAPACITY_CEILING {
            return Err(EngineError::ExcessiveBoosterCapacity);
        }
        let rref = self.accounts[ri].referrer;
        let anc_start = if rref == 0 {
            self.root
        } else {
            rref
        };
        let anc = match find_pass_up_ancestor(&self.accounts, self.root, anc_start, level, n) {
            Ok(a) => a,
            Err(e) => {
                return Err(e);
            },
        };
        let (to_staking, anc_plan, div_receiver): (u64, Option<(usize, u64)>, u64) = match anc {
            None => {
                // The walk ended at the root: the full price goes to the
                // staking pool, together with the burn skim.
                let ts = match price.checked_add(burn) {
                    None => {
                        return Err(EngineError::Overflow);
                    },
                    Some(x) => x,
                };
                (ts, None, self.root)
            },
            Some(ai) => {
                let af = self.accounts[ai].slots[lvl].frozen;
                let naf = match af.checked_add(price) {
                    None => {
                        return Err(EngineError::Overflow);
                    },
                    Some(x) => x,
                };
                (burn, Some((ai, naf)), self.accounts[ai].wallet)
            },
        };
        // Commit: nothing below can fail.
        let block_it = (lvl + 1 < self.prices.len()) && !(lvl + 1 < self.accounts[ri].slots.len());
        let placed = MatrixSlot {
            blocked: slot0.blocked || block_it,
            referrals: 0,
            cycles: slot0.cycles + 1,
            frozen: 0,
            activated_at: slot0.activated_at,
            last_cycle_at: if slot0.cycles == 0 {
                now
            } else {
                slot0.last_cycle_at
            },
        };
        self.accounts[ri].slots[lvl] = placed;
        self.accounts[ri].balance = new_balance;
        if push_booster {
            let cap = self.accounts[ri].booster_capacity;
            if self.accounts[ri].boosters.len() == cap {
                self.accounts[ri].booster_capacity = if cap == 0 {
                    BOOSTER_INITIAL_CAPACITY
                } else if cap >= 50 {
                    BOOSTER_CAPACITY_CEILING
                } else {
                    2 * cap
                };
            }
            self.accounts[ri].boosters.push(BoosterEvent { created_at: now, level });
        }
        let ghost mid = self.accounts@;
        if let Some((ai, naf)) = anc_plan {
            let aslot = self.accounts[ai].slots[lvl];
            self.accounts[ai].slots[lvl] = MatrixSlot { frozen: naf, ..aslot };
        }
        let out = OpOutcome {
            price,
            to_staking,
            burned: burn,
            receiver: rcv_wallet,
            missed,
            dividend: DividendNotice {
                receiver: div_receiver,
                from: buyer,
                level,
                amount: price,
                tag: DividendTag::Extra,
            },
            placement: Some(
                PlacementNotice {
                    receiver: rcv_wallet,
                    caller: buyer,
                    level,
                    place: slot0.referrals + 1,
                },
            ),
            cycle: Some(
                CycleNotice { receiver: rcv_wallet, level, cycles: slot0.cycles + 1 },
            ),
            booster: if push_booster {
                Some(
                    BoosterNotice {
                        wallet: rcv_wallet,
                        level,
                        cycles: slot0.cycles + 1,
                        created_at: now,
                    },
                )
            } else {
                None
            },
            unfrozen: if f > 0 {
                Some(
                    UnfreezeNotice { wallet: rcv_wallet, level, released: release, burned: burn },
                )
            } else {
                None
            },
            frozen: FreezeNotice { wallet: buyer, level, amount: price },
        };
        proof {
            assert(settled_receiver_rel(
                s0[ri as int],
                self.accounts@[ri as int],
                level as int,
                now,
                price,
                is_root,
                max_level,
            )) by {
                assert(mid[ri as int] == self.accounts@[ri as int]);
                assert(mid[ri as int].slots@ == s0[ri as int].slots@.update(
                    lvl as int,
                    MatrixSlot {
                        frozen: 0,
                        ..spec_placed_slot(s0[ri as int].slots@[lvl as int], now, block_it)
                    },
                ));
            }
            if ri as int == 0 {
                assert(!placed.blocked);
            }
            assert forall|l: int| 0 <= l < self.accounts@[0].slots@.len() implies !(
            #[trigger] self.accounts@[0].slots@[l]).blocked by {
                if ri as int == 0 && l == lvl as int {
                } else {
                    assert(self.accounts@[0].slots@[l] == s0[0].slots@[l]);
                }
            }
            lemma_directory_wf_preserved(s0, self.accounts@, root_g, max_level, max_level);
            assert forall|k: int|
                0 <= k < self.accounts@.len() implies account_wf(
                #[trigger] self.accounts@[k],
            ) by {
                assert(account_wf(s0[k]));
                if k == ri as int {
                    assert(forall|l: int|
                        0 <= l < self.accounts@[k].slots@.len() && l != lvl as int
                            ==> self.accounts@[k].slots@[l] == s0[k].slots@[l]);
                } else if anc_plan matches Some((ai, naf)) && k == ai as int {
                    assert(forall|l: int|
                        0 <= l < self.accounts@[k].slots@.len() && l != lvl as int
                            ==> self.accounts@[k].slots@[l] == s0[k].slots@[l]);
                } else {
                    assert(self.accounts@[k] == s0[k]);
                }
            }
        }
        Ok(out)
    }
}

} // verus!

verus! {

/// Exactly when a registration fails, and with which error, in the order
/// the operation checks its inputs.
pub open spec fn registration_check(pre: MatrixLedger, user: u64, referrer: u64) -> Option<
    EngineError,
> {
    let s0 = pre.accounts@;
    if pre.paused {
        Some(EngineError::ContractPaused)
    } else if referrer == 0 {
        Some(EngineError::InvalidReferrer)
    } else if !has_wallet(s0, referrer) {
        Some(EngineError::InvalidReferrerAccount)
    } else if user == referrer {
        Some(EngineError::InvalidReferrer)
    } else if user == 0 {
        Some(EngineError::InvalidUser)
    } else if has_wallet(s0, user) {
        Some(EngineError::UserAlreadyExists)
    } else if pre.prices@.len() == 0 {
        Some(EngineError::LevelOutOfRange)
    } else {
        settle_check(s0, pre.root, user, referrer, 0, pre.prices@[0])
    }
}

/// Exactly when a level purchase fails, and with which error, in the
/// order the operation checks its inputs.
pub open spec fn buy_check(pre: MatrixLedger, user: u64, level: int) -> Option<EngineError> {
    let s0 = pre.accounts@;
    if pre.paused {
        Some(EngineError::ContractPaused)
    } else if !has_wallet(s0, user) {
        Some(EngineError::UserNotExists)
    } else {
        let bi = index_of_wallet(s0, user);
        if level >= pre.prices@.len() {
            Some(EngineError::LevelOutOfRange)
        } else if account_active(s0[bi], level) {
            Some(EngineError::LevelAlreadyActive)
        } else if level > 0 && !account_active(s0[bi], level - 1) {
            Some(EngineError::PreviousLevelRequired)
        } else {
            settle_check(s0, pre.root, user, s0[bi].referrer, level, pre.prices@[level])
        }
    }
}

/// How a level purchase changes the buyer: the previous level's slot is
/// unblocked if it was blocked, and a fresh slot for the new level is
/// appended with the buyer's own payment frozen under it.
pub open spec fn buyer_leveled_rel(
    b0: Account,
    b1: Account,
    level: int,
    price: u64,
    now: u64,
) -> bool {
    &&& b1.wallet == b0.wallet
    &&& b1.referrer == b0.referrer
    &&& b1.balance == b0.balance
    &&& b1.boosters@ == b0.boosters@
    &&& b1.booster_capacity == b0.booster_capacity
    &&& ({
        let unblocked = if level > 0 && b0.slots@[level - 1].blocked {
            b0.slots@.update(level - 1, MatrixSlot { blocked: false, ..b0.slots@[level - 1] })
        } else {
            b0.slots@
        };
        b1.slots@ == unblocked.push(MatrixSlot { frozen: price, ..spec_fresh_slot(now) })
    })
}

impl MatrixLedger {
    /// Registers a new participant under a referrer, activating level 0.
    /// The buyer's payment (the level-0 price) is frozen under the new
    /// account's slot, and the placement is settled on the upline: the
    /// referrer's slot takes the referral (cycling on the third), or an
    /// upline account receives instead when the referrer's slot is
    /// missing or blocked.
    pub fn registration(&mut self, user_key: u64, referrer_key: u64, now: u64) -> (r: Result<
        OpOutcome,
        EngineError,
    >)
        requires
            old(self).wf(),
        ensures
            match r {
                Ok(out) => {
                    &&& registration_check(*old(self), user_key, referrer_key) is None
                    &&& final(self).root == old(self).root
                    &&& final(self).paused == old(self).paused
                    &&& final(self).prices == old(self).prices
                    &&& final(self).accounts@.len() == old(self).accounts@.len() + 1
                    &&& settled_rel(
                        old(self).accounts@,
                        final(self).accounts@,
                        out,
                        old(self).root,
                        old(self).prices@.len() as int,
                        user_key,
                        referrer_key,
                        0,
                        old(self).prices@[0],
                        now,
                        -1,
                    )
                    &&& ({
                        let b = final(self).accounts@.last();
                        &&& b.wallet == user_key
                        &&& b.referrer == referrer_key
                        &&& b.balance == 0
                        &&& b.slots@ =~= seq![
                            MatrixSlot { frozen: old(self).prices@[0], ..spec_fresh_slot(now) },
                        ]
                        &&& b.boosters@.len() == 0
                        &&& b.booster_capacity == BOOSTER_INITIAL_CAPACITY
                    })
                    &&& final(self).wf()
                },
                Err(e) => {
                    &&& *final(self) == *old(self)
                    &&& registration_check(*old(self), user_key, referrer_key) == Some(e)
                },
            },
    {
        let ghost s0 = self.accounts@;
        let ghost root_g = self.root;
        let ghost max_level = self.prices@.len() as int;
        if self.paused {
            return Err(EngineError::ContractPaused);
        }
        if referrer_key == 0 {
            return Err(EngineError::InvalidReferrer);
        }
        let ref_idx = match find_account_index(&self.accounts, referrer_key) {
            None => {
                return Err(EngineError::InvalidReferrerAccount);
            },
            Some(j) => j,
        };
        if user_key == referrer_key {
            return Err(EngineError::InvalidReferrer);
        }
        if user_key == 0 {
            return Err(EngineError::InvalidUser);
        }
        match find_account_index(&self.accounts, user_key) {
            Some(_) => {
                return Err(EngineError::UserAlreadyExists);
            },
            None => {},
        }
        if self.prices.len() == 0 {
            return Err(EngineError::LevelOutOfRange);
        }
        let price = self.prices[0];
        let out = match self.settle(user_key, referrer_key, 0, price, now) {
            Ok(o) => o,
            Err(e) => {
                return Err(e);
            },
        };
        let ghost mid = self.accounts@;
        let mut slots: Vec<MatrixSlot> = Vec::new();
        slots.push(
            MatrixSlot {
                blocked: false,
                referrals: 0,
                cycles: 0,
                frozen: price,
                activated_at: now,
                last_cycle_at: 0,
            },
        );
        let buyer_acct = Account {
            wallet: user_key,
            referrer: referrer_key,
            balance: 0,
            slots,
            boosters: Vec::new(),
            booster_capacity: BOOSTER_INITIAL_CAPACITY,
        };
        self.accounts.push(buyer_acct);
        proof {
            let n = s0.len() as int;
            let s1 = self.accounts@;
            assert(forall|k: int| 0 <= k < n ==> s1[k] == mid[k]);
            assert(s1.last().slots@ =~= seq![
                MatrixSlot { frozen: price, ..spec_fresh_slot(now) },
            ]);
            // The settlement relation carries over to the extended
            // directory: the push changes no settled entry.
            lemma_settle_indices(s0, root_g, max_level, user_key, referrer_key, 0, ref_idx as int);
            let rr = resolve_spec(s0, user_key, referrer_key, 0u8, s0.len());
            let ri = rr->idx;
            assert(s1[ri] == mid[ri]);
            let rcv = s0[ri];
            if rcv.wallet == referrer_key && spec_cycled(rcv.slots@[0]) {
                let anc_start = if rcv.referrer == 0 {
                    root_g
                } else {
                    rcv.referrer
                };
                let anc = ancestor_spec(s0, root_g, anc_start, 0u8, s0.len());
                match anc {
                    SpecAncestor::AncFound { idx: ai } => {
                        assert(s1[ai] == mid[ai]);
                    },
                    _ => {},
                }
            }
            assert(settled_rel(
                s0,
                s1,
                out,
                root_g,
                max_level,
                user_key,
                referrer_key,
                0,
                price,
                now,
                -1,
            ));
            // The new directory is still well-formed: the fresh wallet is
            // unique and non-zero, and its referrer precedes it.
            assert(directory_wf(s1, root_g, max_level)) by {
                assert(directory_wf(mid, root_g, max_level));
                assert(s1[0] == mid[0]);
                assert(forall|i: int|
                    0 <= i < n ==> (#[trigger] s1[i].wallet) == s0[i].wallet && s1[i].referrer
                        == s0[i].referrer);
                assert forall|i: int| 0 <= i < n implies (#[trigger] s0[i].wallet)
                    != user_key by {
                    assert(!wallet_at(s0, user_key, i));
                }
                assert(s1[n].wallet == user_key && user_key != 0);
                assert forall|i: int, j: int| 0 <= i < j < s1.len() implies (
                #[trigger] s1[i].wallet) != (#[trigger] s1[j].wallet) by {
                    if j < n {
                        assert(mid[i].wallet != mid[j].wallet);
                    }
                }
                assert forall|i: int| 1 <= i < s1.len() implies #[trigger] referrer_precedes(
                    s1,
                    i,
                ) by {
                    if i < n {
                        assert(referrer_precedes(mid, i));
                        let j = choose|j: int|
                            0 <= j < i && (#[trigger] mid[j].wallet) == mid[i].referrer;
                        assert(s1[j].wallet == mid[j].wallet);
                    } else {
                        assert(wallet_at(s0, referrer_key, ref_idx as int));
                        assert(s1[ref_idx as int].wallet == s0[ref_idx as int].wallet);
                        assert(0 <= (ref_idx as int) < i && s1[ref_idx as int].wallet
                            == s1[i].referrer);
                    }
                }
            }
            assert(account_wf(s1[n]));
            assert(forall|i: int| 0 <= i < s1.len() ==> account_wf(#[trigger] s1[i]));
        }
        Ok(out)
    }

    /// Activates a new level for a registered participant. The previous
    /// level must be active; if its slot was blocked, buying the next
    /// level unblocks it. The payment (the level's price) is frozen under
    /// the buyer's fresh slot and the placement is settled on the upline
    /// exactly as for a registration.
    pub fn buy_new_level(&mut self, user_key: u64, level: u8, now: u64) -> (r: Result<
        OpOutcome,
        EngineError,
    >)
        requires
            old(self).wf(),
        ensures
            match r {
                Ok(out) => {
                    let s0 = old(self).accounts@;
                    let bi = index_of_wallet(s0, user_key);
                    &&& buy_check(*old(self), user_key, level as int) is None
                    &&& final(self).root == old(self).root
                    &&& final(self).paused == old(self).paused
                    &&& final(self).prices == old(self).prices
                    &&& final(self).accounts@.len() == old(self).accounts@.len()
                    &&& settled_rel(
                        s0,
                        final(self).accounts@,
                        out,
                        old(self).root,
                        old(self).prices@.len() as int,
                        user_key,
                        s0[bi].referrer,
                        level as int,
                        old(self).prices@[level as int],
                        now,
                        bi,
                    )
                    &&& buyer_leveled_rel(
                        s0[bi],
                        final(self).accounts@[bi],
                        level as int,
                        old(self).prices@[level as int],
                        now,
                    )
                    &&& final(self).wf()
                },
                Err(e) => {
                    &&& *final(self) == *old(self)
                    &&& buy_check(*old(self), user_key, level as int) == Some(e)
                },
            },
    {
        let ghost s0 = self.accounts@;
        let ghost root_g = self.root;
        let ghost max_level = self.prices@.len() as int;
        if self.paused {
            return Err(EngineError::ContractPaused);
        }
        let bi = match find_account_index(&self.accounts, user_key) {
            None => {
                return Err(EngineError::UserNotExists);
            },
            Some(j) => j,
        };
        proof {
            lemma_index_of_wallet(s0, user_key, bi as int);
        }
        let lvl = level as usize;
        if lvl >= self.prices.len() {
            return Err(EngineError::LevelOutOfRange);
        }
        if lvl < self.accounts[bi].slots.len() {
            return Err(EngineError::LevelAlreadyActive);
        }
        if level > 0 && !((lvl - 1) < self.accounts[bi].slots.len()) {
            return Err(EngineError::PreviousLevelRequired);
        }
        let price = self.prices[lvl];
        let start = self.accounts[bi].referrer;
        proof {
            // The buyer cannot be the root: the root has every level
            // active, which the level check above ruled out.
            assert(bi as int != 0) by {
                if bi as int == 0 {
                    assert(s0[0].slots@.len() >= max_level);
                }
            }
            assert(referrer_precedes(s0, bi as int));
            let j = choose|j: int|
                0 <= j < bi as int && (#[trigger] s0[j].wallet) == s0[bi as int].referrer;
            assert(wallet_at(s0, start, j));
            // Both settlement walks stay strictly below the buyer's
            // index, so the settlement never touches the buyer's entry.
            lemma_settle_indices(s0, root_g, max_level, user_key, start, level, j);
        }
        let out = match self.settle(user_key, start, level, price, now) {
            Ok(o) => o,
            Err(e) => {
                return Err(e);
            },
        };
        let ghost mid = self.accounts@;
        proof {
            assert(mid[bi as int] == s0[bi as int]);
        }
        if level > 0 {
            let li = lvl - 1;
            let s = self.accounts[bi].slots[li];
            if s.blocked {
                self.accounts[bi].slots[li] = MatrixSlot { blocked: false, ..s };
            }
        }
        self.accounts[bi].slots.push(
            MatrixSlot {
                blocked: false,
                referrals: 0,
                cycles: 0,
                frozen: price,
                activated_at: now,
                last_cycle_at: 0,
            },
        );
        proof {
            let n = s0.len() as int;
            let s1 = self.accounts@;
            assert(forall|k: int| 0 <= k < n && k != bi as int ==> s1[k] == mid[k]);
            assert(buyer_leveled_rel(s0[bi as int], s1[bi as int], level as int, price, now));
            assert(settled_rel(
                s0,
                s1,
                out,
                root_g,
                max_level,
                user_key,
                start,
                level as int,
                price,
                now,
                bi as int,
            ));
            assert(s1[0] == mid[0]);
            lemma_directory_wf_preserved(mid, s1, root_g, max_level, max_level);
            assert forall|k: int| 0 <= k < s1.len() implies account_wf(#[trigger] s1[k]) by {
                if k == bi as int {
                    assert(account_wf(s0[k]));
                    assert(forall|l: int|
                        0 <= l < s0[k].slots@.len() ==> slot_wf(#[trigger] s0[k].slots@[l]));
                    assert forall|l: int| 0 <= l < s1[k].slots@.len() implies slot_wf(
                        #[trigger] s1[k].slots@[l],
                    ) by {
                        if l < s0[k].slots@.len() {
                            assert(s1[k].slots@[l].referrals == s0[k].slots@[l].referrals);
                        }
                    }
                } else {
                    assert(account_wf(mid[k]));
                }
            }
        }
        Ok(out)
    }
}

} // verus!

verus! {

/// The referral counter law: a slot's count never exceeds 2 between
/// operations, and the third referral always resets it to 0 and
/// increments the lifetime cycle count by exactly 1.
pub proof fn lemma_referral_cycle(s0: MatrixSlot, now: u64, block_it: bool)
    requires
        slot_wf(s0),
        s0.cycles < u32::MAX,
    ensures
        ({
            let s1 = spec_placed_slot(s0, now, block_it);
            &&& slot_wf(s1)
            &&& (s0.referrals == 2 ==> s1.referrals == 0 && s1.cycles == s0.cycles + 1)
            &&& (s0.referrals < 2 ==> s1.referrals == s0.referrals + 1 && s1.cycles
                == s0.cycles)
        }),
{
}

/// Active levels are prefix-closed on every account of a well-formed
/// ledger: whenever level `l >= 1` is active, level `l - 1` is active.
pub proof fn lemma_ledger_prefix_closed(ledger: MatrixLedger, i: int, l: int)
    requires
        ledger.wf(),
        0 <= i < ledger.accounts@.len(),
        l >= 1,
        account_active(ledger.accounts@[i], l),
    ensures
        account_active(ledger.accounts@[i], l - 1),
{
}

/// Conservation of one settlement: across the directory, balances and
/// frozen amounts plus everything routed to the staking pool change by
/// exactly the dividend amount the settlement reports; the burn skim is
/// accounted inside the routed total. The buyer's entry at `skip` is
/// required unchanged here; the operations state its change separately.
pub proof fn lemma_settled_conserves(
    s0: Seq<Account>,
    s1: Seq<Account>,
    out: OpOutcome,
    root: u64,
    max_level: int,
    buyer: u64,
    start: u64,
    lv: u8,
    price: u64,
    now: u64,
    skip: int,
)
    requires
        directory_wf(s0, root, max_level),
        has_wallet(s0, start),
        (lv as int) < max_level,
        settled_rel(s0, s1, out, root, max_level, buyer, start, lv as int, price, now, skip),
        s1.len() == s0.len(),
        skip == -1 || (0 <= skip < s0.len() && s1[skip] == s0[skip]),
    ensures
        crate::account::total_credit(s1) + out.to_staking == crate::account::total_credit(s0)
            + out.dividend.amount,
{
    let level = lv as int;
    let n = s0.len() as int;
    let si = choose|si: int| wallet_at(s0, start, si);
    lemma_settle_indices(s0, root, max_level, buyer, start, lv, si);
    crate::resolver::lemma_resolve_found_props(s0, buyer, start, lv, s0.len());
    let rr = resolve_spec(s0, buyer, start, lv, s0.len());
    let ri = rr->idx;
    let rcv = s0[ri];
    if rcv.wallet != start {
        assert(s1 =~= s0.update(ri, s1[ri]));
        crate::account::lemma_total_credit_update(s0, ri, s1[ri]);
    } else {
        let slot0 = rcv.slots@[level];
        if !spec_cycled(slot0) {
            assert(s1 =~= s0.update(ri, s1[ri]));
            crate::account::lemma_total_credit_update(s0, ri, s1[ri]);
            crate::account::lemma_frozen_sum_update(rcv.slots@, level, s1[ri].slots@[level]);
        } else {
            let anc_start = if rcv.referrer == 0 {
                root
            } else {
                rcv.referrer
            };
            let anc = ancestor_spec(s0, root, anc_start, lv, s0.len());
            if anc is AncFound {
                crate::resolver::lemma_ancestor_found_props(s0, root, anc_start, lv, s0.len());
            }
            match anc {
                SpecAncestor::AncRoot => {
                    assert(s1 =~= s0.update(ri, s1[ri]));
                    crate::account::lemma_total_credit_update(s0, ri, s1[ri]);
                    crate::account::lemma_frozen_sum_update(
                        rcv.slots@,
                        level,
                        s1[ri].slots@[level],
                    );
                },
                SpecAncestor::AncFound { idx: ai } => {
                    let smid = s0.update(ri, s1[ri]);
                    assert(s1 =~= smid.update(ai, s1[ai]));
                    crate::account::lemma_total_credit_update(s0, ri, s1[ri]);
                    crate::account::lemma_total_credit_update(smid, ai, s1[ai]);
                    assert(smid[ai] == s0[ai]);
                    crate::account::lemma_frozen_sum_update(
                        rcv.slots@,
                        level,
                        s1[ri].slots@[level],
                    );
                    crate::account::lemma_frozen_sum_update(
                        s0[ai].slots@,
                        level,
                        s1[ai].slots@[level],
                    );
                },
                _ => {},
            }
        }
    }
}

/// Conservation of one registration: the total of balances, frozen
/// amounts and the amount routed to the staking pool grows by exactly the
/// price paid (frozen under the new account) plus the dividend amount the
/// settlement minted for the upline; the burn skim is inside the routed
/// total. The premises are exactly what `registration` ensures on
/// success.
pub proof fn lemma_registration_conserves(
    pre: MatrixLedger,
    post: MatrixLedger,
    out: OpOutcome,
    user: u64,
    referrer: u64,
    now: u64,
)
    requires
        pre.wf(),
        registration_check(pre, user, referrer) is None,
        post.accounts@.len() == pre.accounts@.len() + 1,
        settled_rel(
            pre.accounts@,
            post.accounts@,
            out,
            pre.root,
            pre.prices@.len() as int,
            user,
            referrer,
            0,
            pre.prices@[0],
            now,
            -1,
        ),
        ({
            let b = post.accounts@.last();
            &&& b.balance == 0
            &&& b.slots@ =~= seq![
                MatrixSlot { frozen: pre.prices@[0], ..spec_fresh_slot(now) },
            ]
        }),
    ensures
        crate::account::total_credit(post.accounts@) + out.to_staking
            == crate::account::total_credit(pre.accounts@) + out.price + out.dividend.amount,
{
    let s0 = pre.accounts@;
    let s1 = post.accounts@;
    let spre = s1.drop_last();
    assert(settled_rel(
        s0,
        spre,
        out,
        pre.root,
        pre.prices@.len() as int,
        user,
        referrer,
        0,
        pre.prices@[0],
        now,
        -1,
    )) by {
        let rr = resolve_spec(s0, user, referrer, 0u8, s0.len());
        let si = choose|si: int| wallet_at(s0, referrer, si);
        lemma_settle_indices(s0, pre.root, pre.prices@.len() as int, user, referrer, 0, si);
        assert(forall|k: int| 0 <= k < s0.len() ==> spre[k] == s1[k]);
    }
    lemma_settled_conserves(
        s0,
        spre,
        out,
        pre.root,
        pre.prices@.len() as int,
        user,
        referrer,
        0,
        pre.prices@[0],
        now,
        -1,
    );
    assert(s1 =~= spre.push(s1.last()));
    crate::account::lemma_total_credit_push(spre, s1.last());
    assert(crate::account::frozen_sum(s1.last().slots@) == pre.prices@[0]) by {
        let bs = s1.last().slots@;
        assert(bs.len() == 1);
        assert(bs.last().frozen == pre.prices@[0]);
        assert(bs.drop_last() =~= Seq::<MatrixSlot>::empty());
        assert(crate::account::frozen_sum(bs.drop_last()) == 0);
    }
}

/// Conservation of one level purchase: the total of balances, frozen
/// amounts and the amount routed to the staking pool grows by exactly the
/// price paid (frozen under the buyer's new slot) plus the dividend
/// amount the settlement minted for the upline; the burn skim is inside
/// the routed total. The premises are exactly what `buy_new_level`
/// ensures on success.
pub proof fn lemma_purchase_conserves(
    pre: MatrixLedger,
    post: MatrixLedger,
    out: OpOutcome,
    user: u64,
    lv: u8,
    now: u64,
)
    requires
        pre.wf(),
        buy_check(pre, user, lv as int) is None,
        post.accounts@.len() == pre.accounts@.len(),
        ({
            let s0 = pre.accounts@;
            let bi = index_of_wallet(s0, user);
            &&& settled_rel(
                s0,
                post.accounts@,
                out,
                pre.root,
                pre.prices@.len() as int,
                user,
                s0[bi].referrer,
                lv as int,
                pre.prices@[lv as int],
                now,
                bi,
            )
            &&& buyer_leveled_rel(
                s0[bi],
                post.accounts@[bi],
                lv as int,
                pre.prices@[lv as int],
                now,
            )
        }),
    ensures
        crate::account::total_credit(post.accounts@) + out.to_staking
            == crate::account::total_credit(pre.accounts@) + out.price + out.dividend.amount,
{
    let s0 = pre.accounts@;
    let s1 = post.accounts@;
    let level = lv as int;
    let price = pre.prices@[level];
    let bi = index_of_wallet(s0, user);
    assert(wallet_at(s0, user, bi)) by {
        assert(has_wallet(s0, user));
    }
    let start = s0[bi].referrer;
    let smid = s1.update(bi, s0[bi]);
    assert(settled_rel(
        s0,
        smid,
        out,
        pre.root,
        pre.prices@.len() as int,
        user,
        start,
        level,
        price,
        now,
        bi,
    )) by {
        let si = choose|si: int| wallet_at(s0, start, si);
        assert(referrer_precedes(s0, bi));
        let j = choose|j: int| 0 <= j < bi && (#[trigger] s0[j].wallet) == s0[bi].referrer;
        assert(wallet_at(s0, start, j));
        lemma_settle_indices(s0, pre.root, pre.prices@.len() as int, user, start, lv, j);
        assert(forall|k: int| 0 <= k < s0.len() && k != bi ==> smid[k] == s1[k]);
    }
    lemma_settled_conserves(
        s0,
        smid,
        out,
        pre.root,
        pre.prices@.len() as int,
        user,
        start,
        lv,
        price,
        now,
        bi,
    );
    assert(s1 =~= smid.update(bi, s1[bi]));
    crate::account::lemma_total_credit_update(smid, bi, s1[bi]);
    assert(smid[bi] == s0[bi]);
    // The buyer's credit grows by exactly the price: the fresh slot holds
    // it frozen, and unblocking the previous level moves no value.
    let b0 = s0[bi];
    let b1 = s1[bi];
    let unblocked = if level > 0 && b0.slots@[level - 1].blocked {
        b0.slots@.update(level - 1, MatrixSlot { blocked: false, ..b0.slots@[level - 1] })
    } else {
        b0.slots@
    };
    if level > 0 && b0.slots@[level - 1].blocked {
        crate::account::lemma_frozen_sum_update(
            b0.slots@,
            level - 1,
            MatrixSlot { blocked: false, ..b0.slots@[level - 1] },
        );
    }
    crate::account::lemma_frozen_sum_push(
        unblocked,
        MatrixSlot { frozen: price, ..spec_fresh_slot(now) },
    );
}

} // verus!

verus! {

impl MatrixLedger {
    /// Whether a wallet is registered in the directory.
    pub fn is_user_exists(&self, wallet: u64) -> (b: bool)
        ensures
            b <==> has_wallet(self.accounts@, wallet),
    {
        match find_account_index(&self.accounts, wallet) {
            Some(_) => true,
            None => false,
        }
    }

    /// The balance a wallet could claim right now, if it is registered.
    pub fn balance_of(&self, wallet: u64) -> (r: Option<u64>)
        ensures
            match r {
                Some(amount) => exists|i: int|
                    #[trigger] wallet_at(self.accounts@, wallet, i) && amount
                        == self.accounts@[i].balance,
                None => !has_wallet(self.accounts@, wallet),
            },
    {
        match find_account_index(&self.accounts, wallet) {
            Some(i) => Some(self.accounts[i].balance),
            None => None,
        }
    }
}

} // verus!
