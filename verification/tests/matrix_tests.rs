use x3_engine::{DividendTag, EngineError, MatrixLedger, MissMode};

const ROOT: u64 = 1;

fn ledger(prices: Vec<u64>) -> MatrixLedger {
    MatrixLedger::new(ROOT, prices, 0).unwrap()
}

fn account<'a>(l: &'a MatrixLedger, wallet: u64) -> &'a x3_engine::Account {
    l.accounts.iter().find(|a| a.wallet == wallet).unwrap()
}

/// Everything the directory owes: balances plus frozen amounts.
fn total_credit(l: &MatrixLedger) -> u128 {
    l.accounts
        .iter()
        .map(|a| a.balance as u128 + a.slots.iter().map(|s| s.frozen as u128).sum::<u128>())
        .sum()
}

#[test]
fn registration_under_root_routes_half_to_staking() {
    // Price list [100]: the buyer's own payment is frozen under the
    // buyer's slot, the root is credited nothing directly, and the
    // root's half-price dividend is routed to the staking pool.
    let mut l = ledger(vec![100]);
    let out = l.registration(2, ROOT, 5).unwrap();
    assert_eq!(out.price, 100);
    assert_eq!(out.to_staking, 50);
    assert_eq!(out.burned, 0);
    assert_eq!(out.receiver, ROOT);
    assert_eq!(out.missed.len(), 0);
    assert_eq!(out.dividend.amount, 50);
    assert_eq!(out.dividend.tag, DividendTag::Simple);
    assert_eq!(account(&l, ROOT).balance, 0);
    assert_eq!(account(&l, ROOT).slots[0].referrals, 1);
    assert_eq!(account(&l, 2).slots[0].frozen, 100);
    assert_eq!(account(&l, 2).referrer, ROOT);
}

#[test]
fn registration_accounting_adds_price_plus_dividend() {
    // Across one operation, balances plus frozen amounts plus the routed
    // total change by exactly the price paid plus the minted dividend.
    let mut l = ledger(vec![100]);
    l.registration(2, ROOT, 5).unwrap();
    let before = total_credit(&l);
    let out = l.registration(3, 2, 6).unwrap();
    let after = total_credit(&l);
    assert_eq!(
        after + out.to_staking as u128,
        before + out.price as u128 + out.dividend.amount as u128
    );
}

#[test]
fn referral_count_cycles_at_three() {
    // The referrer's slot counts 1, 2 and then resets to 0 with the
    // cycle counter bumped by exactly one.
    let mut l = ledger(vec![100]);
    l.registration(2, ROOT, 1).unwrap();
    l.registration(10, 2, 2).unwrap();
    assert_eq!(account(&l, 2).slots[0].referrals, 1);
    l.registration(11, 2, 3).unwrap();
    assert_eq!(account(&l, 2).slots[0].referrals, 2);
    assert_eq!(account(&l, 2).slots[0].cycles, 0);
    let out = l.registration(12, 2, 4).unwrap();
    let a = account(&l, 2);
    assert_eq!(a.slots[0].referrals, 0);
    assert_eq!(a.slots[0].cycles, 1);
    assert_eq!(a.slots[0].last_cycle_at, 4);
    assert_eq!(out.cycle.unwrap().cycles, 1);
    assert_eq!(out.placement.unwrap().place, 3);
}

#[test]
fn cycle_releases_frozen_and_passes_price_up() {
    // Two registrations freeze half-price dividends under the referrer;
    // the third completes the cycle, releases them (minus the burn) and
    // passes the full price up, here to the root's staking pool.
    let mut l = ledger(vec![100]);
    l.registration(2, ROOT, 1).unwrap();
    l.registration(10, 2, 2).unwrap();
    l.registration(11, 2, 3).unwrap();
    // The referrer's own payment (100) plus two half-price dividends.
    assert_eq!(account(&l, 2).slots[0].frozen, 200);
    let out = l.registration(12, 2, 4).unwrap();
    let a = account(&l, 2);
    assert_eq!(a.slots[0].frozen, 0);
    assert_eq!(a.balance, 199); // 200 frozen, minus the burn 200/200 = 1
    assert_eq!(out.unfrozen.unwrap().released, 199);
    assert_eq!(out.unfrozen.unwrap().burned, 1);
    assert_eq!(out.burned, 1);
    assert_eq!(out.to_staking, 101); // the passed-up price plus the burn
    assert_eq!(out.dividend.amount, 100);
    assert_eq!(out.dividend.receiver, ROOT);
    assert_eq!(out.dividend.tag, DividendTag::Extra);
}

#[test]
fn second_cycle_appends_booster() {
    let mut l = ledger(vec![100]);
    l.registration(2, ROOT, 1).unwrap();
    for (i, w) in [10, 11, 12].iter().enumerate() {
        l.registration(*w, 2, 2 + i as u64).unwrap();
    }
    assert_eq!(account(&l, 2).boosters.len(), 0); // first cycle: no booster
    for (i, w) in [13, 14, 15].iter().enumerate() {
        l.registration(*w, 2, 10 + i as u64).unwrap();
    }
    let a = account(&l, 2);
    assert_eq!(a.slots[0].cycles, 2);
    assert_eq!(a.boosters.len(), 1);
    assert_eq!(a.boosters[0].created_at, 12);
    assert_eq!(a.boosters[0].level, 0);
}

#[test]
fn cycle_blocks_slot_until_next_level_is_bought() {
    // With a second level configured, a cycle blocks the slot; buying
    // the next level unblocks it.
    let mut l = ledger(vec![100, 200]);
    l.registration(2, ROOT, 1).unwrap();
    for w in [10, 11, 12] {
        l.registration(w, 2, 2).unwrap();
    }
    assert!(account(&l, 2).slots[0].blocked);
    let out = l.buy_new_level(2, 1, 20).unwrap();
    assert_eq!(out.price, 200);
    let a = account(&l, 2);
    assert!(!a.slots[0].blocked);
    assert_eq!(a.slots.len(), 2);
    assert_eq!(a.slots[1].frozen, 200);
    assert_eq!(a.slots[1].activated_at, 20);
}

#[test]
fn blocked_referrer_is_overtaken_with_one_missed_notice() {
    // A registration under a blocked referrer pays half the price to the
    // next open ancestor and reports exactly one missed receive.
    let mut l = ledger(vec![100, 200]);
    l.registration(2, ROOT, 1).unwrap();
    for w in [10, 11, 12] {
        l.registration(w, 2, 2).unwrap();
    }
    assert!(account(&l, 2).slots[0].blocked);
    let out = l.registration(20, 2, 30).unwrap();
    assert_eq!(out.receiver, ROOT);
    assert_eq!(out.missed.len(), 1);
    assert_eq!(out.missed[0].receiver, 2);
    assert_eq!(out.missed[0].mode, MissMode::Blocked);
    assert_eq!(out.dividend.tag, DividendTag::Extra);
    assert_eq!(out.dividend.amount, 50);
    assert_eq!(out.to_staking, 50); // the root's share goes to the pool
    assert_eq!(account(&l, 20).slots[0].frozen, 100);
}

#[test]
fn overtake_credits_non_root_receiver_balance() {
    let mut l = ledger(vec![100, 200]);
    l.registration(2, ROOT, 1).unwrap();
    l.registration(3, 2, 2).unwrap();
    l.buy_new_level(2, 1, 3).unwrap();
    // Wallet 3 has no level 1, so buying level 1 under it overtakes to
    // wallet 2, whose balance is credited half the price.
    l.registration(4, 3, 4).unwrap();
    let balance_before = account(&l, 2).balance;
    let out = l.buy_new_level(4, 1, 5).unwrap();
    assert_eq!(out.receiver, 2);
    assert_eq!(out.missed.len(), 1);
    assert_eq!(out.missed[0].mode, MissMode::Overtaken);
    assert_eq!(out.to_staking, 0);
    assert_eq!(account(&l, 2).balance, balance_before + 100); // 200 / 2
}

#[test]
fn registration_validations_reject_bad_input() {
    let mut l = ledger(vec![100]);
    assert_eq!(l.registration(2, 0, 1), Err(EngineError::InvalidReferrer));
    assert_eq!(
        l.registration(2, 9, 1),
        Err(EngineError::InvalidReferrerAccount)
    );
    assert_eq!(
        l.registration(ROOT, ROOT, 1),
        Err(EngineError::InvalidReferrer)
    );
    assert_eq!(l.registration(0, ROOT, 1), Err(EngineError::InvalidUser));
    l.registration(2, ROOT, 1).unwrap();
    assert_eq!(
        l.registration(2, ROOT, 2),
        Err(EngineError::UserAlreadyExists)
    );
    let mut empty = MatrixLedger::new(ROOT, Vec::new(), 0).unwrap();
    assert_eq!(
        empty.registration(2, ROOT, 1),
        Err(EngineError::LevelOutOfRange)
    );
}

#[test]
fn purchase_validations_reject_bad_input() {
    let mut l = ledger(vec![100, 200, 300]);
    l.registration(2, ROOT, 1).unwrap();
    assert_eq!(l.buy_new_level(9, 1, 2), Err(EngineError::UserNotExists));
    assert_eq!(l.buy_new_level(2, 3, 2), Err(EngineError::LevelOutOfRange));
    assert_eq!(
        l.buy_new_level(2, 0, 2),
        Err(EngineError::LevelAlreadyActive)
    );
    assert_eq!(
        l.buy_new_level(2, 2, 2),
        Err(EngineError::PreviousLevelRequired)
    );
}

#[test]
fn pause_disables_registrations_and_purchases() {
    let mut l = ledger(vec![100]);
    l.registration(2, ROOT, 1).unwrap();
    l.pause();
    assert_eq!(l.registration(3, ROOT, 2), Err(EngineError::ContractPaused));
    assert_eq!(l.buy_new_level(2, 0, 2), Err(EngineError::ContractPaused));
    l.unpause();
    l.registration(3, ROOT, 3).unwrap();
}

#[test]
fn claim_withdraws_whole_balance_once() {
    let mut l = ledger(vec![100]);
    l.registration(2, ROOT, 1).unwrap();
    for w in [10, 11, 12] {
        l.registration(w, 2, 2).unwrap();
    }
    assert_eq!(account(&l, 2).balance, 199);
    assert_eq!(l.claim(2), Ok(199));
    assert_eq!(account(&l, 2).balance, 0);
    assert_eq!(l.claim(2), Err(EngineError::NothingToClaim));
    assert_eq!(l.claim(9), Err(EngineError::UserNotExists));
}

#[test]
fn update_prices_extends_root_levels() {
    let mut l = ledger(vec![100]);
    assert_eq!(account(&l, ROOT).slots.len(), 1);
    l.update_prices(vec![100, 200, 300], 7).unwrap();
    let root = account(&l, ROOT);
    assert_eq!(root.slots.len(), 3);
    assert_eq!(root.slots[2].activated_at, 7);
    // The new level is now buyable.
    l.registration(2, ROOT, 8).unwrap();
    l.buy_new_level(2, 1, 9).unwrap();
    assert_eq!(account(&l, 2).slots.len(), 2);
}

#[test]
fn level_space_is_bounded() {
    assert_eq!(
        MatrixLedger::new(ROOT, vec![1; 256], 0).unwrap_err(),
        EngineError::TooManyLevels
    );
    assert_eq!(
        MatrixLedger::new(0, vec![1], 0).unwrap_err(),
        EngineError::InvalidUser
    );
    let mut l = ledger(vec![100]);
    assert_eq!(
        l.update_prices(vec![1; 256], 0),
        Err(EngineError::TooManyLevels)
    );
}

#[test]
fn failed_operation_changes_nothing() {
    let mut l = ledger(vec![100]);
    l.registration(2, ROOT, 1).unwrap();
    let credit = total_credit(&l);
    let accounts = l.accounts.len();
    assert!(l.registration(2, ROOT, 2).is_err());
    assert!(l.buy_new_level(9, 0, 2).is_err());
    assert_eq!(total_credit(&l), credit);
    assert_eq!(l.accounts.len(), accounts);
}

#[test]
fn directory_queries_report_registration() {
    let mut l = ledger(vec![100]);
    assert!(l.is_user_exists(ROOT));
    assert!(!l.is_user_exists(2));
    l.registration(2, ROOT, 1).unwrap();
    assert!(l.is_user_exists(2));
    assert_eq!(l.balance_of(2), Some(0));
    assert_eq!(l.balance_of(9), None);
}
