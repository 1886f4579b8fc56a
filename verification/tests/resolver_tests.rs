use x3_engine::resolver::{find_account_index, find_pass_up_ancestor, resolve_receiver};
use x3_engine::{Account, EngineError, MissMode, MatrixSlot};

fn slot(blocked: bool) -> MatrixSlot {
    MatrixSlot {
        blocked,
        referrals: 0,
        cycles: 0,
        frozen: 0,
        activated_at: 0,
        last_cycle_at: 0,
    }
}

fn account(wallet: u64, referrer: u64, slots: Vec<MatrixSlot>) -> Account {
    Account {
        wallet,
        referrer,
        balance: 0,
        slots,
        boosters: Vec::new(),
        booster_capacity: 10,
    }
}

#[test]
fn resolution_skips_blocked_and_returns_first_open_ancestor() {
    // Chain: buyer's referrer is A (blocked), whose referrer is B
    // (active): B receives, and exactly one missed-receive notice is
    // emitted, for A.
    let accounts = vec![
        account(1, 0, vec![slot(false)]),
        account(3, 1, vec![slot(false)]), // B, active and open
        account(2, 3, vec![slot(true)]),  // A, active but blocked
    ];
    let (idx, missed) = resolve_receiver(&accounts, 9, 2, 0, 3).unwrap();
    assert_eq!(accounts[idx].wallet, 3);
    assert_eq!(missed.len(), 1);
    assert_eq!(missed[0].receiver, 2);
    assert_eq!(missed[0].from, 9);
    assert_eq!(missed[0].mode, MissMode::Blocked);
}

#[test]
fn resolution_tags_missing_level_as_overtaken() {
    let accounts = vec![
        account(1, 0, vec![slot(false), slot(false)]),
        account(2, 1, vec![slot(false)]), // no slot for level 1
    ];
    let (idx, missed) = resolve_receiver(&accounts, 9, 2, 1, 2).unwrap();
    assert_eq!(accounts[idx].wallet, 1);
    assert_eq!(missed.len(), 1);
    assert_eq!(missed[0].receiver, 2);
    assert_eq!(missed[0].mode, MissMode::Overtaken);
}

#[test]
fn resolution_reports_missing_upline_account() {
    let accounts = vec![account(1, 0, vec![slot(false)])];
    let r = resolve_receiver(&accounts, 9, 5, 0, 2);
    assert_eq!(r.unwrap_err(), EngineError::MissingUplineAccount);
}

#[test]
fn resolution_stops_at_its_hop_budget() {
    // Two accounts referring to each other, neither with the level
    // active: the walk must stop with the distinct hop-limit error
    // rather than loop.
    let accounts = vec![account(2, 3, Vec::new()), account(3, 2, Vec::new())];
    let r = resolve_receiver(&accounts, 9, 2, 0, 10);
    assert_eq!(r.unwrap_err(), EngineError::HopLimitExceeded);
}

#[test]
fn pass_up_walk_finds_nearest_ancestor_with_level() {
    let accounts = vec![
        account(1, 0, vec![slot(false), slot(false)]),
        account(3, 1, vec![slot(false), slot(true)]), // blocked still receives pass-ups
        account(2, 3, vec![slot(false)]),
    ];
    let r = find_pass_up_ancestor(&accounts, 1, 2, 1, 3).unwrap();
    assert_eq!(accounts[r.unwrap()].wallet, 3);
}

#[test]
fn pass_up_walk_ends_at_root() {
    let accounts = vec![
        account(1, 0, vec![slot(false)]),
        account(2, 1, Vec::new()),
    ];
    // Wallet 2 has no slot for the level, so the walk climbs to the root.
    let r = find_pass_up_ancestor(&accounts, 1, 2, 0, 2).unwrap();
    assert_eq!(r, None);
}

#[test]
fn directory_lookup_finds_wallets() {
    let accounts = vec![account(1, 0, Vec::new()), account(8, 1, Vec::new())];
    assert_eq!(find_account_index(&accounts, 8), Some(1));
    assert_eq!(find_account_index(&accounts, 9), None);
}
