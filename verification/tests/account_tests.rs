use x3_engine::{Account, BoosterEvent, EngineError, MatrixSlot};

fn slot(frozen: u64) -> MatrixSlot {
    MatrixSlot {
        blocked: false,
        referrals: 0,
        cycles: 0,
        frozen,
        activated_at: 0,
        last_cycle_at: 0,
    }
}

fn account_with_frozen(frozen: u64, balance: u64) -> Account {
    Account {
        wallet: 7,
        referrer: 1,
        balance,
        slots: vec![slot(frozen)],
        boosters: Vec::new(),
        booster_capacity: 10,
    }
}

#[test]
fn unfreeze_takes_half_percent_burn() {
    // A frozen 1000 splits into a burn of 5 and a release of 995.
    let mut a = account_with_frozen(1000, 0);
    let r = a.unfreeze(0);
    assert_eq!(r, Ok(Some(5)));
    assert_eq!(a.balance, 995);
    assert_eq!(a.slots[0].frozen, 0);
}

#[test]
fn unfreeze_conserves_credit_minus_burn() {
    // Balance plus frozen drops by exactly the burn skim.
    let mut a = account_with_frozen(123_456, 1_000);
    let before = a.balance + a.slots[0].frozen;
    let burn = a.unfreeze(0).unwrap().unwrap();
    assert_eq!(burn, 123_456 / 200);
    assert_eq!(a.balance + a.slots[0].frozen, before - burn);
}

#[test]
fn unfreeze_small_amount_burns_nothing() {
    let mut a = account_with_frozen(199, 0);
    assert_eq!(a.unfreeze(0), Ok(Some(0)));
    assert_eq!(a.balance, 199);
}

#[test]
fn unfreeze_nothing_is_a_noop() {
    let mut a = account_with_frozen(0, 42);
    assert_eq!(a.unfreeze(0), Ok(None));
    assert_eq!(a.balance, 42);
}

#[test]
fn unfreeze_overflow_aborts_whole_call() {
    let mut a = account_with_frozen(1000, u64::MAX);
    assert_eq!(a.unfreeze(0), Err(EngineError::Overflow));
    assert_eq!(a.balance, u64::MAX);
    assert_eq!(a.slots[0].frozen, 1000);
}

#[test]
fn active_levels_are_prefix_closed() {
    // A slot exists exactly for the contiguous levels below the vector's
    // length, so an active level means every lower level is active.
    let a = Account {
        wallet: 7,
        referrer: 1,
        balance: 0,
        slots: vec![slot(0), slot(0), slot(0)],
        boosters: Vec::new(),
        booster_capacity: 10,
    };
    assert!(x3_engine::account::is_level_active(&a, 2));
    assert!(x3_engine::account::is_level_active(&a, 1));
    assert!(x3_engine::account::is_level_active(&a, 0));
    assert!(!x3_engine::account::is_level_active(&a, 3));
}

#[test]
fn booster_capacity_doubles_when_full() {
    let mut a = account_with_frozen(0, 0);
    assert_eq!(a.booster_capacity, 10);
    for i in 0..10 {
        a.append_booster(i, 0).unwrap();
    }
    assert_eq!(a.booster_capacity, 10);
    // The eleventh entry finds the log full and doubles the capacity.
    a.append_booster(10, 0).unwrap();
    assert_eq!(a.booster_capacity, 20);
    assert_eq!(a.boosters.len(), 11);
    assert_eq!(a.boosters[10], BoosterEvent { created_at: 10, level: 0 });
}

#[test]
fn booster_capacity_stops_at_ceiling() {
    let mut a = account_with_frozen(0, 0);
    for i in 0..100 {
        a.append_booster(i, 0).unwrap();
    }
    assert_eq!(a.booster_capacity, 100);
    assert_eq!(
        a.append_booster(100, 0),
        Err(EngineError::ExcessiveBoosterCapacity)
    );
    assert_eq!(a.boosters.len(), 100);
}

#[test]
fn open_account_starts_at_level_zero() {
    let a = Account::open_account(5, 1, 42);
    assert_eq!(a.wallet, 5);
    assert_eq!(a.referrer, 1);
    assert_eq!(a.balance, 0);
    assert_eq!(a.slots.len(), 1);
    assert_eq!(a.slots[0].activated_at, 42);
    assert_eq!(a.slots[0].frozen, 0);
    assert_eq!(a.boosters.len(), 0);
    assert_eq!(a.booster_capacity, 10);
}
