use x3_engine::{
    stake, unstake, update_user_rewards, Account, Boost, BoosterEvent, EngineError,
    MatrixSlot, Pool, StakeKind, StakingLimit, UserStake,
};

const YEAR: u64 = 31_536_000;

fn limit(min: u64, max: u64, period: u64, apy_bps: u64, boost: Boost) -> StakingLimit {
    StakingLimit {
        min,
        max,
        period,
        apy_bps,
        boost_by_cycle: boost,
    }
}

fn pool_with(limits: Vec<StakingLimit>) -> Pool {
    let mut p = Pool::new();
    p.update_limits(limits).unwrap();
    p
}

/// A matrix account with the given earned cycles at level 0 and the
/// given booster log.
fn matrix_account(wallet: u64, cycles: u32, boosters: Vec<BoosterEvent>) -> Account {
    Account {
        wallet,
        referrer: 1,
        balance: 0,
        slots: vec![MatrixSlot {
            blocked: false,
            referrals: 0,
            cycles,
            frozen: 0,
            activated_at: 0,
            last_cycle_at: 0,
        }],
        boosters,
        booster_capacity: 10,
    }
}

#[test]
fn one_year_at_ten_percent_yields_exact_reward() {
    // amountStaked 1_000_000, apyBps 1000, dt one year: reward 100_000.
    let mut pool = pool_with(vec![limit(
        1,
        10_000_000,
        2 * YEAR,
        1000,
        Boost { apy: 0, period: 0 },
    )]);
    let mut user = UserStake::new(7);
    let acct = matrix_account(7, 1, Vec::new());
    stake(&mut pool, &mut user, &acct, 0, 1_000_000, 0).unwrap();
    let reports = update_user_rewards(&pool, &mut user, &acct, YEAR).unwrap();
    assert_eq!(user.staking_by_level[0].rewards_accrued, 100_000);
    assert_eq!(reports.len(), 1);
    assert_eq!(reports[0].accrued_amount, 100_000);
    assert_eq!(reports[0].boost_rewards, 0);
}

#[test]
fn accrual_is_idempotent_at_fixed_time() {
    // A second settlement at an unchanged `now` adds zero reward.
    let mut pool = pool_with(vec![limit(
        1,
        10_000_000,
        2 * YEAR,
        1000,
        Boost { apy: 0, period: 0 },
    )]);
    let mut user = UserStake::new(7);
    let acct = matrix_account(7, 1, Vec::new());
    stake(&mut pool, &mut user, &acct, 0, 1_000_000, 0).unwrap();
    update_user_rewards(&pool, &mut user, &acct, 12345).unwrap();
    let settled = user.staking_by_level[0];
    let reports = update_user_rewards(&pool, &mut user, &acct, 12345).unwrap();
    assert_eq!(reports.len(), 0);
    assert_eq!(user.staking_by_level[0], settled);
}

#[test]
fn full_window_booster_adds_to_base_reward() {
    // A booster covering the whole settlement window contributes exactly
    // the boost-only computation, on top of the base reward.
    let mut pool = pool_with(vec![limit(
        1,
        u64::MAX,
        2 * YEAR,
        1000,
        Boost {
            apy: 500,
            period: 2 * YEAR,
        },
    )]);
    let mut user = UserStake::new(7);
    let acct = matrix_account(
        7,
        2,
        vec![BoosterEvent {
            created_at: 0,
            level: 0,
        }],
    );
    stake(&mut pool, &mut user, &acct, 0, 1_000_000_000, 0).unwrap();
    let reports = update_user_rewards(&pool, &mut user, &acct, YEAR).unwrap();
    let pos = user.staking_by_level[0];
    assert_eq!(pos.rewards_accrued, 100_000_000 + 50_000_000);
    assert_eq!(pos.boost_rewards_total, 50_000_000);
    assert_eq!(reports[0].accrued_amount, 150_000_000);
    assert_eq!(reports[0].boost_rewards, 50_000_000);
}

#[test]
fn booster_outside_window_contributes_nothing() {
    // A boost window that closed before the settlement window opened
    // adds nothing.
    let mut pool = pool_with(vec![limit(
        1,
        u64::MAX,
        10 * YEAR,
        1000,
        Boost {
            apy: 500,
            period: 100,
        },
    )]);
    let mut user = UserStake::new(7);
    let acct = matrix_account(
        7,
        2,
        vec![BoosterEvent {
            created_at: 0,
            level: 0,
        }],
    );
    stake(&mut pool, &mut user, &acct, 0, 1_000_000_000, 1000).unwrap();
    update_user_rewards(&pool, &mut user, &acct, 1000 + YEAR).unwrap();
    assert_eq!(user.staking_by_level[0].boost_rewards_total, 0);
    assert_eq!(user.staking_by_level[0].rewards_accrued, 100_000_000);
}

#[test]
fn fresh_stake_needs_amount_within_band() {
    let mut pool = pool_with(vec![limit(
        100,
        1000,
        YEAR,
        1000,
        Boost { apy: 0, period: 0 },
    )]);
    let mut user = UserStake::new(7);
    let acct = matrix_account(7, 1, Vec::new());
    assert_eq!(
        stake(&mut pool, &mut user, &acct, 0, 99, 0),
        Err(EngineError::AmountOutOfLimits)
    );
    assert_eq!(
        stake(&mut pool, &mut user, &acct, 0, 1001, 0),
        Err(EngineError::AmountOutOfLimits)
    );
    assert_eq!(pool.total_staked, 0);
    stake(&mut pool, &mut user, &acct, 0, 100, 0).unwrap();
    assert_eq!(pool.total_staked, 100);
}

#[test]
fn fresh_stake_needs_a_staking_right() {
    let mut pool = pool_with(vec![limit(
        1,
        1000,
        YEAR,
        1000,
        Boost { apy: 0, period: 0 },
    )]);
    let mut user = UserStake::new(7);
    let no_cycles = matrix_account(7, 0, Vec::new());
    assert_eq!(
        stake(&mut pool, &mut user, &no_cycles, 0, 100, 0),
        Err(EngineError::NoStakingRights)
    );
    // One earned cycle grants exactly one right.
    let one_cycle = matrix_account(7, 1, Vec::new());
    let out = stake(&mut pool, &mut user, &one_cycle, 0, 100, 0).unwrap();
    assert_eq!(out.kind, StakeKind::NewStake);
    assert_eq!(user.staking_by_level[0].cycle_used, 1);
    // After closing, reopening needs a second cycle.
    unstake(&mut pool, &mut user, &one_cycle, 0, YEAR).unwrap();
    assert_eq!(
        stake(&mut pool, &mut user, &one_cycle, 0, 100, 2 * YEAR),
        Err(EngineError::NoStakingRights)
    );
    let two_cycles = matrix_account(7, 2, Vec::new());
    let out = stake(&mut pool, &mut user, &two_cycles, 0, 100, 2 * YEAR).unwrap();
    assert_eq!(out.kind, StakeKind::Restake);
}

#[test]
fn additions_run_only_while_period_lasts() {
    let mut pool = pool_with(vec![limit(
        1,
        1000,
        YEAR,
        1000,
        Boost { apy: 0, period: 0 },
    )]);
    let mut user = UserStake::new(7);
    let acct = matrix_account(7, 1, Vec::new());
    stake(&mut pool, &mut user, &acct, 0, 100, 0).unwrap();
    let out = stake(&mut pool, &mut user, &acct, 0, 200, 10).unwrap();
    assert_eq!(out.kind, StakeKind::AddToStake);
    assert_eq!(out.total_amount, 300);
    assert_eq!(pool.total_staked, 300);
    // The total may not leave the band's top.
    assert_eq!(
        stake(&mut pool, &mut user, &acct, 0, 800, 20),
        Err(EngineError::AmountOutOfLimits)
    );
    // At or past the period's end, additions are refused.
    assert_eq!(
        stake(&mut pool, &mut user, &acct, 0, 10, YEAR),
        Err(EngineError::StakingPeriodEnded)
    );
}

#[test]
fn close_before_period_end_fails_with_state_error() {
    let mut pool = pool_with(vec![limit(
        1,
        10_000_000,
        YEAR,
        1000,
        Boost { apy: 0, period: 0 },
    )]);
    let mut user = UserStake::new(7);
    let acct = matrix_account(7, 1, Vec::new());
    stake(&mut pool, &mut user, &acct, 0, 1_000_000, 0).unwrap();
    let e = unstake(&mut pool, &mut user, &acct, 0, YEAR - 1).unwrap_err();
    assert_eq!(e, EngineError::StakingPeriodNotEnded);
    assert_eq!(e.category(), x3_engine::ErrorCategory::State);
    // At the period's end it succeeds and zeroes the position.
    let out = unstake(&mut pool, &mut user, &acct, 0, YEAR).unwrap();
    assert_eq!(out.amount, 1_000_000);
    assert_eq!(out.rewards, 100_000);
    assert_eq!(out.payout, 1_100_000);
    let pos = user.staking_by_level[0];
    assert_eq!(pos.amount_staked, 0);
    assert_eq!(pos.rewards_accrued, 0);
    assert_eq!(pos.start_staking_time, 0);
    assert_eq!(pos.last_update_ts, YEAR);
    assert_eq!(pool.total_staked, 0);
}

#[test]
fn rewards_stop_at_period_end() {
    // Settling long after the period ended pays only through its end.
    let mut pool = pool_with(vec![limit(
        1,
        10_000_000,
        YEAR,
        1000,
        Boost { apy: 0, period: 0 },
    )]);
    let mut user = UserStake::new(7);
    let acct = matrix_account(7, 1, Vec::new());
    stake(&mut pool, &mut user, &acct, 0, 1_000_000, 0).unwrap();
    let out = unstake(&mut pool, &mut user, &acct, 0, 3 * YEAR).unwrap();
    assert_eq!(out.rewards, 100_000);
}

#[test]
fn staking_engine_rejects_foreign_matrix_account() {
    let mut pool = pool_with(vec![limit(
        1,
        1000,
        YEAR,
        1000,
        Boost { apy: 0, period: 0 },
    )]);
    let mut user = UserStake::new(7);
    let other = matrix_account(8, 3, Vec::new());
    assert_eq!(
        stake(&mut pool, &mut user, &other, 0, 100, 0),
        Err(EngineError::InvalidExternalState)
    );
    assert_eq!(
        update_user_rewards(&pool, &mut user, &other, 0),
        Err(EngineError::InvalidExternalState)
    );
}

#[test]
fn fresh_stake_needs_the_matrix_level() {
    let mut pool = pool_with(vec![
        limit(1, 1000, YEAR, 1000, Boost { apy: 0, period: 0 }),
        limit(1, 1000, YEAR, 1000, Boost { apy: 0, period: 0 }),
    ]);
    let mut user = UserStake::new(7);
    let acct = matrix_account(7, 1, Vec::new()); // level 0 only
    assert_eq!(
        stake(&mut pool, &mut user, &acct, 1, 100, 0),
        Err(EngineError::InsufficientMatrixLevel)
    );
}

#[test]
fn staking_level_must_be_configured() {
    let mut pool = pool_with(vec![limit(
        1,
        1000,
        YEAR,
        1000,
        Boost { apy: 0, period: 0 },
    )]);
    let mut user = UserStake::new(7);
    let acct = matrix_account(7, 1, Vec::new());
    assert_eq!(
        stake(&mut pool, &mut user, &acct, 1, 100, 0),
        Err(EngineError::LevelOutOfRange)
    );
    assert_eq!(
        unstake(&mut pool, &mut user, &acct, 1, 0),
        Err(EngineError::LevelOutOfRange)
    );
}

#[test]
fn nothing_to_unstake_on_closed_position() {
    let mut pool = pool_with(vec![limit(
        1,
        1000,
        YEAR,
        1000,
        Boost { apy: 0, period: 0 },
    )]);
    let mut user = UserStake::new(7);
    let acct = matrix_account(7, 1, Vec::new());
    stake(&mut pool, &mut user, &acct, 0, 100, 0).unwrap();
    unstake(&mut pool, &mut user, &acct, 0, YEAR).unwrap();
    assert_eq!(
        unstake(&mut pool, &mut user, &acct, 0, YEAR),
        Err(EngineError::NothingToUnstake)
    );
}

#[test]
fn limits_are_validated() {
    let mut pool = Pool::new();
    let bad = vec![limit(10, 5, YEAR, 1000, Boost { apy: 0, period: 0 })];
    assert_eq!(pool.update_limits(bad), Err(EngineError::InvalidLimits));
    let too_many = vec![limit(1, 2, YEAR, 1000, Boost { apy: 0, period: 0 }); 15];
    assert_eq!(
        pool.update_limits(too_many),
        Err(EngineError::TooManyLevels)
    );
    assert_eq!(pool.staking_limits_by_level.len(), 0);
}

#[test]
fn addition_settles_pending_rewards_first() {
    let mut pool = pool_with(vec![limit(
        1,
        10_000_000,
        2 * YEAR,
        1000,
        Boost { apy: 0, period: 0 },
    )]);
    let mut user = UserStake::new(7);
    let acct = matrix_account(7, 1, Vec::new());
    stake(&mut pool, &mut user, &acct, 0, 1_000_000, 0).unwrap();
    let out = stake(&mut pool, &mut user, &acct, 0, 1_000_000, YEAR).unwrap();
    // The first million earned a year at 10% before the addition landed.
    assert_eq!(out.accrued.len(), 1);
    assert_eq!(out.accrued[0].accrued_amount, 100_000);
    let pos = user.staking_by_level[0];
    assert_eq!(pos.amount_staked, 2_000_000);
    assert_eq!(pos.rewards_accrued, 100_000);
    assert_eq!(pos.last_update_ts, YEAR);
    assert_eq!(pos.start_staking_time, 0);
}

#[test]
fn matrix_cycles_query_checks_owner_and_level() {
    let acct = matrix_account(7, 3, Vec::new());
    assert_eq!(x3_engine::get_x3_cycles(&acct, 7, 0), Ok(3));
    assert_eq!(
        x3_engine::get_x3_cycles(&acct, 8, 0),
        Err(EngineError::InvalidExternalState)
    );
    assert_eq!(
        x3_engine::get_x3_cycles(&acct, 7, 1),
        Err(EngineError::InsufficientMatrixLevel)
    );
}
