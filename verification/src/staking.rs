use vstd::prelude::*;

use crate::account::{account_active, Account, BoosterEvent};
use crate::errors::EngineError;

verus! {

/// Seconds in a 365-day year, the base of the per-second APY rate.
pub const SECONDS_PER_YEAR: u64 = 31_536_000;

/// Basis-point denominator: rates are in units of 1/10000.
pub const BPS_DENOMINATOR: u64 = 10_000;

/// `BPS_DENOMINATOR * SECONDS_PER_YEAR`, the divisor of every reward
/// formula.
pub const BPS_YEAR: u128 = 315_360_000_000;

/// Most staking levels a pool may configure.
pub const MAX_LEVELS: usize = 14;

/// A reward boost granted per repeat matrix cycle: an extra APY that
/// applies for `period` seconds from the cycle's timestamp.
#[derive(Clone, Copy, Debug, PartialEq, Eq, Structural)]
pub struct Boost {
    /// Boost rate in basis points.
    pub apy: u64,
    /// How long one boost window lasts, in seconds.
    pub period: u64,
}

/// Per-level staking rules.
#[derive(Clone, Copy, Debug, PartialEq, Eq, Structural)]
pub struct StakingLimit {
    /// Least amount a fresh position may open with.
    pub min: u64,
    /// Most a position may hold at any time.
    pub max: u64,
    /// How long a position runs, in seconds, from its opening.
    pub period: u64,
    /// Base reward rate in basis points per year.
    pub apy_bps: u64,
    /// The boost granted per repeat matrix cycle.
    pub boost_by_cycle: Boost,
}

/// One staking position: the per-level stake record of one participant.
#[derive(Clone, Copy, Debug, PartialEq, Eq, Structural)]
pub struct StakingInfo {
    /// Amount currently staked.
    pub amount_staked: u64,
    /// Rewards accrued so far, paid out when the position closes.
    pub rewards_accrued: u64,
    /// Timestamp up to which rewards have been settled.
    pub last_update_ts: u64,
    /// When the position opened; 0 while closed.
    pub start_staking_time: u64,
    /// Lifetime total of boost rewards, inside `rewards_accrued`.
    pub boost_rewards_total: u64,
    /// Matrix cycles consumed as staking rights at this level.
    pub cycle_used: u64,
}

impl StakingInfo {
    /// A closed position with no history.
    pub open spec fn spec_empty() -> StakingInfo {
        StakingInfo {
            amount_staked: 0,
            rewards_accrued: 0,
            last_update_ts: 0,
            start_staking_time: 0,
            boost_rewards_total: 0,
            cycle_used: 0,
        }
    }

    /// A closed position with no history.
    pub fn empty() -> (p: StakingInfo)
        ensures
            p == StakingInfo::spec_empty(),
    {
        StakingInfo {
            amount_staked: 0,
            rewards_accrued: 0,
            last_update_ts: 0,
            start_staking_time: 0,
            boost_rewards_total: 0,
            cycle_used: 0,
        }
    }
}

/// The staking pool: the sum of all stakes and the per-level rules.
#[derive(Debug)]
pub struct Pool {
    /// Sum of every participant's staked amounts.
    pub total_staked: u64,
    /// Rules per level; the number of stakeable levels is this list's
    /// length.
    pub staking_limits_by_level: Vec<StakingLimit>,
}

/// One participant's staking record across all levels.
#[derive(Debug)]
pub struct UserStake {
    /// The participant's wallet identity.
    pub owner: u64,
    /// The position at level `L` is at index `L`; missing entries stand
    /// for closed positions with no history.
    pub staking_by_level: Vec<StakingInfo>,
}

/// What one accrual reports for one level, for observability.
#[derive(Clone, Copy, Debug, PartialEq, Eq, Structural)]
pub struct AccruedReward {
    /// The level.
    pub level: u8,
    /// Reward added by this call, boost included.
    pub accrued_amount: u64,
    /// The position's rewards after this call.
    pub total_rewards: u64,
    /// Boost reward added by this call.
    pub boost_rewards: u64,
    /// The position's lifetime boost rewards after this call.
    pub total_boost_rewards: u64,
}

/// The linear reward formula: `floor(stake * rate_bps * dt / (10000 *
/// seconds_per_year))`.
pub open spec fn spec_reward(stake: u64, rate_bps: u64, dt: int) -> int {
    (stake * rate_bps * dt) / (BPS_YEAR as int)
}

/// When a boost window opened at `created` closes, saturating at the top
/// of the clock's range.
pub open spec fn spec_boost_window_end(created: u64, boost_period: u64) -> u64 {
    if created + boost_period > u64::MAX {
        u64::MAX
    } else {
        (created + boost_period) as u64
    }
}

/// One booster event's effect on the accrual accumulator `(rewards,
/// boost_total, call_accrued, call_boost)`: a booster of another level
/// changes nothing; otherwise the boost window is intersected with the
/// settlement window `[rs, re]` and the boost reward for the overlap is
/// added to all four counters, `None` when a checked step cannot be
/// represented.
pub open spec fn spec_boost_step(
    b: BoosterEvent,
    level: u8,
    stake: u64,
    boost_apy: u64,
    boost_period: u64,
    rs: u64,
    re: u64,
    acc: (u64, u64, u64, u64),
) -> Option<(u64, u64, u64, u64)> {
    if b.level != level {
        Some(acc)
    } else {
        let we = spec_boost_window_end(b.created_at, boost_period);
        let be: u64 = if re <= we {
            re
        } else {
            we
        };
        let bs: u64 = if b.created_at >= rs {
            b.created_at
        } else {
            rs
        };
        if be > bs {
            if stake * boost_apy * (be - bs) > u128::MAX {
                None
            } else {
                let br = spec_reward(stake, boost_apy, be - bs);
                if br > 0 {
                    if br > u64::MAX || acc.3 + br > u64::MAX || acc.2 + br > u64::MAX || acc.0
                        + br > u64::MAX || acc.1 + br > u64::MAX {
                        None
                    } else {
                        Some(
                            (
                                (acc.0 + br) as u64,
                                (acc.1 + br) as u64,
                                (acc.2 + br) as u64,
                                (acc.3 + br) as u64,
                            ),
                        )
                    }
                } else {
                    Some(acc)
                }
            }
        } else {
            Some(acc)
        }
    }
}

/// The first `k` booster events folded over the accumulator, in log
/// order.
pub open spec fn spec_boost_fold(
    boosters: Seq<BoosterEvent>,
    k: int,
    level: u8,
    stake: u64,
    boost_apy: u64,
    boost_period: u64,
    rs: u64,
    re: u64,
    st: (u64, u64, u64, u64),
) -> Option<(u64, u64, u64, u64)>
    decreases k,
{
    if k <= 0 {
        Some(st)
    } else {
        match spec_boost_fold(
            boosters,
            k - 1,
            level,
            stake,
            boost_apy,
            boost_period,
            rs,
            re,
            st,
        ) {
            None => None,
            Some(acc) => spec_boost_step(
                boosters[k - 1],
                level,
                stake,
                boost_apy,
                boost_period,
                rs,
                re,
                acc,
            ),
        }
    }
}

/// One level's accrual at time `now`: a no-op while nothing is staked,
/// nothing new has elapsed, or the period had already ended at the last
/// settlement; otherwise the base reward for the elapsed time up to the
/// period's end is added, every booster of the level contributes its
/// overlap with the settlement window, and the settlement time advances
/// to the window's end (never past the period's end). `None` when a
/// checked step cannot be represented. Returns the new position and the
/// call's total and boost-only reward.
pub open spec fn spec_accrue_level(
    pos: StakingInfo,
    limit: StakingLimit,
    boosters: Seq<BoosterEvent>,
    level: u8,
    now: u64,
) -> Option<(StakingInfo, u64, u64)> {
    if pos.amount_staked == 0 {
        Some((pos, 0u64, 0u64))
    } else if pos.start_staking_time + limit.period > u64::MAX {
        None
    } else {
        let pe = (pos.start_staking_time + limit.period) as u64;
        if pe <= pos.last_update_ts || now <= pos.last_update_ts {
            Some((pos, 0u64, 0u64))
        } else {
            let re: u64 = if now <= pe {
                now
            } else {
                pe
            };
            let rs = pos.last_update_ts;
            if pos.amount_staked * limit.apy_bps * (re - rs) > u128::MAX {
                None
            } else {
                let base = spec_reward(pos.amount_staked, limit.apy_bps, re - rs);
                let st0: Option<(u64, u64, u64, u64)> = if base > 0 {
                    if base > u64::MAX || pos.rewards_accrued + base > u64::MAX {
                        None
                    } else {
                        Some(
                            (
                                (pos.rewards_accrued + base) as u64,
                                pos.boost_rewards_total,
                                base as u64,
                                0u64,
                            ),
                        )
                    }
                } else {
                    Some((pos.rewards_accrued, pos.boost_rewards_total, 0u64, 0u64))
                };
                match st0 {
                    None => None,
                    Some(st) => match spec_boost_fold(
                        boosters,
                        boosters.len() as int,
                        level,
                        pos.amount_staked,
                        limit.boost_by_cycle.apy,
                        limit.boost_by_cycle.period,
                        rs,
                        re,
                        st,
                    ) {
                        None => None,
                        Some(acc) => Some(
                            (
                                StakingInfo {
                                    rewards_accrued: acc.0,
                                    boost_rewards_total: acc.1,
                                    last_update_ts: re,
                                    ..pos
                                },
                                acc.2,
                                acc.3,
                            ),
                        ),
                    },
                }
            }
        }
    }
}

/// Once the fold fails, folding further booster events still fails.
proof fn lemma_boost_fold_none(
    boosters: Seq<BoosterEvent>,
    k1: int,
    k2: int,
    level: u8,
    stake: u64,
    boost_apy: u64,
    boost_period: u64,
    rs: u64,
    re: u64,
    st: (u64, u64, u64, u64),
)
    requires
        0 <= k1 <= k2,
        spec_boost_fold(boosters, k1, level, stake, boost_apy, boost_period, rs, re, st)
            is None,
    ensures
        spec_boost_fold(boosters, k2, level, stake, boost_apy, boost_period, rs, re, st)
            is None,
    decreases k2 - k1,
{
    if k1 < k2 {
        lemma_boost_fold_none(
            boosters,
            k1,
            k2 - 1,
            level,
            stake,
            boost_apy,
            boost_period,
            rs,
            re,
            st,
        );
    }
}

/// Settles one level's pending rewards at time `now`, exactly as
/// `spec_accrue_level` describes; a checked step that cannot be
/// represented fails the whole call with no effect.
#[verifier::rlimit(100)]
#[verifier::spinoff_prover]
pub fn accrue_level(
    pos: StakingInfo,
    limit: StakingLimit,
    boosters: &Vec<BoosterEvent>,
    level: u8,
    now: u64,
) -> (r: Result<(StakingInfo, u64, u64), EngineError>)
    ensures
        match r {
            Ok(t) => spec_accrue_level(pos, limit, boosters@, level, now) == Some(t),
            Err(e) => {
                &&& e == EngineError::Overflow
                &&& spec_accrue_level(pos, limit, boosters@, level, now) is None
            },
        },
{
    if pos.amount_staked == 0 {
        return Ok((pos, 0, 0));
    }
    let pe = match pos.start_staking_time.checked_add(limit.period) {
        None => {
            return Err(EngineError::Overflow);
        },
        Some(x) => x,
    };
    if pe <= pos.last_update_ts || now <= pos.last_update_ts {
        return Ok((pos, 0, 0));
    }
    let re: u64 = if now <= pe {
        now
    } else {
        pe
    };
    let rs = pos.last_update_ts;
    let dt = re - rs;
    let stake128 = pos.amount_staked as u128;
    proof {
        assert(stake128 * (limit.apy_bps as u128) <= u128::MAX) by (nonlinear_arith)
            requires
                stake128 <= u64::MAX,
                limit.apy_bps <= u64::MAX,
        {
        }
    }
    let a: u128 = stake128 * (limit.apy_bps as u128);
    let numer = match a.checked_mul(dt as u128) {
        None => {
            proof {
                assert(pos.amount_staked * limit.apy_bps * (re - rs) > u128::MAX);
            }
            return Err(EngineError::Overflow);
        },
        Some(x) => x,
    };
    let base128 = numer / BPS_YEAR;
    let ghost base = spec_reward(pos.amount_staked, limit.apy_bps, re - rs);
    proof {
        assert(base128 == base);
    }
    let mut rewards = pos.rewards_accrued;
    let mut boost_total = pos.boost_rewards_total;
    let mut call_accrued: u64 = 0;
    let mut call_boost: u64 = 0;
    if base128 > 0 {
        if base128 > u64::MAX as u128 {
            return Err(EngineError::Overflow);
        }
        let base64 = base128 as u64;
        rewards = match rewards.checked_add(base64) {
            None => {
                return Err(EngineError::Overflow);
            },
            Some(x) => x,
        };
        call_accrued = base64;
    }
    let ghost st0 = (rewards, boost_total, call_accrued, call_boost);
    let n = boosters.len();
    let mut j: usize = 0;
    #[verifier::loop_isolation(false)]
    while j < n
        invariant
            n == boosters@.len(),
            j <= n,
            stake128 == pos.amount_staked as u128,
            spec_boost_fold(
                boosters@,
                j as int,
                level,
                pos.amount_staked,
                limit.boost_by_cycle.apy,
                limit.boost_by_cycle.period,
                rs,
                re,
                st0,
            ) == Some((rewards, boost_total, call_accrued, call_boost)),
        decreases n - j,
    {
        let b = boosters[j];
        let ghost acc_pre = (rewards, boost_total, call_accrued, call_boost);
        if b.level == level {
            let we = match b.created_at.checked_add(limit.boost_by_cycle.period) {
                None => u64::MAX,
                Some(x) => x,
            };
            let be: u64 = if re <= we {
                re
            } else {
                we
            };
            let bs: u64 = if b.created_at >= rs {
                b.created_at
            } else {
                rs
            };
            if be > bs {
                let bdt = be - bs;
                proof {
                    assert(stake128 * (limit.boost_by_cycle.apy as u128) <= u128::MAX)
                        by (nonlinear_arith)
                        requires
                            stake128 <= u64::MAX,
                            limit.boost_by_cycle.apy <= u64::MAX,
                    {
                    }
                }
                let ab: u128 = stake128 * (limit.boost_by_cycle.apy as u128);
                let numer_b = match ab.checked_mul(bdt as u128) {
                    None => {
                        proof {
                            assert(spec_boost_step(
                                boosters@[j as int],
                                level,
                                pos.amount_staked,
                                limit.boost_by_cycle.apy,
                                limit.boost_by_cycle.period,
                                rs,
                                re,
                                acc_pre,
                            ) is None);
                            assert(spec_boost_fold(
                                boosters@,
                                j as int + 1,
                                level,
                                pos.amount_staked,
                                limit.boost_by_cycle.apy,
                                limit.boost_by_cycle.period,
                                rs,
                                re,
                                st0,
                            ) is None);
                            lemma_boost_fold_none(
                                boosters@,
                                j as int + 1,
                                n as int,
                                level,
                                pos.amount_staked,
                                limit.boost_by_cycle.apy,
                                limit.boost_by_cycle.period,
                                rs,
                                re,
                                st0,
                            );
                        }
                        return Err(EngineError::Overflow);
                    },
                    Some(x) => x,
                };
                let br128 = numer_b / BPS_YEAR;
                if br128 > 0 {
                    if br128 > u64::MAX as u128 {
                        proof {
                            assert(spec_boost_step(
                                boosters@[j as int],
                                level,
                                pos.amount_staked,
                                limit.boost_by_cycle.apy,
                                limit.boost_by_cycle.period,
                                rs,
                                re,
                                acc_pre,
                            ) is None);
                            assert(spec_boost_fold(
                                boosters@,
                                j as int + 1,
                                level,
                                pos.amount_staked,
                                limit.boost_by_cycle.apy,
                                limit.boost_by_cycle.period,
                                rs,
                                re,
                                st0,
                            ) is None);
                            lemma_boost_fold_none(
                                boosters@,
                                j as int + 1,
                                n as int,
                                level,
                                pos.amount_staked,
                                limit.boost_by_cycle.apy,
                                limit.boost_by_cycle.period,
                                rs,
                                re,
                                st0,
                            );
                        }
                        return Err(EngineError::Overflow);
                    }
                    let br = br128 as u64;
                    let nb = call_boost.checked_add(br);
                    let na = call_accrued.checked_add(br);
                    let nr = rewards.checked_add(br);
                    let nt = boost_total.checked_add(br);
                    if nb.is_none() || na.is_none() || nr.is_none() || nt.is_none() {
                        proof {
                            assert(spec_boost_step(
                                boosters@[j as int],
                                level,
                                pos.amount_staked,
                                limit.boost_by_cycle.apy,
                                limit.boost_by_cycle.period,
                                rs,
                                re,
                                acc_pre,
                            ) is None);
                            assert(spec_boost_fold(
                                boosters@,
                                j as int + 1,
                                level,
                                pos.amount_staked,
                                limit.boost_by_cycle.apy,
                                limit.boost_by_cycle.period,
                                rs,
                                re,
                                st0,
                            ) is None);
                            lemma_boost_fold_none(
                                boosters@,
                                j as int + 1,
                                n as int,
                                level,
                                pos.amount_staked,
                                limit.boost_by_cycle.apy,
                                limit.boost_by_cycle.period,
                                rs,
                                re,
                                st0,
                            );
                        }
                        return Err(EngineError::Overflow);
                    }
                    call_boost = nb.unwrap();
                    call_accrued = na.unwrap();
                    rewards = nr.unwrap();
                    boost_total = nt.unwrap();
                }
            }
        }
        proof {
            assert(spec_boost_step(
                boosters@[j as int],
                level,
                pos.amount_staked,
                limit.boost_by_cycle.apy,
                limit.boost_by_cycle.period,
                rs,
                re,
                acc_pre,
            ) == Some((rewards, boost_total, call_accrued, call_boost)));
        }
        j = j + 1;
    }
    let newpos = StakingInfo {
        rewards_accrued: rewards,
        boost_rewards_total: boost_total,
        last_update_ts: re,
        ..pos
    };
    Ok((newpos, call_accrued, call_boost))
}

} // verus!

verus! {

/// Positions padded with closed entries so that `level` has an entry.
pub open spec fn extended_positions(ps: Seq<StakingInfo>, level: int) -> Seq<StakingInfo> {
    if ps.len() >= level + 1 {
        ps
    } else {
        ps + Seq::new((level + 1 - ps.len()) as nat, |i: int| StakingInfo::spec_empty())
    }
}

/// The position at `level`, a closed empty one when no entry exists yet.
pub open spec fn stake_pos(user: UserStake, level: int) -> StakingInfo {
    if level < user.staking_by_level@.len() {
        user.staking_by_level@[level]
    } else {
        StakingInfo::spec_empty()
    }
}

/// All levels accrued at time `now`, in level order: each position with
/// rules configured is settled by `spec_accrue_level`, and every level
/// that earned something this call contributes one report entry. `None`
/// when any level's checked arithmetic cannot be represented.
pub open spec fn spec_accrue_all(
    positions: Seq<StakingInfo>,
    limits: Seq<StakingLimit>,
    boosters: Seq<BoosterEvent>,
    now: u64,
    k: int,
) -> Option<(Seq<StakingInfo>, Seq<AccruedReward>)>
    decreases k,
{
    if k <= 0 {
        Some((positions, Seq::<AccruedReward>::empty()))
    } else {
        match spec_accrue_all(positions, limits, boosters, now, k - 1) {
            None => None,
            Some(pr) => {
                let lvl = k - 1;
                if lvl >= limits.len() {
                    Some(pr)
                } else {
                    match spec_accrue_level(
                        positions[lvl],
                        limits[lvl],
                        boosters,
                        lvl as u8,
                        now,
                    ) {
                        None => None,
                        Some(t) => Some(
                            (
                                pr.0.update(lvl, t.0),
                                if t.1 > 0 {
                                    pr.1.push(
                                        AccruedReward {
                                            level: lvl as u8,
                                            accrued_amount: t.1,
                                            total_rewards: t.0.rewards_accrued,
                                            boost_rewards: t.2,
                                            total_boost_rewards: t.0.boost_rewards_total,
                                        },
                                    )
                                } else {
                                    pr.1
                                },
                            ),
                        ),
                    }
                }
            },
        }
    }
}

/// Once any level fails, accruing further levels still fails.
proof fn lemma_accrue_all_none(
    positions: Seq<StakingInfo>,
    limits: Seq<StakingLimit>,
    boosters: Seq<BoosterEvent>,
    now: u64,
    k1: int,
    k2: int,
)
    requires
        0 <= k1 <= k2,
        spec_accrue_all(positions, limits, boosters, now, k1) is None,
    ensures
        spec_accrue_all(positions, limits, boosters, now, k2) is None,
    decreases k2 - k1,
{
    if k1 < k2 {
        lemma_accrue_all_none(positions, limits, boosters, now, k1, k2 - 1);
    }
}

/// Settles every level's pending rewards at time `now`, returning the new
/// positions and the per-level reports, exactly as `spec_accrue_all`
/// describes; a failed checked step fails the whole call.
fn accrue_all_positions(
    positions: &Vec<StakingInfo>,
    limits: &Vec<StakingLimit>,
    boosters: &Vec<BoosterEvent>,
    now: u64,
) -> (r: Result<(Vec<StakingInfo>, Vec<AccruedReward>), EngineError>)
    ensures
        match r {
            Ok(t) => {
                let r0 = spec_accrue_all(
                    positions@,
                    limits@,
                    boosters@,
                    now,
                    positions@.len() as int,
                );
                &&& t.0@.len() == positions@.len()
                &&& r0 matches Some(pr)
                &&& pr.0 =~= t.0@
                &&& pr.1 =~= t.1@
            },
            Err(e) => {
                &&& e == EngineError::Overflow
                &&& spec_accrue_all(positions@, limits@, boosters@, now, positions@.len() as int)
                    is None
            },
        },
{
    let n = positions.len();
    let mut out: Vec<StakingInfo> = Vec::new();
    let mut reports: Vec<AccruedReward> = Vec::new();
    let mut i: usize = 0;
    #[verifier::loop_isolation(false)]
    while i < n
        invariant
            i <= n,
            out@.len() == i,
            ({
                let r0 = spec_accrue_all(positions@, limits@, boosters@, now, i as int);
                &&& r0 matches Some(pr)
                &&& pr.0 =~= out@ + positions@.skip(i as int)
                &&& pr.1 =~= reports@
            }),
        decreases n - i,
    {
        let ghost pr_pre = spec_accrue_all(positions@, limits@, boosters@, now, i as int)
            ->Some_0;
        if i < limits.len() {
            match accrue_level(positions[i], limits[i], boosters, i as u8, now) {
                Err(e) => {
                    proof {
                        lemma_accrue_all_none(
                            positions@,
                            limits@,
                            boosters@,
                            now,
                            i as int + 1,
                            n as int,
                        );
                    }
                    return Err(e);
                },
                Ok((np, la, lb)) => {
                    out.push(np);
                    if la > 0 {
                        reports.push(
                            AccruedReward {
                                level: i as u8,
                                accrued_amount: la,
                                total_rewards: np.rewards_accrued,
                                boost_rewards: lb,
                                total_boost_rewards: np.boost_rewards_total,
                            },
                        );
                    }
                    proof {
                        let pr_post = spec_accrue_all(
                            positions@,
                            limits@,
                            boosters@,
                            now,
                            i as int + 1,
                        )->Some_0;
                        assert(pr_post.0 =~= out@ + positions@.skip(i as int + 1)) by {
                            assert(pr_post.0 =~= pr_pre.0.update(i as int, np));
                        }
                        assert(pr_post.1 =~= reports@);
                    }
                },
            }
        } else {
            out.push(positions[i]);
            proof {
                assert(spec_accrue_all(positions@, limits@, boosters@, now, i as int + 1)
                    ->Some_0.0 =~= out@ + positions@.skip(i as int + 1));
            }
        }
        i = i + 1;
    }
    proof {
        assert(out@ + positions@.skip(n as int) =~= out@);
    }
    Ok((out, reports))
}

/// Reads how many cycles the matrix has earned at `level` for the given
/// owner, the staking engine's external rights query.
pub fn get_x3_cycles(acct: &Account, expected_owner: u64, level: u8) -> (r: Result<
    u32,
    EngineError,
>)
    ensures
        match r {
            Ok(c) => {
                &&& acct.wallet == expected_owner
                &&& account_active(*acct, level as int)
                &&& c == acct.slots@[level as int].cycles
            },
            Err(e) => {
                ||| (e == EngineError::InvalidExternalState && acct.wallet != expected_owner)
                ||| (e == EngineError::InsufficientMatrixLevel && acct.wallet == expected_owner
                    && !account_active(*acct, level as int))
            },
        },
{
    if acct.wallet != expected_owner {
        return Err(EngineError::InvalidExternalState);
    }
    if !((level as usize) < acct.slots.len()) {
        return Err(EngineError::InsufficientMatrixLevel);
    }
    Ok(acct.slots[level as usize].cycles)
}

impl Pool {
    /// A fresh pool: nothing staked, no levels configured yet.
    pub fn new() -> (p: Pool)
        ensures
            p.total_staked == 0,
            p.staking_limits_by_level@ =~= Seq::<StakingLimit>::empty(),
    {
        Pool { total_staked: 0, staking_limits_by_level: Vec::new() }
    }

    /// Replaces the per-level staking rules: at most `MAX_LEVELS` levels,
    /// each with `min <= max`.
    pub fn update_limits(&mut self, limits: Vec<StakingLimit>) -> (r: Result<(), EngineError>)
        ensures
            match r {
                Ok(()) => {
                    &&& limits@.len() <= MAX_LEVELS
                    &&& forall|i: int|
                        0 <= i < limits@.len() ==> (#[trigger] limits@[i]).min <= limits@[i].max
                    &&& final(self).staking_limits_by_level@ == limits@
                    &&& final(self).total_staked == old(self).total_staked
                },
                Err(e) => {
                    &&& *final(self) == *old(self)
                    &&& if limits@.len() > MAX_LEVELS {
                        e == EngineError::TooManyLevels
                    } else {
                        &&& e == EngineError::InvalidLimits
                        &&& exists|i: int|
                            0 <= i < limits@.len() && (#[trigger] limits@[i]).min > limits@[i].max
                    }
                },
            },
    {
        if limits.len() > MAX_LEVELS {
            return Err(EngineError::TooManyLevels);
        }
        let mut i: usize = 0;
        let n = limits.len();
        while i < n
            invariant
                i <= n,
                n == limits@.len(),
                limits@.len() <= MAX_LEVELS,
                forall|j: int| 0 <= j < i ==> (#[trigger] limits@[j]).min <= limits@[j].max,
            decreases n - i,
        {
            if limits[i].min > limits[i].max {
                proof {
                    assert(exists|j: int|
                        0 <= j < limits@.len() && (#[trigger] limits@[j]).min
                            > limits@[j].max) by {
                        assert(0 <= (i as int) < limits@.len() && limits@[i as int].min
                            > limits@[i as int].max);
                    }
                }
                return Err(EngineError::InvalidLimits);
            }
            i = i + 1;
        }
        self.staking_limits_by_level = limits;
        Ok(())
    }
}

impl UserStake {
    /// A fresh staking record for one wallet, with no positions yet.
    pub fn new(owner: u64) -> (u: UserStake)
        ensures
            u.owner == owner,
            u.staking_by_level@ =~= Seq::<StakingInfo>::empty(),
    {
        UserStake { owner, staking_by_level: Vec::new() }
    }
}

} // verus!

verus! {

/// How a stake call classified itself.
#[derive(Clone, Copy, Debug, PartialEq, Eq, Structural)]
pub enum StakeKind {
    /// A first position at this level.
    NewStake,
    /// A fresh position at a level that had been staked and closed
    /// before.
    Restake,
    /// An addition to a running position.
    AddToStake,
}

/// What one stake call reports.
#[derive(Debug, PartialEq, Eq)]
pub struct StakeOutcome {
    /// The call's classification.
    pub kind: StakeKind,
    /// The level staked.
    pub level: u8,
    /// The amount added.
    pub amount: u64,
    /// The position's amount after the call.
    pub total_amount: u64,
    /// Per-level accrual reports settled before an addition.
    pub accrued: Vec<AccruedReward>,
}

/// What one unstake call reports.
#[derive(Debug, PartialEq, Eq)]
pub struct UnstakeOutcome {
    /// The level closed.
    pub level: u8,
    /// The amount that had been staked.
    pub amount: u64,
    /// The rewards owed, settled through the period's end.
    pub rewards: u64,
    /// What the hosting environment must pay out: amount plus rewards.
    pub payout: u64,
    /// Per-level accrual reports settled by this call.
    pub accrued: Vec<AccruedReward>,
}

/// Exactly when a stake call fails, and with which error, in the order
/// the operation checks its inputs. A fresh position (nothing staked at
/// the level) needs an unconsumed matrix cycle and an amount within the
/// level's band; an addition needs a running period and headroom under
/// the band's top, and settles pending rewards first.
pub open spec fn stake_check(
    pool: Pool,
    user: UserStake,
    acct: Account,
    level: u8,
    amount: u64,
    now: u64,
) -> Option<EngineError> {
    let limits = pool.staking_limits_by_level@;
    if level >= limits.len() {
        Some(EngineError::LevelOutOfRange)
    } else {
        let lim = limits[level as int];
        let pos = stake_pos(user, level as int);
        if pos.amount_staked == 0 {
            if acct.wallet != user.owner {
                Some(EngineError::InvalidExternalState)
            } else if !account_active(acct, level as int) {
                Some(EngineError::InsufficientMatrixLevel)
            } else if amount < lim.min || amount > lim.max {
                Some(EngineError::AmountOutOfLimits)
            } else if acct.slots@[level as int].cycles <= pos.cycle_used {
                Some(EngineError::NoStakingRights)
            } else if pos.cycle_used + 1 > u64::MAX {
                Some(EngineError::Overflow)
            } else if pool.total_staked + amount > u64::MAX {
                Some(EngineError::Overflow)
            } else {
                None
            }
        } else {
            if pos.start_staking_time + lim.period > u64::MAX {
                Some(EngineError::Overflow)
            } else if now >= pos.start_staking_time + lim.period {
                Some(EngineError::StakingPeriodEnded)
            } else if pos.amount_staked + amount > u64::MAX {
                Some(EngineError::Overflow)
            } else if pos.amount_staked + amount > lim.max {
                Some(EngineError::AmountOutOfLimits)
            } else if acct.wallet != user.owner {
                Some(EngineError::InvalidExternalState)
            } else if spec_accrue_all(
                user.staking_by_level@,
                limits,
                acct.boosters@,
                now,
                user.staking_by_level@.len() as int,
            ) is None {
                Some(EngineError::Overflow)
            } else if pool.total_staked + amount > u64::MAX {
                Some(EngineError::Overflow)
            } else {
                None
            }
        }
    }
}

/// Exactly when an unstake call fails, and with which error, in the
/// order the operation checks its inputs: a position can only close once
/// its period has ended, after settling every level's pending rewards.
pub open spec fn unstake_check(
    pool: Pool,
    user: UserStake,
    acct: Account,
    level: u8,
    now: u64,
) -> Option<EngineError> {
    let ps = user.staking_by_level@;
    let limits = pool.staking_limits_by_level@;
    if level >= ps.len() {
        Some(EngineError::LevelOutOfRange)
    } else {
        let pos = ps[level as int];
        if pos.amount_staked == 0 {
            Some(EngineError::NothingToUnstake)
        } else if level >= limits.len() {
            Some(EngineError::LevelOutOfRange)
        } else if pos.start_staking_time + limits[level as int].period > u64::MAX {
            Some(EngineError::Overflow)
        } else if pos.start_staking_time + limits[level as int].period > now {
            Some(EngineError::StakingPeriodNotEnded)
        } else if acct.wallet != user.owner {
            Some(EngineError::InvalidExternalState)
        } else {
            match spec_accrue_all(ps, limits, acct.boosters@, now, ps.len() as int) {
                None => Some(EngineError::Overflow),
                Some(pr) => {
                    if pos.amount_staked + pr.0[level as int].rewards_accrued > u64::MAX {
                        Some(EngineError::Overflow)
                    } else if pool.total_staked < pos.amount_staked {
                        Some(EngineError::Overflow)
                    } else {
                        None
                    }
                },
            }
        }
    }
}

/// Opens a fresh staking position or adds to a running one. A fresh
/// position consumes one matrix-earned staking right and must open
/// within the level's `[min, max]` band; an addition is only accepted
/// while the period runs and settles pending rewards first. The pool's
/// total grows by the amount; the hosting environment moves the value.
pub fn stake(
    pool: &mut Pool,
    user: &mut UserStake,
    matrix_account: &Account,
    level: u8,
    amount: u64,
    now: u64,
) -> (r: Result<StakeOutcome, EngineError>)
    ensures
        match r {
            Ok(out) => ({
                let ps0 = old(user).staking_by_level@;
                let limits = old(pool).staking_limits_by_level@;
                let pos = stake_pos(*old(user), level as int);
                let is_new = pos.amount_staked == 0;
                &&& stake_check(*old(pool), *old(user), *matrix_account, level, amount, now)
                    is None
                &&& final(user).owner == old(user).owner
                &&& final(pool).staking_limits_by_level == old(pool).staking_limits_by_level
                &&& final(pool).total_staked == old(pool).total_staked + amount
                &&& out.kind == (if !is_new {
                    StakeKind::AddToStake
                } else if pos.cycle_used > 0 {
                    StakeKind::Restake
                } else {
                    StakeKind::NewStake
                })
                &&& out.level == level
                &&& out.amount == amount
                &&& out.total_amount == pos.amount_staked + amount
                &&& (is_new ==> {
                    &&& final(user).staking_by_level@ =~= extended_positions(
                        ps0,
                        level as int,
                    ).update(
                        level as int,
                        StakingInfo {
                            amount_staked: amount,
                            rewards_accrued: pos.rewards_accrued,
                            last_update_ts: now,
                            start_staking_time: now,
                            boost_rewards_total: pos.boost_rewards_total,
                            cycle_used: (pos.cycle_used + 1) as u64,
                        },
                    )
                    &&& out.accrued@ =~= Seq::<AccruedReward>::empty()
                })
                &&& (!is_new ==> match spec_accrue_all(
                    ps0,
                    limits,
                    matrix_account.boosters@,
                    now,
                    ps0.len() as int,
                ) {
                    Some(pr) => {
                        &&& final(user).staking_by_level@ =~= pr.0.update(
                            level as int,
                            StakingInfo {
                                amount_staked: (pos.amount_staked + amount) as u64,
                                rewards_accrued: pr.0[level as int].rewards_accrued,
                                last_update_ts: now,
                                start_staking_time: pos.start_staking_time,
                                boost_rewards_total: pr.0[level as int].boost_rewards_total,
                                cycle_used: pos.cycle_used,
                            },
                        )
                        &&& out.accrued@ =~= pr.1
                    },
                    None => false,
                })
            }),
            Err(e) => {
                &&& *final(pool) == *old(pool)
                &&& *final(user) == *old(user)
                &&& stake_check(*old(pool), *old(user), *matrix_account, level, amount, now)
                    == Some(e)
            },
        },
{
    let ghost ps0 = user.staking_by_level@;
    let lvl = level as usize;
    if lvl >= pool.staking_limits_by_level.len() {
        return Err(EngineError::LevelOutOfRange);
    }
    let lim = pool.staking_limits_by_level[lvl];
    let pos = if lvl < user.staking_by_level.len() {
        user.staking_by_level[lvl]
    } else {
        StakingInfo::empty()
    };
    let is_new = pos.amount_staked == 0;
    if is_new {
        let cycles = match get_x3_cycles(matrix_account, user.owner, level) {
            Ok(c) => c,
            Err(e) => {
                return Err(e);
            },
        };
        if amount < lim.min || amount > lim.max {
            return Err(EngineError::AmountOutOfLimits);
        }
        if !((cycles as u64) > pos.cycle_used) {
            return Err(EngineError::NoStakingRights);
        }
        let new_used = match pos.cycle_used.checked_add(1) {
            None => {
                return Err(EngineError::Overflow);
            },
            Some(x) => x,
        };
        let npool = match pool.total_staked.checked_add(amount) {
            None => {
                return Err(EngineError::Overflow);
            },
            Some(x) => x,
        };
        let target = lvl + 1;
        #[verifier::loop_isolation(false)]
        while user.staking_by_level.len() < target
            invariant
                user.owner == old(user).owner,
                ps0.len() <= user.staking_by_level@.len(),
                user.staking_by_level@.len() <= (if ps0.len() >= target {
                    ps0.len() as int
                } else {
                    target as int
                }),
                forall|k: int| 0 <= k < ps0.len() ==> user.staking_by_level@[k] == ps0[k],
                forall|k: int|
                    ps0.len() <= k < user.staking_by_level@.len()
                        ==> user.staking_by_level@[k] == StakingInfo::spec_empty(),
            decreases target - user.staking_by_level.len(),
        {
            user.staking_by_level.push(StakingInfo::empty());
        }
        proof {
            assert(user.staking_by_level@ =~= extended_positions(ps0, level as int));
        }
        user.staking_by_level[lvl] = StakingInfo {
            amount_staked: amount,
            rewards_accrued: pos.rewards_accrued,
            last_update_ts: now,
            start_staking_time: now,
            boost_rewards_total: pos.boost_rewards_total,
            cycle_used: new_used,
        };
        pool.total_staked = npool;
        let kind = if pos.cycle_used > 0 {
            StakeKind::Restake
        } else {
            StakeKind::NewStake
        };
        Ok(StakeOutcome { kind, level, amount, total_amount: amount, accrued: Vec::new() })
    } else {
        let pe = match pos.start_staking_time.checked_add(lim.period) {
            None => {
                return Err(EngineError::Overflow);
            },
            Some(x) => x,
        };
        if now >= pe {
            return Err(EngineError::StakingPeriodEnded);
        }
        let new_total = match pos.amount_staked.checked_add(amount) {
            None => {
                return Err(EngineError::Overflow);
            },
            Some(x) => x,
        };
        if new_total > lim.max {
            return Err(EngineError::AmountOutOfLimits);
        }
        if matrix_account.wallet != user.owner {
            return Err(EngineError::InvalidExternalState);
        }
        let (new_ps, ars) = match accrue_all_positions(
            &user.staking_by_level,
            &pool.staking_limits_by_level,
            &matrix_account.boosters,
            now,
        ) {
            Ok(t) => t,
            Err(e) => {
                return Err(e);
            },
        };
        let npool = match pool.total_staked.checked_add(amount) {
            None => {
                return Err(EngineError::Overflow);
            },
            Some(x) => x,
        };
        let apos = new_ps[lvl];
        user.staking_by_level = new_ps;
        user.staking_by_level[lvl] = StakingInfo {
            amount_staked: new_total,
            rewards_accrued: apos.rewards_accrued,
            last_update_ts: now,
            start_staking_time: pos.start_staking_time,
            boost_rewards_total: apos.boost_rewards_total,
            cycle_used: pos.cycle_used,
        };
        pool.total_staked = npool;
        Ok(
            StakeOutcome {
                kind: StakeKind::AddToStake,
                level,
                amount,
                total_amount: new_total,
                accrued: ars,
            },
        )
    }
}

/// Closes a position once its period has ended: settles every level's
/// pending rewards, zeroes the position, and reports the payout (stake
/// plus rewards) for the hosting environment to move. The pool's total
/// shrinks by the staked amount.
pub fn unstake(
    pool: &mut Pool,
    user: &mut UserStake,
    matrix_account: &Account,
    level: u8,
    now: u64,
) -> (r: Result<UnstakeOutcome, EngineError>)
    ensures
        match r {
            Ok(out) => ({
                let ps0 = old(user).staking_by_level@;
                let limits = old(pool).staking_limits_by_level@;
                let pos = ps0[level as int];
                &&& unstake_check(*old(pool), *old(user), *matrix_account, level, now) is None
                &&& final(user).owner == old(user).owner
                &&& final(pool).staking_limits_by_level == old(pool).staking_limits_by_level
                &&& final(pool).total_staked == old(pool).total_staked - pos.amount_staked
                &&& out.level == level
                &&& out.amount == pos.amount_staked
                &&& out.payout == pos.amount_staked + out.rewards
                &&& match spec_accrue_all(
                    ps0,
                    limits,
                    matrix_account.boosters@,
                    now,
                    ps0.len() as int,
                ) {
                    Some(pr) => {
                        &&& out.rewards == pr.0[level as int].rewards_accrued
                        &&& final(user).staking_by_level@ =~= pr.0.update(
                            level as int,
                            StakingInfo {
                                amount_staked: 0,
                                rewards_accrued: 0,
                                last_update_ts: now,
                                start_staking_time: 0,
                                boost_rewards_total: pr.0[level as int].boost_rewards_total,
                                cycle_used: pr.0[level as int].cycle_used,
                            },
                        )
                        &&& out.accrued@ =~= pr.1
                    },
                    None => false,
                }
            }),
            Err(e) => {
                &&& *final(pool) == *old(pool)
                &&& *final(user) == *old(user)
                &&& unstake_check(*old(pool), *old(user), *matrix_account, level, now)
                    == Some(e)
            },
        },
{
    let lvl = level as usize;
    if lvl >= user.staking_by_level.len() {
        return Err(EngineError::LevelOutOfRange);
    }
    let pos = user.staking_by_level[lvl];
    if pos.amount_staked == 0 {
        return Err(EngineError::NothingToUnstake);
    }
    if lvl >= pool.staking_limits_by_level.len() {
        return Err(EngineError::LevelOutOfRange);
    }
    let lim = pool.staking_limits_by_level[lvl];
    let pe = match pos.start_staking_time.checked_add(lim.period) {
        None => {
            return Err(EngineError::Overflow);
        },
        Some(x) => x,
    };
    if pe > now {
        return Err(EngineError::StakingPeriodNotEnded);
    }
    if matrix_account.wallet != user.owner {
        return Err(EngineError::InvalidExternalState);
    }
    let (new_ps, ars) = match accrue_all_positions(
        &user.staking_by_level,
        &pool.staking_limits_by_level,
        &matrix_account.boosters,
        now,
    ) {
        Ok(t) => t,
        Err(e) => {
            return Err(e);
        },
    };
    let apos = new_ps[lvl];
    let rewards = apos.rewards_accrued;
    let payout = match pos.amount_staked.checked_add(rewards) {
        None => {
            return Err(EngineError::Overflow);
        },
        Some(x) => x,
    };
    let npool = match pool.total_staked.checked_sub(pos.amount_staked) {
        None => {
            return Err(EngineError::Overflow);
        },
        Some(x) => x,
    };
    user.staking_by_level = new_ps;
    user.staking_by_level[lvl] = StakingInfo {
        amount_staked: 0,
        rewards_accrued: 0,
        last_update_ts: now,
        start_staking_time: 0,
        boost_rewards_total: apos.boost_rewards_total,
        cycle_used: apos.cycle_used,
    };
    pool.total_staked = npool;
    Ok(UnstakeOutcome { level, amount: pos.amount_staked, rewards, payout, accrued: ars })
}

/// Settles every level's pending rewards for one participant, without
/// staking or unstaking anything.
pub fn update_user_rewards(
    pool: &Pool,
    user: &mut UserStake,
    matrix_account: &Account,
    now: u64,
) -> (r: Result<Vec<AccruedReward>, EngineError>)
    ensures
        final(user).owner == old(user).owner,
        match r {
            Ok(ars) => ({
                &&& matrix_account.wallet == old(user).owner
                &&& match spec_accrue_all(
                    old(user).staking_by_level@,
                    pool.staking_limits_by_level@,
                    matrix_account.boosters@,
                    now,
                    old(user).staking_by_level@.len() as int,
                ) {
                    Some(pr) => final(user).staking_by_level@ =~= pr.0 && ars@ =~= pr.1,
                    None => false,
                }
            }),
            Err(e) => {
                &&& *final(user) == *old(user)
                &&& if matrix_account.wallet != old(user).owner {
                    e == EngineError::InvalidExternalState
                } else {
                    &&& e == EngineError::Overflow
                    &&& spec_accrue_all(
                        old(user).staking_by_level@,
                        pool.staking_limits_by_level@,
                        matrix_account.boosters@,
                        now,
                        old(user).staking_by_level@.len() as int,
                    ) is None
                }
            },
        },
{
    if matrix_account.wallet != user.owner {
        return Err(EngineError::InvalidExternalState);
    }
    let (new_ps, ars) = match accrue_all_positions(
        &user.staking_by_level,
        &pool.staking_limits_by_level,
        &matrix_account.boosters,
        now,
    ) {
        Ok(t) => t,
        Err(e) => {
            return Err(e);
        },
    };
    user.staking_by_level = new_ps;
    Ok(ars)
}

} // verus!

verus! {

/// Accrual is idempotent at a fixed time: once a level has been settled
/// at `now`, settling it again at the same `now` adds zero reward and
/// leaves the position unchanged.
pub proof fn lemma_accrue_idempotent(
    pos: StakingInfo,
    limit: StakingLimit,
    boosters: Seq<BoosterEvent>,
    level: u8,
    now: u64,
)
    requires
        spec_accrue_level(pos, limit, boosters, level, now) is Some,
    ensures
        ({
            let p1 = spec_accrue_level(pos, limit, boosters, level, now)->Some_0.0;
            spec_accrue_level(p1, limit, boosters, level, now) == Some((p1, 0u64, 0u64))
        }),
{
    let p1 = spec_accrue_level(pos, limit, boosters, level, now)->Some_0.0;
    if pos.amount_staked == 0 {
    } else {
        let pe = (pos.start_staking_time + limit.period) as u64;
        if pe <= pos.last_update_ts || now <= pos.last_update_ts {
        } else {
            assert(p1.amount_staked == pos.amount_staked);
            assert(p1.start_staking_time == pos.start_staking_time);
            if now <= pe {
                assert(p1.last_update_ts == now);
            } else {
                assert(p1.last_update_ts == pe);
            }
        }
    }
}

/// A booster active for the full settlement window contributes exactly
/// the boost-only reward for that window, on top of (not replacing) the
/// base reward: both the call's reward and the lifetime boost total grow
/// by it.
pub proof fn lemma_boost_full_window(
    pos: StakingInfo,
    limit: StakingLimit,
    b: BoosterEvent,
    level: u8,
    now: u64,
)
    requires
        spec_accrue_level(pos, limit, seq![b], level, now) is Some,
        b.level == level,
        pos.amount_staked > 0,
        pos.start_staking_time + limit.period <= u64::MAX,
        pos.last_update_ts < now,
        pos.last_update_ts < pos.start_staking_time + limit.period,
        b.created_at <= pos.last_update_ts,
        ({
            let pe = (pos.start_staking_time + limit.period) as u64;
            let re: u64 = if now <= pe {
                now
            } else {
                pe
            };
            spec_boost_window_end(b.created_at, limit.boost_by_cycle.period) >= re
        }),
    ensures
        ({
            let pe = (pos.start_staking_time + limit.period) as u64;
            let re: u64 = if now <= pe {
                now
            } else {
                pe
            };
            let dt = re - pos.last_update_ts;
            let base = spec_reward(pos.amount_staked, limit.apy_bps, dt);
            let boost = spec_reward(pos.amount_staked, limit.boost_by_cycle.apy, dt);
            let t = spec_accrue_level(pos, limit, seq![b], level, now)->Some_0;
            &&& t.2 == boost
            &&& t.1 == base + boost
            &&& t.0.boost_rewards_total == pos.boost_rewards_total + boost
            &&& t.0.rewards_accrued == pos.rewards_accrued + base + boost
        }),
{
    let pe = (pos.start_staking_time + limit.period) as u64;
    let re: u64 = if now <= pe {
        now
    } else {
        pe
    };
    let rs = pos.last_update_ts;
    let dt = re - rs;
    let base = spec_reward(pos.amount_staked, limit.apy_bps, dt);
    let boost = spec_reward(pos.amount_staked, limit.boost_by_cycle.apy, dt);
    let bl = seq![b];
    let st0 = if base > 0 {
        (
            (pos.rewards_accrued + base) as u64,
            pos.boost_rewards_total,
            base as u64,
            0u64,
        )
    } else {
        (pos.rewards_accrued, pos.boost_rewards_total, 0u64, 0u64)
    };
    assert(spec_boost_fold(
        bl,
        0,
        level,
        pos.amount_staked,
        limit.boost_by_cycle.apy,
        limit.boost_by_cycle.period,
        rs,
        re,
        st0,
    ) == Some(st0));
    assert(spec_boost_fold(
        bl,
        1,
        level,
        pos.amount_staked,
        limit.boost_by_cycle.apy,
        limit.boost_by_cycle.period,
        rs,
        re,
        st0,
    ) == spec_boost_step(
        b,
        level,
        pos.amount_staked,
        limit.boost_by_cycle.apy,
        limit.boost_by_cycle.period,
        rs,
        re,
        st0,
    ));
    let we = spec_boost_window_end(b.created_at, limit.boost_by_cycle.period);
    assert(re <= we);
    assert(spec_reward(pos.amount_staked, limit.boost_by_cycle.apy, dt) >= 0) by {
        assert(pos.amount_staked * limit.boost_by_cycle.apy * dt >= 0) by (nonlinear_arith)
            requires
                pos.amount_staked >= 0,
                limit.boost_by_cycle.apy >= 0,
                dt >= 0,
        {
        }
    }
}

} // verus!
