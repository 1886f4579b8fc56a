use vstd::prelude::*;

use crate::account::{account_active, Account};
use crate::errors::EngineError;
use crate::notices::{MissMode, MissedNotice};

verus! {

/// `s[i]` is the account of wallet `w`.
pub open spec fn wallet_at(s: Seq<Account>, w: u64, i: int) -> bool {
    0 <= i < s.len() && s[i].wallet == w
}

/// Some account in the directory has wallet `w`.
pub open spec fn has_wallet(s: Seq<Account>, w: u64) -> bool {
    exists|i: int| wallet_at(s, w, i)
}

/// The index of wallet `w`'s account; meaningful when wallets are unique
/// and `w` is present.
pub open spec fn index_of_wallet(s: Seq<Account>, w: u64) -> int {
    choose|i: int| wallet_at(s, w, i)
}

/// No two accounts share a wallet identity.
pub open spec fn wallets_unique(s: Seq<Account>) -> bool {
    forall|i: int, j: int|
        0 <= i < j < s.len() ==> (#[trigger] s[i].wallet) != (#[trigger] s[j].wallet)
}

/// With unique wallets, any index holding `w` is the index of `w`.
pub proof fn lemma_index_of_wallet(s: Seq<Account>, w: u64, i: int)
    requires
        wallets_unique(s),
        wallet_at(s, w, i),
    ensures
        has_wallet(s, w),
        index_of_wallet(s, w) == i,
{
    let j = index_of_wallet(s, w);
    assert(wallet_at(s, w, j));
    if i < j {
        assert(s[i].wallet != s[j].wallet);
    } else if j < i {
        assert(s[j].wallet != s[i].wallet);
    }
}

/// Outcome of an upline resolution at the specification level.
pub enum SpecResolve {
    /// A receiver was found at `idx`, after the listed missed receives.
    Found { idx: int, missed: Seq<MissedNotice> },
    /// The walk reached a wallet with no account in the directory.
    Missing,
    /// The walk ran out of its hop budget.
    HopLimit,
}

/// Prefixes one missed-receive notice onto a resolution that found a
/// receiver; failures pass through unchanged.
pub open spec fn with_missed(n: MissedNotice, r: SpecResolve) -> SpecResolve {
    match r {
        SpecResolve::Found { idx, missed } => SpecResolve::Found {
            idx,
            missed: seq![n] + missed,
        },
        other => other,
    }
}

/// The upline walk that finds the receiving slot for a purchase at
/// `level`: starting from wallet `cur`, an account whose level is not
/// active is overtaken, an account whose slot is blocked is skipped, and
/// the first account with the level active and unblocked receives. Each
/// skipped account contributes one missed-receive notice, in walk order.
pub open spec fn resolve_spec(
    s: Seq<Account>,
    from: u64,
    cur: u64,
    level: u8,
    fuel: nat,
) -> SpecResolve
    decreases fuel,
{
    if fuel == 0 {
        SpecResolve::HopLimit
    } else if !has_wallet(s, cur) {
        SpecResolve::Missing
    } else {
        let i = index_of_wallet(s, cur);
        if !account_active(s[i], level as int) {
            with_missed(
                MissedNotice { receiver: cur, from, level, mode: MissMode::Overtaken },
                resolve_spec(s, from, s[i].referrer, level, (fuel - 1) as nat),
            )
        } else if s[i].slots@[level as int].blocked {
            with_missed(
                MissedNotice { receiver: cur, from, level, mode: MissMode::Blocked },
                resolve_spec(s, from, s[i].referrer, level, (fuel - 1) as nat),
            )
        } else {
            SpecResolve::Found { idx: i, missed: Seq::empty() }
        }
    }
}

/// Looks a wallet up in the directory by linear scan.
pub fn find_account_index(accounts: &Vec<Account>, wallet: u64) -> (r: Option<usize>)
    ensures
        match r {
            Some(i) => wallet_at(accounts@, wallet, i as int),
            None => !has_wallet(accounts@, wallet),
        },
{
    let n = accounts.len();
    let mut k: usize = 0;
    while k < n
        invariant
            n == accounts@.len(),
            k <= n,
            forall|j: int| 0 <= j < k ==> (#[trigger] accounts@[j].wallet) != wallet,
        decreases n - k,
    {
        if accounts[k].wallet == wallet {
            return Some(k);
        }
        k = k + 1;
    }
    None
}

/// Resolves the receiving account for a purchase at `level`, walking the
/// upline from wallet `start` with an explicit hop budget of `max_hops`.
/// Returns the receiver's index and the missed-receive notices emitted on
/// the way, exactly as `resolve_spec` describes.
pub fn resolve_receiver(
    accounts: &Vec<Account>,
    from: u64,
    start: u64,
    level: u8,
    max_hops: usize,
) -> (r: Result<(usize, Vec<MissedNotice>), EngineError>)
    requires
        wallets_unique(accounts@),
    ensures
        match resolve_spec(accounts@, from, start, level, max_hops as nat) {
            SpecResolve::Found { idx, missed } => {
                &&& r matches Ok(p)
                &&& p.0 == idx
                &&& p.1@ == missed
            },
            SpecResolve::Missing => r == Err::<(usize, Vec<MissedNotice>), EngineError>(
                EngineError::MissingUplineAccount,
            ),
            SpecResolve::HopLimit => r == Err::<(usize, Vec<MissedNotice>), EngineError>(
                EngineError::HopLimitExceeded,
            ),
        },
        r matches Ok(p) ==> {
            &&& 0 <= p.0 < accounts@.len()
            &&& account_active(accounts@[p.0 as int], level as int)
            &&& !accounts@[p.0 as int].slots@[level as int].blocked
        },
{
    let ghost target = resolve_spec(accounts@, from, start, level, max_hops as nat);
    let mut cur = start;
    let mut fuel = max_hops;
    let mut missed: Vec<MissedNotice> = Vec::new();
    loop
        invariant
            wallets_unique(accounts@),
            fuel <= max_hops,
            with_missed_seq(missed@, resolve_spec(accounts@, from, cur, level, fuel as nat))
                == target,
            target == resolve_spec(accounts@, from, start, level, max_hops as nat),
        decreases fuel,
    {
        let ghost rest = resolve_spec(accounts@, from, cur, level, fuel as nat);
        if fuel == 0 {
            assert(rest is HopLimit);
            return Err(EngineError::HopLimitExceeded);
        }
        match find_account_index(accounts, cur) {
            None => {
                assert(rest is Missing);
                return Err(EngineError::MissingUplineAccount);
            },
            Some(i) => {
                proof {
                    lemma_index_of_wallet(accounts@, cur, i as int);
                }
                let a = &accounts[i];
                if (level as usize) < a.slots.len() && !a.slots[level as usize].blocked {
                    assert(rest matches SpecResolve::Found { idx, missed: m } && idx == i as int
                        && m =~= Seq::<MissedNotice>::empty());
                    assert(missed@ + Seq::<MissedNotice>::empty() =~= missed@);
                    return Ok((i, missed));
                }
                let mode = if (level as usize) < a.slots.len() {
                    MissMode::Blocked
                } else {
                    MissMode::Overtaken
                };
                let notice = MissedNotice { receiver: cur, from, level, mode };
                let ghost rest_next = resolve_spec(
                    accounts@,
                    from,
                    a.referrer,
                    level,
                    (fuel - 1) as nat,
                );
                proof {
                    assert(rest == with_missed(notice, rest_next));
                    lemma_with_missed_seq_step(missed@, notice, rest_next);
                }
                missed.push(notice);
                cur = a.referrer;
                fuel = fuel - 1;
            },
        }
    }
}

/// Prefixes a whole sequence of missed-receive notices onto a resolution.
pub open spec fn with_missed_seq(ms: Seq<MissedNotice>, r: SpecResolve) -> SpecResolve {
    match r {
        SpecResolve::Found { idx, missed } => SpecResolve::Found { idx, missed: ms + missed },
        other => other,
    }
}

/// Absorbing one prefixed notice into the accumulated prefix.
proof fn lemma_with_missed_seq_step(ms: Seq<MissedNotice>, n: MissedNotice, r: SpecResolve)
    ensures
        with_missed_seq(ms, with_missed(n, r)) == with_missed_seq(ms.push(n), r),
{
    match r {
        SpecResolve::Found { idx, missed } => {
            assert(ms + (seq![n] + missed) =~= ms.push(n) + missed);
        },
        _ => {},
    }
}

/// Outcome of the pass-up walk that finds the nearest ancestor with a
/// level active.
pub enum SpecAncestor {
    /// The walk reached the root: the payment is routed to the staking
    /// pool.
    AncRoot,
    /// The nearest ancestor with the level active is at `idx`.
    AncFound { idx: int },
    /// The walk reached a wallet with no account in the directory.
    AncMissing,
    /// The walk ran out of its hop budget.
    AncHopLimit,
}

/// The pass-up walk used when a receiver's slot has just cycled: starting
/// from wallet `cur`, climb the referrer chain until the root or until an
/// account with `level` active (blocked or not); an empty referrer stands
/// for the root.
pub open spec fn ancestor_spec(
    s: Seq<Account>,
    root: u64,
    cur: u64,
    level: u8,
    fuel: nat,
) -> SpecAncestor
    decreases fuel,
{
    if cur == root {
        SpecAncestor::AncRoot
    } else if fuel == 0 {
        SpecAncestor::AncHopLimit
    } else if !has_wallet(s, cur) {
        SpecAncestor::AncMissing
    } else {
        let i = index_of_wallet(s, cur);
        if account_active(s[i], level as int) {
            SpecAncestor::AncFound { idx: i }
        } else {
            let next = if s[i].referrer == 0 {
                root
            } else {
                s[i].referrer
            };
            ancestor_spec(s, root, next, level, (fuel - 1) as nat)
        }
    }
}

/// Finds the nearest ancestor of wallet `start` with `level` active, or
/// reports that the walk ended at the root, with an explicit hop budget.
/// `Ok(None)` means the root: the caller routes the payment to the
/// staking pool.
pub fn find_pass_up_ancestor(
    accounts: &Vec<Account>,
    root: u64,
    start: u64,
    level: u8,
    max_hops: usize,
) -> (r: Result<Option<usize>, EngineError>)
    requires
        wallets_unique(accounts@),
    ensures
        match ancestor_spec(accounts@, root, start, level, max_hops as nat) {
            SpecAncestor::AncRoot => r == Ok::<Option<usize>, EngineError>(None),
            SpecAncestor::AncFound { idx } => {
                &&& r matches Ok(Some(i))
                &&& i == idx
            },
            SpecAncestor::AncMissing => r == Err::<Option<usize>, EngineError>(
                EngineError::MissingUplineAccount,
            ),
            SpecAncestor::AncHopLimit => r == Err::<Option<usize>, EngineError>(
                EngineError::HopLimitExceeded,
            ),
        },
        r matches Ok(Some(i)) ==> {
            &&& 0 <= i < accounts@.len()
            &&& account_active(accounts@[i as int], level as int)
            &&& accounts@[i as int].wallet != root
        },
{
    let mut cur = start;
    let mut fuel = max_hops;
    loop
        invariant
            wallets_unique(accounts@),
            fuel <= max_hops,
            ancestor_spec(accounts@, root, cur, level, fuel as nat) == ancestor_spec(
                accounts@,
                root,
                start,
                level,
                max_hops as nat,
            ),
        decreases fuel,
    {
        if cur == root {
            return Ok(None);
        }
        if fuel == 0 {
            return Err(EngineError::HopLimitExceeded);
        }
        match find_account_index(accounts, cur) {
            None => {
                return Err(EngineError::MissingUplineAccount);
            },
            Some(i) => {
                proof {
                    lemma_index_of_wallet(accounts@, cur, i as int);
                }
                let a = &accounts[i];
                if (level as usize) < a.slots.len() {
                    return Ok(Some(i));
                }
                cur = if a.referrer == 0 {
                    root
                } else {
                    a.referrer
                };
                fuel = fuel - 1;
            },
        }
    }
}

/// A resolution that found a receiver found a registered account with the
/// level active and unblocked.
pub proof fn lemma_resolve_found_props(
    s: Seq<Account>,
    from: u64,
    cur: u64,
    level: u8,
    fuel: nat,
)
    requires
        resolve_spec(s, from, cur, level, fuel) is Found,
    ensures
        ({
            let idx = resolve_spec(s, from, cur, level, fuel)->idx;
            &&& 0 <= idx < s.len()
            &&& account_active(s[idx], level as int)
            &&& !s[idx].slots@[level as int].blocked
        }),
    decreases fuel,
{
    if fuel == 0 {
    } else if !has_wallet(s, cur) {
    } else {
        let i = index_of_wallet(s, cur);
        assert(wallet_at(s, cur, i));
        if !account_active(s[i], level as int) || s[i].slots@[level as int].blocked {
            lemma_resolve_found_props(s, from, s[i].referrer, level, (fuel - 1) as nat);
        }
    }
}

/// A pass-up walk that found an ancestor found a registered account with
/// the level active.
pub proof fn lemma_ancestor_found_props(s: Seq<Account>, root: u64, cur: u64, level: u8, fuel: nat)
    requires
        ancestor_spec(s, root, cur, level, fuel) is AncFound,
    ensures
        ({
            let idx = ancestor_spec(s, root, cur, level, fuel)->AncFound_idx;
            &&& 0 <= idx < s.len()
            &&& account_active(s[idx], level as int)
        }),
    decreases fuel,
{
    if cur == root {
    } else if fuel == 0 {
    } else if !has_wallet(s, cur) {
    } else {
        let i = index_of_wallet(s, cur);
        assert(wallet_at(s, cur, i));
        if !account_active(s[i], level as int) {
            let next = if s[i].referrer == 0 {
                root
            } else {
                s[i].referrer
            };
            lemma_ancestor_found_props(s, root, next, level, (fuel - 1) as nat);
        }
    }
}

/// The referrer of the account at index `i` appears at an earlier index.
pub open spec fn referrer_precedes(s: Seq<Account>, i: int) -> bool {
    exists|j: int| 0 <= j < i && (#[trigger] s[j].wallet) == s[i].referrer
}

/// Well-formedness of an account directory with root identity `root` and
/// `max_level` configured levels: the root sits at index 0 with every
/// level active and unblocked and no referrer, wallets are unique and
/// non-zero, and every other account names a referrer that was registered
/// before it. Registration appends and referrer links never change, so
/// every upline walk strictly descends the indices and terminates at the
/// root.
pub open spec fn directory_wf(s: Seq<Account>, root: u64, max_level: int) -> bool {
    &&& s.len() >= 1
    &&& root != 0
    &&& s[0].wallet == root
    &&& s[0].referrer == 0
    &&& s[0].slots@.len() >= max_level
    &&& forall|l: int| 0 <= l < s[0].slots@.len() ==> !(#[trigger] s[0].slots@[l]).blocked
    &&& wallets_unique(s)
    &&& forall|i: int| 0 <= i < s.len() ==> (#[trigger] s[i].wallet) != 0
    &&& forall|i: int|
        1 <= i < s.len() ==> (#[trigger] s[i].referrer) != 0 && s[i].referrer != s[i].wallet
    &&& forall|i: int| 1 <= i < s.len() ==> #[trigger] referrer_precedes(s, i)
}

/// Directory well-formedness only reads each account's wallet and
/// referrer and the root account's slots, so it survives any change that
/// keeps those: balances, freezes, boosters, and non-root slots may move
/// freely.
pub proof fn lemma_directory_wf_preserved(
    s0: Seq<Account>,
    s1: Seq<Account>,
    root: u64,
    max_level0: int,
    max_level1: int,
)
    requires
        directory_wf(s0, root, max_level0),
        s1.len() == s0.len(),
        forall|i: int|
            0 <= i < s1.len() ==> (#[trigger] s1[i]).wallet == s0[i].wallet && s1[i].referrer
                == s0[i].referrer,
        s1[0].slots@.len() >= max_level1,
        forall|l: int| 0 <= l < s1[0].slots@.len() ==> !(#[trigger] s1[0].slots@[l]).blocked,
    ensures
        directory_wf(s1, root, max_level1),
{
    assert forall|i: int| 1 <= i < s1.len() implies #[trigger] referrer_precedes(s1, i) by {
        assert(referrer_precedes(s0, i));
        let j = choose|j: int| 0 <= j < i && (#[trigger] s0[j].wallet) == s0[i].referrer;
        assert(s1[j].wallet == s0[j].wallet);
        assert(s1[j].wallet == s1[i].referrer);
    }
}

/// In a well-formed directory, resolution started from any registered
/// wallet finds a receiver (the root in the worst case) whenever the hop
/// budget exceeds the start account's index, and the receiver sits at or
/// below that index.
pub proof fn lemma_resolve_under_wf(
    s: Seq<Account>,
    root: u64,
    max_level: int,
    from: u64,
    i: int,
    level: u8,
    fuel: nat,
)
    requires
        directory_wf(s, root, max_level),
        (level as int) < max_level,
        0 <= i < s.len(),
        fuel > i,
    ensures
        ({
            let r = resolve_spec(s, from, s[i].wallet, level, fuel);
            r matches SpecResolve::Found { idx, missed } && 0 <= idx <= i
        }),
    decreases i,
{
    let cur = s[i].wallet;
    lemma_index_of_wallet(s, cur, i);
    if account_active(s[i], level as int) && !s[i].slots@[level as int].blocked {
    } else {
        if i == 0 {
            assert(account_active(s[0], level as int));
            assert(!s[0].slots@[level as int].blocked);
        } else {
            assert(referrer_precedes(s, i));
            let j = choose|j: int| 0 <= j < i && (#[trigger] s[j].wallet) == s[i].referrer;
            lemma_resolve_under_wf(s, root, max_level, from, j, level, (fuel - 1) as nat);
        }
    }
}

/// In a well-formed directory, the pass-up walk from any registered
/// wallet (or from the root identity itself) ends at the root or at a
/// registered ancestor with the level active, whenever the hop budget
/// exceeds the start account's index.
pub proof fn lemma_ancestor_under_wf(
    s: Seq<Account>,
    root: u64,
    max_level: int,
    cur: u64,
    i: int,
    level: u8,
    fuel: nat,
)
    requires
        directory_wf(s, root, max_level),
        (level as int) < max_level,
        cur == root || (0 <= i < s.len() && s[i].wallet == cur),
        0 <= i,
        fuel > i,
    ensures
        ({
            let r = ancestor_spec(s, root, cur, level, fuel);
            ||| r is AncRoot
            ||| (r matches SpecAncestor::AncFound { idx } && 0 <= idx <= i)
        }),
    decreases i,
{
    if cur == root {
    } else {
        lemma_index_of_wallet(s, cur, i);
        if account_active(s[i], level as int) {
        } else {
            assert(i != 0) by {
                if i == 0 {
                    assert(account_active(s[0], level as int));
                }
            }
            assert(referrer_precedes(s, i));
            let j = choose|j: int| 0 <= j < i && (#[trigger] s[j].wallet) == s[i].referrer;
            assert(s[i].referrer != 0);
            lemma_ancestor_under_wf(
                s,
                root,
                max_level,
                s[i].referrer,
                j,
                level,
                (fuel - 1) as nat,
            );
        }
    }
}

} // verus!
