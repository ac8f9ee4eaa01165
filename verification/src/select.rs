//! Selection decisions: pick the least-loaded ready member of a tier, fan
//! out to every member of the private tier, fall through tiers in priority
//! order, and answer a broadcast from the first success.
//!
//! These functions are pure: the rate-limit verdicts they consume were
//! gathered beforehand, so every property here holds for every possible
//! behaviour of the limiter.

use vstd::prelude::*;

use crate::tier::{Verdict, Web3Connection, Web3ProviderTier};

verus! {

/// Member `i` of a tier is a usable candidate: in sync and admitted by the
/// rate limiter.
pub open spec fn cand_ready(synced: Seq<bool>, verdicts: Seq<Verdict>, i: int) -> bool {
    synced[i] && verdicts[i] is Ready
}

/// The load (in-flight request count) of member `i` of a tier.
pub open spec fn load(providers: Seq<Web3Connection>, members: Seq<usize>, i: int) -> u64 {
    providers[members[i] as int].active_requests
}

/// The result of picking one member from a tier.
pub enum Pick {
    /// No member of the tier is in sync.
    NoSync,
    /// Every in-sync member is rate-limited; none is available before this
    /// instant.
    Throttled(u64),
    /// The member at this position was chosen.
    Chosen(usize),
}

/// Pick one member of a tier: the first least-loaded candidate that is in
/// sync and admitted by the rate limiter; otherwise the earliest instant at
/// which a candidate frees up; otherwise report that nothing is in sync.
pub fn choose_one(
    providers: &Vec<Web3Connection>,
    tier: &Web3ProviderTier,
    verdicts: &Vec<Verdict>,
) -> (p: Pick)
    requires
        tier.wf(providers@.len() as nat),
        verdicts@.len() == tier.members@.len(),
    ensures
        (p is NoSync) <==> (forall|i: int|
            0 <= i < tier.members@.len() ==> !(#[trigger] tier.synced@[i])),
        (exists|i: int|
            0 <= i < tier.members@.len() && cand_ready(tier.synced@, verdicts@, i)) ==> p
            is Chosen,
        p matches Pick::Chosen(j) ==> {
            &&& 0 <= j < tier.members@.len()
            &&& cand_ready(tier.synced@, verdicts@, j as int)
            &&& forall|k: int|
                0 <= k < tier.members@.len() && cand_ready(tier.synced@, verdicts@, k) ==> load(
                    providers@,
                    tier.members@,
                    j as int,
                ) <= load(providers@, tier.members@, k)
            &&& forall|k: int|
                0 <= k < j && cand_ready(tier.synced@, verdicts@, k) ==> load(
                    providers@,
                    tier.members@,
                    k,
                ) > load(providers@, tier.members@, j as int)
        },
        p matches Pick::Throttled(t) ==> {
            &&& exists|i: int| 0 <= i < tier.members@.len() && (#[trigger] tier.synced@[i])
            &&& forall|i: int|
                0 <= i < tier.members@.len() ==> !cand_ready(tier.synced@, verdicts@, i)
            &&& exists|i: int|
                0 <= i < tier.members@.len() && (#[trigger] tier.synced@[i]) && verdicts@[i]
                    == Verdict::Wait(t)
            &&& forall|i: int|
                0 <= i < tier.members@.len() && (#[trigger] tier.synced@[i]) && verdicts@[i] is Wait ==> t <= verdicts@[i]->Wait_0
        },
{
    let n = tier.members.len();
    let mut best: Option<usize> = None;
    let mut earliest: Option<u64> = None;
    let mut any_synced = false;
    let mut k: usize = 0;
    while k < n
        invariant
            k <= n,
            n == tier.members@.len(),
            tier.wf(providers@.len() as nat),
            verdicts@.len() == n,
            any_synced == exists|i: int| 0 <= i < k && (#[trigger] tier.synced@[i]),
            best matches Some(j) ==> {
                &&& 0 <= j < k
                &&& cand_ready(tier.synced@, verdicts@, j as int)
                &&& forall|i: int|
                    0 <= i < k && cand_ready(tier.synced@, verdicts@, i) ==> load(
                        providers@,
                        tier.members@,
                        j as int,
                    ) <= load(providers@, tier.members@, i)
                &&& forall|i: int|
                    0 <= i < j && cand_ready(tier.synced@, verdicts@, i) ==> load(
                        providers@,
                        tier.members@,
                        i,
                    ) > load(providers@, tier.members@, j as int)
            },
            best is None ==> forall|i: int| 0 <= i < k ==> !cand_ready(tier.synced@, verdicts@, i),
            earliest matches Some(t) ==> {
                &&& exists|i: int|
                    0 <= i < k && (#[trigger] tier.synced@[i]) && verdicts@[i] == Verdict::Wait(t)
                &&& forall|i: int|
                    0 <= i < k && (#[trigger] tier.synced@[i]) && verdicts@[i] is Wait ==> t
                        <= verdicts@[i]->Wait_0
            },
            earliest is None ==> forall|i: int|
                0 <= i < k && (#[trigger] tier.synced@[i]) ==> !(verdicts@[i] is Wait),
        decreases n - k,
    {
        if tier.synced[k] {
            any_synced = true;
            match verdicts[k] {
                Verdict::Ready => {
                    let take = match best {
                        None => true,
                        Some(j) => providers[tier.members[k]].active_requests
                            < providers[tier.members[j]].active_requests,
                    };
                    if take {
                        best = Some(k);
                    }
                },
                Verdict::Wait(t) => {
                    let take = match earliest {
                        None => true,
                        Some(e) => t < e,
                    };
                    if take {
                        earliest = Some(t);
                    }
                },
            }
        }
        k = k + 1;
    }
    match best {
        Some(j) => Pick::Chosen(j),
        None => {
            if any_synced {
                match earliest {
                    Some(t) => Pick::Throttled(t),
                    None => {
                        // unreachable: a synced member is either ready or waiting
                        proof {
                            let i = choose|i: int| 0 <= i < n && #[trigger] tier.synced@[i];
                            assert(!cand_ready(tier.synced@, verdicts@, i));
                            assert(!(verdicts@[i] is Wait));
                            assert(false);
                        }
                        Pick::Throttled(0)
                    },
                }
            } else {
                Pick::NoSync
            }
        },
    }
}

/// The result of picking every member of the private tier.
pub enum AllPick {
    /// Every in-sync member was admitted; their positions, in tier order.
    All(Vec<usize>),
    /// Some in-sync member is rate-limited; none of those frees up before
    /// this instant.
    Throttled(u64),
}

/// All-or-nothing pick for the private tier: succeed with every in-sync
/// member exactly when none of them is rate-limited.
pub fn choose_all(tier: &Web3ProviderTier, verdicts: &Vec<Verdict>) -> (r: AllPick)
    requires
        tier.members@.len() == tier.synced@.len(),
        verdicts@.len() == tier.members@.len(),
    ensures
        (r is All) <==> (forall|i: int|
            0 <= i < tier.members@.len() && (#[trigger] tier.synced@[i]) ==> verdicts@[i]
                is Ready),
        r matches AllPick::All(v) ==> {
            &&& forall|a: int, b: int| 0 <= a < b < v@.len() ==> v@[a] < v@[b]
            &&& forall|a: int|
                0 <= a < v@.len() ==> (#[trigger] v@[a]) < tier.members@.len()
                    && tier.synced@[v@[a] as int]
            &&& forall|i: int|
                0 <= i < tier.members@.len() && (#[trigger] tier.synced@[i]) ==> exists|a: int|
                    0 <= a < v@.len() && v@[a] == i
        },
        r matches AllPick::Throttled(t) ==> {
            &&& exists|i: int|
                0 <= i < tier.members@.len() && (#[trigger] tier.synced@[i]) && verdicts@[i]
                    == Verdict::Wait(t)
            &&& forall|i: int|
                0 <= i < tier.members@.len() && (#[trigger] tier.synced@[i]) && verdicts@[i] is Wait ==> t <= verdicts@[i]->Wait_0
        },
{
    let n = tier.members.len();
    let mut earliest: Option<u64> = None;
    let mut k: usize = 0;
    while k < n
        invariant
            k <= n,
            n == tier.members@.len() == tier.synced@.len(),
            verdicts@.len() == n,
            earliest matches Some(t) ==> {
                &&& exists|i: int|
                    0 <= i < k && (#[trigger] tier.synced@[i]) && verdicts@[i] == Verdict::Wait(t)
                &&& forall|i: int|
                    0 <= i < k && (#[trigger] tier.synced@[i]) && verdicts@[i] is Wait ==> t
                        <= verdicts@[i]->Wait_0
            },
            earliest is None ==> forall|i: int|
                0 <= i < k && (#[trigger] tier.synced@[i]) ==> verdicts@[i] is Ready,
        decreases n - k,
    {
        if tier.synced[k] {
            match verdicts[k] {
                Verdict::Ready => {},
                Verdict::Wait(t) => {
                    let take = match earliest {
                        None => true,
                        Some(e) => t < e,
                    };
                    if take {
                        earliest = Some(t);
                    }
                },
            }
        }
        k = k + 1;
    }
    match earliest {
        Some(t) => AllPick::Throttled(t),
        None => {
            let mut v: Vec<usize> = Vec::new();
            let mut k: usize = 0;
            while k < n
                invariant
                    k <= n,
                    n == tier.members@.len() == tier.synced@.len(),
                    forall|a: int, b: int| 0 <= a < b < v@.len() ==> v@[a] < v@[b],
                    forall|a: int|
                        0 <= a < v@.len() ==> (#[trigger] v@[a]) < k && tier.synced@[v@[a] as int],
                    forall|i: int|
                        0 <= i < k && (#[trigger] tier.synced@[i]) ==> exists|a: int|
                            0 <= a < v@.len() && v@[a] == i,
                decreases n - k,
            {
                let ghost v0 = v@;
                if tier.synced[k] {
                    v.push(k);
                }
                proof {
                    assert forall|i: int| 0 <= i < k + 1 && #[trigger] tier.synced@[i] implies exists|a: int|
                        0 <= a < v@.len() && v@[a] == i by {
                        if i == k {
                            assert(v@[v@.len() - 1] == i);
                        } else {
                            let a = choose|a: int| 0 <= a < v0.len() && v0[a] == i;
                            assert(v@[a] == i);
                        }
                    }
                }
                k = k + 1;
            }
            AllPick::All(v)
        },
    }
}

/// The balanced path's decision for one attempt, given each tier's
/// verdicts.
pub enum Outcome {
    /// Dispatch: the first value names the tier, the second the member
    /// position within it.
    Dispatch(usize, usize),
    /// Everything usable is rate-limited; sleep until this instant and try
    /// again.
    SleepUntil(u64),
    /// No tier has an in-sync member; back off briefly and try again.
    Backoff,
}

/// Walk the tiers in priority order and dispatch to the first tier with a
/// usable candidate; otherwise sleep until the earliest instant any
/// candidate frees up; otherwise back off.
///
/// Tier priority: if the highest-priority tier has a usable candidate, the
/// dispatch goes there.
pub fn decide_balanced(
    providers: &Vec<Web3Connection>,
    tiers: &Vec<Web3ProviderTier>,
    verdicts: &Vec<Vec<Verdict>>,
) -> (o: Outcome)
    requires
        forall|t: int| 0 <= t < tiers@.len() ==> (#[trigger] tiers@[t]).wf(providers@.len() as nat),
        verdicts@.len() == tiers@.len(),
        forall|t: int|
            0 <= t < tiers@.len() ==> (#[trigger] verdicts@[t])@.len() == tiers@[t].members@.len(),
    ensures
        o matches Outcome::Dispatch(t, j) ==> {
            &&& 0 <= t < tiers@.len()
            &&& 0 <= j < tiers@[t as int].members@.len()
            &&& cand_ready(tiers@[t as int].synced@, verdicts@[t as int]@, j as int)
            &&& forall|k: int|
                0 <= k < tiers@[t as int].members@.len() && cand_ready(
                    tiers@[t as int].synced@,
                    verdicts@[t as int]@,
                    k,
                ) ==> load(providers@, tiers@[t as int].members@, j as int) <= load(
                    providers@,
                    tiers@[t as int].members@,
                    k,
                )
            &&& forall|u: int, i: int|
                #![trigger cand_ready(tiers@[u].synced@, verdicts@[u]@, i)]
                0 <= u < t && 0 <= i < tiers@[u].members@.len() ==> !cand_ready(
                    tiers@[u].synced@,
                    verdicts@[u]@,
                    i,
                )
        },
        (exists|t: int, i: int|
            #![trigger cand_ready(tiers@[t].synced@, verdicts@[t]@, i)]
            0 <= t < tiers@.len() && 0 <= i < tiers@[t].members@.len() && cand_ready(
                tiers@[t].synced@,
                verdicts@[t]@,
                i,
            )) ==> o is Dispatch,
        (tiers@.len() > 0 && exists|i: int|
            0 <= i < tiers@[0].members@.len() && cand_ready(
                tiers@[0].synced@,
                verdicts@[0]@,
                i,
            )) ==> (o is Dispatch && o->Dispatch_0 == 0),
        o matches Outcome::SleepUntil(w) ==> {
            &&& forall|t: int, i: int|
                #![trigger cand_ready(tiers@[t].synced@, verdicts@[t]@, i)]
                0 <= t < tiers@.len() && 0 <= i < tiers@[t].members@.len() ==> !cand_ready(
                    tiers@[t].synced@,
                    verdicts@[t]@,
                    i,
                )
            &&& exists|t: int, i: int|
                0 <= t < tiers@.len() && 0 <= i < tiers@[t].members@.len() && (
                #[trigger] tiers@[t].synced@[i]) && (#[trigger] verdicts@[t])@[i]
                    == Verdict::Wait(w)
            &&& forall|t: int, i: int|
                0 <= t < tiers@.len() && 0 <= i < tiers@[t].members@.len() && (
                #[trigger] tiers@[t].synced@[i]) && (#[trigger] verdicts@[t])@[i] is Wait ==> w
                    <= (verdicts@[t])@[i]->Wait_0
        },
        (o is Backoff) <==> (forall|t: int, i: int|
            0 <= t < tiers@.len() && 0 <= i < tiers@[t].members@.len() ==> !(
            #[trigger] tiers@[t].synced@[i])),
{
    let n = tiers.len();
    let mut earliest: Option<u64> = None;
    let mut t: usize = 0;
    while t < n
        invariant
            t <= n,
            n == tiers@.len(),
            verdicts@.len() == n,
            forall|u: int|
                0 <= u < tiers@.len() ==> (#[trigger] tiers@[u]).wf(providers@.len() as nat),
            forall|u: int|
                0 <= u < tiers@.len() ==> (#[trigger] verdicts@[u])@.len()
                    == tiers@[u].members@.len(),
            forall|u: int, i: int|
                #![trigger cand_ready(tiers@[u].synced@, verdicts@[u]@, i)]
                0 <= u < t && 0 <= i < tiers@[u].members@.len() ==> !cand_ready(
                    tiers@[u].synced@,
                    verdicts@[u]@,
                    i,
                ),
            earliest matches Some(w) ==> {
                &&& exists|u: int, i: int|
                    0 <= u < t && 0 <= i < tiers@[u].members@.len() && (
                    #[trigger] tiers@[u].synced@[i]) && (#[trigger] verdicts@[u])@[i]
                        == Verdict::Wait(w)
                &&& forall|u: int, i: int|
                    0 <= u < t && 0 <= i < tiers@[u].members@.len() && (
                    #[trigger] tiers@[u].synced@[i]) && (#[trigger] verdicts@[u])@[i] is Wait ==> w
                        <= (verdicts@[u])@[i]->Wait_0
            },
            earliest is None ==> forall|u: int, i: int|
                0 <= u < t && 0 <= i < tiers@[u].members@.len() ==> !(
                #[trigger] tiers@[u].synced@[i]),
        decreases n - t,
    {
        match choose_one(providers, &tiers[t], &verdicts[t]) {
            Pick::Chosen(j) => {
                return Outcome::Dispatch(t, j);
            },
            Pick::Throttled(w) => {
                let take = match earliest {
                    None => true,
                    Some(e) => w < e,
                };
                if take {
                    earliest = Some(w);
                }
            },
            Pick::NoSync => {},
        }
        t = t + 1;
    }
    match earliest {
        Some(w) => Outcome::SleepUntil(w),
        None => Outcome::Backoff,
    }
}

/// What one upstream dispatch produced: the raw JSON of a successful
/// result, or the text of a failure.
pub enum UpstreamResult {
    /// Raw JSON of a successful upstream result.
    Good(String),
    /// Text describing a transport or upstream failure.
    Bad(String),
}

/// The position of the first successful response, if any: the fan-out
/// answer is the first success in arrival order.
pub fn first_success(results: &Vec<UpstreamResult>) -> (r: Option<usize>)
    ensures
        r matches Some(i) ==> 0 <= i < results@.len() && results@[i as int] is Good && forall|k: int|
            0 <= k < i ==> (#[trigger] results@[k]) is Bad,
        r is None <==> forall|k: int| 0 <= k < results@.len() ==> (#[trigger] results@[k]) is Bad,
{
    let n = results.len();
    let mut k: usize = 0;
    while k < n
        invariant
            k <= n,
            n == results@.len(),
            forall|i: int| 0 <= i < k ==> (#[trigger] results@[i]) is Bad,
        decreases n - k,
    {
        match &results[k] {
            UpstreamResult::Good(_) => {
                return Some(k);
            },
            UpstreamResult::Bad(_) => {},
        }
        k = k + 1;
    }
    None
}

/// The counters lie within one of each other.
pub open spec fn spread_le_one(counts: Seq<u64>) -> bool {
    forall|a: int, b: int|
        0 <= a < counts.len() && 0 <= b < counts.len() ==> counts[a] <= counts[b] + 1
}

/// Position `j` holds a least-loaded counter.
pub open spec fn is_min_pick(counts: Seq<u64>, j: int) -> bool {
    &&& 0 <= j < counts.len()
    &&& forall|k: int| 0 <= k < counts.len() ==> counts[j] <= counts[k]
}

/// The counters after a run of picks, each pick raising its member's
/// counter by one.
pub open spec fn after_picks(counts: Seq<u64>, picks: Seq<int>) -> Seq<u64>
    decreases picks.len(),
{
    if picks.len() == 0 {
        counts
    } else {
        after_picks(
            counts.update(picks[0], (counts[picks[0]] + 1) as u64),
            picks.drop_first(),
        )
    }
}

/// Every pick of the run takes a least-loaded member at its moment, with
/// room left in its counter.
pub open spec fn picks_least_loaded(counts: Seq<u64>, picks: Seq<int>) -> bool
    decreases picks.len(),
{
    if picks.len() == 0 {
        true
    } else {
        &&& is_min_pick(counts, picks[0])
        &&& counts[picks[0]] < u64::MAX
        &&& picks_least_loaded(
            counts.update(picks[0], (counts[picks[0]] + 1) as u64),
            picks.drop_first(),
        )
    }
}

/// Load fairness within a tier: one new request on a least-loaded member
/// keeps the in-flight counters within one of each other.
pub proof fn lemma_fairness_step(counts: Seq<u64>, j: int)
    requires
        0 <= j < counts.len(),
        forall|k: int| 0 <= k < counts.len() ==> counts[j] <= counts[k],
        forall|a: int, b: int| 0 <= a < counts.len() && 0 <= b < counts.len() ==> counts[a] <= counts[b] + 1,
        counts[j] < u64::MAX,
    ensures
        forall|a: int, b: int|
            #![trigger counts.update(j, (counts[j] + 1) as u64)[a], counts.update(j, (counts[j] + 1) as u64)[b]]
            0 <= a < counts.len() && 0 <= b < counts.len() ==> counts.update(
                j,
                (counts[j] + 1) as u64,
            )[a] <= counts.update(j, (counts[j] + 1) as u64)[b] + 1,
{
}

/// Load fairness within a tier over any number of requests: starting
/// within one of each other, a run in which every request goes to a
/// least-loaded member — what `choose_one` fixes for each selection —
/// leaves the counters within one of each other at every instant.
pub proof fn lemma_fairness_run(counts: Seq<u64>, picks: Seq<int>)
    requires
        spread_le_one(counts),
        picks_least_loaded(counts, picks),
    ensures
        spread_le_one(after_picks(counts, picks)),
    decreases picks.len(),
{
    if picks.len() > 0 {
        let j = picks[0];
        let next = counts.update(j, (counts[j] + 1) as u64);
        lemma_fairness_step(counts, j);
        assert(spread_le_one(next));
        lemma_fairness_run(next, picks.drop_first());
    }
}

} // verus!
