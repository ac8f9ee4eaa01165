use web3_proxy::proxy::Transport;
use web3_proxy::select::{choose_all, choose_one, decide_balanced, AllPick, Outcome, Pick};
use web3_proxy::tier::{Verdict, Web3Connection, Web3ProviderTier};

fn conn(url: &str, active: u64) -> Web3Connection {
    Web3Connection {
        url: String::from(url),
        transport: Transport::Http,
        rate: 0,
        active_requests: active,
        gate: None,
    }
}

fn tier(members: Vec<usize>, synced: Vec<bool>) -> Web3ProviderTier {
    Web3ProviderTier { members, synced }
}

#[test]
fn tier_priority_prefers_the_highest_tier() {
    let providers = vec![conn("http://t0.example", 9), conn("http://t1.example", 0)];
    let tiers = vec![tier(vec![0], vec![true]), tier(vec![1], vec![true])];
    let verdicts = vec![vec![Verdict::Ready], vec![Verdict::Ready]];
    // tier 0 has a usable candidate, so the dispatch goes there even though
    // tier 1 is far less loaded
    match decide_balanced(&providers, &tiers, &verdicts) {
        Outcome::Dispatch(t, j) => {
            assert_eq!(t, 0);
            assert_eq!(j, 0);
        }
        _ => panic!("tier 0 has a ready candidate"),
    }
}

#[test]
fn first_least_loaded_candidate_wins() {
    let providers = vec![
        conn("http://a.example", 2),
        conn("http://b.example", 1),
        conn("http://c.example", 1),
    ];
    let t = tier(vec![0, 1, 2], vec![true, true, true]);
    let verdicts = vec![Verdict::Ready, Verdict::Ready, Verdict::Ready];
    match choose_one(&providers, &t, &verdicts) {
        Pick::Chosen(j) => assert_eq!(j, 1),
        _ => panic!("a candidate is ready"),
    }
}

#[test]
fn rate_limited_members_are_passed_over() {
    let providers = vec![conn("http://a.example", 0), conn("http://b.example", 5)];
    let t = tier(vec![0, 1], vec![true, true]);
    let verdicts = vec![Verdict::Wait(900), Verdict::Ready];
    match choose_one(&providers, &t, &verdicts) {
        Pick::Chosen(j) => assert_eq!(j, 1),
        _ => panic!("the second member is ready"),
    }
}

#[test]
fn sleep_until_the_earliest_throttle_lifts() {
    let providers = vec![conn("http://a.example", 0), conn("http://b.example", 0)];
    let tiers = vec![tier(vec![0], vec![true]), tier(vec![1], vec![true])];
    let verdicts = vec![vec![Verdict::Wait(700)], vec![Verdict::Wait(300)]];
    match decide_balanced(&providers, &tiers, &verdicts) {
        Outcome::SleepUntil(w) => assert_eq!(w, 300),
        _ => panic!("everything is throttled"),
    }
}

#[test]
fn out_of_sync_tiers_are_skipped() {
    let providers = vec![conn("http://a.example", 0), conn("http://b.example", 0)];
    let tiers = vec![tier(vec![0], vec![false]), tier(vec![1], vec![true])];
    let verdicts = vec![vec![Verdict::Ready], vec![Verdict::Ready]];
    match decide_balanced(&providers, &tiers, &verdicts) {
        Outcome::Dispatch(t, j) => {
            assert_eq!(t, 1);
            assert_eq!(j, 0);
        }
        _ => panic!("tier 1 has a ready candidate"),
    }
}

#[test]
fn nothing_synced_anywhere_means_backoff() {
    let providers = vec![conn("http://a.example", 0)];
    let tiers = vec![tier(vec![0], vec![false])];
    let verdicts = vec![vec![Verdict::Ready]];
    match decide_balanced(&providers, &tiers, &verdicts) {
        Outcome::Backoff => {}
        _ => panic!("no tier has an in-sync member"),
    }
}

#[test]
fn broadcast_takes_all_in_sync_members_or_none() {
    let t = tier(vec![0, 1, 2], vec![true, false, true]);
    let ready = vec![Verdict::Ready, Verdict::Wait(50), Verdict::Ready];
    match choose_all(&t, &ready) {
        AllPick::All(v) => assert_eq!(v, vec![0, 2]),
        AllPick::Throttled(_) => panic!("the throttled member is out of sync"),
    }
    let throttled = vec![Verdict::Wait(80), Verdict::Ready, Verdict::Wait(40)];
    match choose_all(&t, &throttled) {
        AllPick::Throttled(w) => assert_eq!(w, 40),
        AllPick::All(_) => panic!("two in-sync members are throttled"),
    }
}
