use web3_proxy::proxy::{BroadcastPick, ConfigError, ProxyCore, Transport, transport_of};
use web3_proxy::select::{first_success, Outcome, UpstreamResult};

fn entry(url: &str, rate: u32) -> (String, u32) {
    (String::from(url), rate)
}

fn sync_all(core: &mut ProxyCore, number: u64) {
    let n = core.providers.len();
    for p in 0..n {
        core.handle_new_head(p, number, String::from("0xhead"), 0).unwrap();
    }
}

#[test]
fn url_schemes_select_transports() {
    assert!(matches!(transport_of("http://10.11.12.16:8545"), Some(Transport::Http)));
    assert!(matches!(transport_of("https://rpc.example"), Some(Transport::Http)));
    assert!(matches!(transport_of("ws://10.11.12.16:8546"), Some(Transport::Ws)));
    assert!(matches!(transport_of("wss://rpc.example"), Some(Transport::Ws)));
    assert!(transport_of("ftp://rpc.example").is_none());
    assert!(transport_of("rpc.example").is_none());
}

#[test]
fn bad_scheme_is_a_config_error() {
    let r = ProxyCore::try_new(vec![vec![entry("ftp://bad.example", 0)]], vec![], 0);
    assert!(matches!(r, Err(ConfigError::BadScheme)));
}

#[test]
fn unparseable_url_is_a_config_error() {
    let r = ProxyCore::try_new(vec![vec![entry("http://bad host.example", 0)]], vec![], 0);
    assert!(matches!(r, Err(ConfigError::BadUrl)));
    let r = ProxyCore::try_new(
        vec![vec![entry("http://good.example", 0)]],
        vec![entry("ws://also bad", 0)],
        0,
    );
    assert!(matches!(r, Err(ConfigError::BadUrl)));
}

#[test]
fn single_healthy_provider_serves_the_request() {
    let mut core =
        ProxyCore::try_new(vec![vec![entry("http://one.example", 0)]], vec![], 0).unwrap();
    sync_all(&mut core, 100);
    match core.next_balanced() {
        Outcome::Dispatch(t, j) => {
            assert_eq!(t, 0);
            assert_eq!(j, 0);
        }
        _ => panic!("expected a dispatch"),
    }
    assert_eq!(core.providers[0].active_requests, 1);
    let body = web3_proxy::envelope::build_success_response("\"2.0\"", "7", "\"0xabc\"");
    assert_eq!(body, "{\"jsonrpc\":\"2.0\",\"id\":7,\"result\":\"0xabc\"}");
    core.dec_active(0);
    assert_eq!(core.providers[0].active_requests, 0);
}

#[test]
fn lagging_tier_falls_through_to_the_next() {
    let mut core = ProxyCore::try_new(
        vec![
            vec![entry("http://behind.example", 0)],
            vec![entry("http://fresh.example", 0)],
        ],
        vec![],
        2,
    )
    .unwrap();
    // provider 1 reports the best head 10; provider 0 lags by allowed_lag + 1
    core.handle_new_head(1, 10, String::from("0xa"), 0).unwrap();
    core.handle_new_head(0, 7, String::from("0xb"), 0).unwrap();
    match core.next_balanced() {
        Outcome::Dispatch(t, j) => {
            assert_eq!(t, 1);
            assert_eq!(j, 0);
        }
        _ => panic!("expected a dispatch to the second tier"),
    }
    assert_eq!(core.providers[0].active_requests, 0);
    assert_eq!(core.providers[1].active_requests, 1);
}

#[test]
fn nothing_in_sync_means_backoff() {
    let mut core =
        ProxyCore::try_new(vec![vec![entry("http://one.example", 0)]], vec![], 0).unwrap();
    match core.next_balanced() {
        Outcome::Backoff => {}
        _ => panic!("expected a backoff before any head was seen"),
    }
    assert_eq!(core.providers[0].active_requests, 0);
}

#[test]
fn exhausted_rate_limit_asks_for_a_sleep() {
    let mut core =
        ProxyCore::try_new(vec![vec![entry("http://limited.example", 1)]], vec![], 0).unwrap();
    sync_all(&mut core, 5);
    match core.next_balanced() {
        Outcome::Dispatch(t, j) => {
            assert_eq!(t, 0);
            assert_eq!(j, 0);
        }
        _ => panic!("the first request must pass the limiter"),
    }
    let now = core.clock.now_nanos();
    let when = match core.next_balanced() {
        Outcome::SleepUntil(when) => {
            assert!(when > now, "the throttle must lift in the future");
            when
        }
        _ => panic!("the second immediate request must be throttled"),
    };
    // per-provider dispatch count after the burst: exactly one
    assert_eq!(core.providers[0].active_requests, 1);
    // throttle wake-up: once the reported instant has passed, a retry goes
    // through (plus a small margin for clock granularity)
    let margin = 50_000_000u64;
    while core.clock.now_nanos() < when + margin {}
    match core.next_balanced() {
        Outcome::Dispatch(t, j) => {
            assert_eq!(t, 0);
            assert_eq!(j, 0);
        }
        _ => panic!("the retry after the throttle lifted must pass"),
    }
    assert_eq!(core.providers[0].active_requests, 2);
}

#[test]
fn load_stays_balanced_over_many_requests() {
    let mut core = ProxyCore::try_new(
        vec![vec![entry("http://a.example", 0), entry("http://b.example", 0)]],
        vec![],
        0,
    )
    .unwrap();
    sync_all(&mut core, 1);
    for _ in 0..100 {
        match core.next_balanced() {
            Outcome::Dispatch(_, _) => {}
            _ => panic!("both providers are unlimited and in sync"),
        }
        let a = core.providers[0].active_requests as i64;
        let b = core.providers[1].active_requests as i64;
        assert!((a - b).abs() <= 1, "counts drifted apart: {} vs {}", a, b);
    }
    assert_eq!(core.providers[0].active_requests, 50);
    assert_eq!(core.providers[1].active_requests, 50);
}

#[test]
fn private_broadcast_answers_from_the_first_success() {
    let mut core = ProxyCore::try_new(
        vec![vec![entry("http://pub.example", 0)]],
        vec![
            entry("http://p1.example", 0),
            entry("http://p2.example", 0),
            entry("http://p3.example", 0),
        ],
        0,
    )
    .unwrap();
    sync_all(&mut core, 42);
    let fanout = match core.pick_private() {
        BroadcastPick::Fanout(v) => v,
        _ => panic!("all private providers are in sync and unlimited"),
    };
    assert_eq!(fanout.len(), 3);
    for &p in fanout.iter() {
        assert_eq!(core.providers[p].active_requests, 1);
    }
    // responses in arrival order: the fastest provider answered first
    let results = vec![
        UpstreamResult::Good(String::from("\"0xhash\"")),
        UpstreamResult::Bad(String::from("slow")),
        UpstreamResult::Bad(String::from("slow")),
    ];
    let winner = first_success(&results).unwrap();
    assert_eq!(winner, 0);
    match &results[winner] {
        UpstreamResult::Good(raw) => assert_eq!(raw, "\"0xhash\""),
        UpstreamResult::Bad(_) => panic!("the winner must be a success"),
    }
    for &p in fanout.iter() {
        core.dec_active(p);
        assert_eq!(core.providers[p].active_requests, 0);
    }
}

#[test]
fn all_failures_surface_no_success() {
    let results = vec![
        UpstreamResult::Bad(String::from("refused")),
        UpstreamResult::Bad(String::from("timeout")),
    ];
    assert!(first_success(&results).is_none());
}

#[test]
fn no_private_tier_disables_the_broadcast_path() {
    let mut core =
        ProxyCore::try_new(vec![vec![entry("http://one.example", 0)]], vec![], 0).unwrap();
    assert!(core.private_tier.is_none());
    match core.pick_private() {
        BroadcastPick::NoPrivate => {}
        _ => panic!("no private tier is configured"),
    }
    // the raw transaction then goes down the balanced path like any method
    sync_all(&mut core, 1);
    match core.next_balanced() {
        Outcome::Dispatch(0, 0) => {}
        _ => panic!("the balanced path must serve it"),
    }
}

#[test]
fn best_head_never_decreases() {
    let mut core =
        ProxyCore::try_new(vec![vec![entry("http://one.example", 0)]], vec![], 0).unwrap();
    core.handle_new_head(0, 5, String::from("0xa"), 0).unwrap();
    assert_eq!(core.watcher.best_head(), 5);
    core.handle_new_head(0, 3, String::from("0xb"), 1).unwrap();
    assert_eq!(core.watcher.best_head(), 5);
    core.handle_new_head(0, 10, String::from("0xc"), 2).unwrap();
    assert_eq!(core.watcher.best_head(), 10);
    assert_eq!(core.watcher.head_number_of(0), Some(10));
}

#[test]
fn reannounced_head_still_updates_the_slot() {
    let mut core =
        ProxyCore::try_new(vec![vec![entry("http://one.example", 0)]], vec![], 0).unwrap();
    core.handle_new_head(0, 5, String::from("0xa"), 0).unwrap();
    core.handle_new_head(0, 5, String::from("0xa"), 9).unwrap();
    assert_eq!(core.watcher.best_head(), 5);
    assert_eq!(core.watcher.head_number_of(0), Some(5));
}

#[test]
fn providers_are_found_by_url() {
    let core = ProxyCore::try_new(
        vec![vec![entry("http://a.example", 0)], vec![entry("http://b.example", 3)]],
        vec![],
        0,
    )
    .unwrap();
    assert_eq!(core.find_provider(&String::from("http://b.example")), Some(1));
    assert_eq!(core.find_provider(&String::from("http://nope.example")), None);
    assert_eq!(core.providers[1].rate, 3);
}
