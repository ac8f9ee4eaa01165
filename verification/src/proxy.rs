//! The proxy core: configuration, the provider registry, and the two
//! dispatch paths' decisions.
//!
//! The core owns the providers, the balanced tiers, the optional private
//! tier and the block watcher. The front end drives it with plain values:
//! head observations come in, dispatch decisions come out.

use vstd::prelude::*;

use crate::limiter::{ProxyClock, RateGate};
use crate::select::{choose_all, choose_one, AllPick, Outcome, Pick};
use crate::tier::{
    gather_verdicts, in_sync, providers_wf, Web3Connection, Web3ProviderTier,
};
use crate::watcher::{BlockWatcher, Head};

verus! {

/// How a provider is reached, decided by its URL scheme.
#[derive(Clone, Copy, Debug, PartialEq, Eq, Structural)]
pub enum Transport {
    /// `http://` or `https://`: polled for new heads.
    Http,
    /// `ws://` or `wss://`: subscribed for new heads.
    Ws,
}

/// A configuration the proxy cannot start with.
#[derive(Clone, Copy, Debug, PartialEq, Eq, Structural)]
pub enum ConfigError {
    /// A provider URL has a scheme that is neither HTTP nor WebSocket.
    BadScheme,
    /// A provider URL is not a URL at all: the parser rejects it.
    BadUrl,
}

/// A head event that names no configured provider: a programming error.
#[derive(Clone, Copy, Debug, PartialEq, Eq, Structural)]
pub enum SyncError {
    /// The provider index belongs to no tier.
    UnknownProvider,
}

/// `p` is a prefix of `s`.
pub open spec fn has_prefix(s: Seq<char>, p: Seq<char>) -> bool {
    p.len() <= s.len() && forall|i: int| 0 <= i < p.len() ==> s[i] == p[i]
}

/// The transport a URL selects, if any.
pub open spec fn scheme_of(url: Seq<char>) -> Option<Transport> {
    if has_prefix(url, "http://"@) || has_prefix(url, "https://"@) {
        Some(Transport::Http)
    } else if has_prefix(url, "ws://"@) || has_prefix(url, "wss://"@) {
        Some(Transport::Ws)
    } else {
        None
    }
}

/// Whether `p` is a prefix of `s`.
pub fn starts_with_str(s: &str, p: &str) -> (b: bool)
    ensures
        b == has_prefix(s@, p@),
{
    let np = p.unicode_len();
    let ns = s.unicode_len();
    if np > ns {
        return false;
    }
    let mut i: usize = 0;
    while i < np
        invariant
            i <= np,
            np == p@.len(),
            np <= s@.len(),
            forall|k: int| 0 <= k < i ==> s@[k] == p@[k],
        decreases np - i,
    {
        if s.get_char(i) != p.get_char(i) {
            return false;
        }
        i = i + 1;
    }
    true
}

/// Classify a URL by its scheme.
pub fn transport_of(url: &str) -> (r: Option<Transport>)
    ensures
        r == scheme_of(url@),
{
    if starts_with_str(url, "http://") || starts_with_str(url, "https://") {
        Some(Transport::Http)
    } else if starts_with_str(url, "ws://") || starts_with_str(url, "wss://") {
        Some(Transport::Ws)
    } else {
        None
    }
}

/// Whether the text is a URL that the parser accepts. The result depends
/// on the text alone.
pub uninterp spec fn url_ok(s: Seq<char>) -> bool;

/// Relies on url::Url::parse: whether the text is a URL that the parser
/// accepts.
#[verifier::external_body]
fn url_parses(s: &str) -> (b: bool)
    ensures
        b == url_ok(s@),
{
    url::Url::parse(s).is_ok()
}

/// A usable provider URL: a known scheme, and the parser accepts it.
pub open spec fn valid_url(s: Seq<char>) -> bool {
    scheme_of(s) is Some && url_ok(s)
}

/// A connection mirrors one configuration entry and starts idle.
pub open spec fn entry_matches(c: Web3Connection, url: Seq<char>, rate: u32) -> bool {
    &&& c.url@ == url
    &&& c.rate == rate
    &&& c.active_requests == 0
    &&& Some(c.transport) == scheme_of(url)
}

/// A tier mirrors its configuration list and starts with nothing in sync.
pub open spec fn tier_matches(
    providers: Seq<Web3Connection>,
    tier: Web3ProviderTier,
    cfg: Seq<(String, u32)>,
) -> bool {
    &&& tier.members@.len() == cfg.len()
    &&& tier.synced@.len() == cfg.len()
    &&& forall|i: int|
        0 <= i < cfg.len() ==> entry_matches(
            providers[(#[trigger] tier.members@[i]) as int],
            cfg[i].0@,
            cfg[i].1,
        )
    &&& forall|i: int| 0 <= i < cfg.len() ==> !(#[trigger] tier.synced@[i])
}

/// Every URL in the list is usable: known scheme, and the parser accepts
/// it.
pub open spec fn all_urls_valid(cfg: Seq<(String, u32)>) -> bool {
    forall|i: int| 0 <= i < cfg.len() ==> valid_url((#[trigger] cfg[i]).0@)
}

/// Some URL in the list has an unknown scheme.
pub open spec fn some_scheme_bad(cfg: Seq<(String, u32)>) -> bool {
    exists|i: int| 0 <= i < cfg.len() && scheme_of((#[trigger] cfg[i]).0@) is None
}

/// Some URL in the list has a known scheme but the parser rejects it.
pub open spec fn some_url_unparseable(cfg: Seq<(String, u32)>) -> bool {
    exists|i: int|
        0 <= i < cfg.len() && scheme_of((#[trigger] cfg[i]).0@) is Some && !url_ok(cfg[i].0@)
}

/// Build the connections of one tier, appending them to the registry.
fn build_tier(
    cfg: &Vec<(String, u32)>,
    providers: &mut Vec<Web3Connection>,
    clock: &ProxyClock,
) -> (r: Result<Web3ProviderTier, ConfigError>)
    requires
        providers_wf(old(providers)@),
    ensures
        providers_wf(final (providers)@),
        old(providers)@.len() <= final (providers)@.len(),
        forall|p: int|
            0 <= p < old(providers)@.len() ==> final (providers)@[p] == old(providers)@[p],
        r matches Ok(tier) ==> {
            &&& final (providers)@.len() == old(providers)@.len() + cfg@.len()
            &&& tier.wf(final (providers)@.len() as nat)
            &&& tier_matches(final (providers)@, tier, cfg@)
            &&& forall|i: int|
                0 <= i < cfg@.len() ==> (#[trigger] tier.members@[i]) == old(providers)@.len() + i
        },
        (r is Ok) <==> all_urls_valid(cfg@),
        r matches Err(e) && e is BadScheme ==> some_scheme_bad(cfg@),
        r matches Err(e) && e is BadUrl ==> some_url_unparseable(cfg@),
{
    let start = providers.len();
    let n = cfg.len();
    let mut members: Vec<usize> = Vec::new();
    let mut synced: Vec<bool> = Vec::new();
    let mut k: usize = 0;
    while k < n
        invariant
            k <= n,
            n == cfg@.len(),
            start == old(providers)@.len(),
            providers@.len() == start + k,
            providers_wf(providers@),
            forall|p: int| 0 <= p < start ==> providers@[p] == old(providers)@[p],
            members@.len() == k,
            synced@.len() == k,
            forall|i: int| 0 <= i < k ==> (#[trigger] members@[i]) == start + i,
            forall|i: int| 0 <= i < k ==> !(#[trigger] synced@[i]),
            forall|i: int|
                0 <= i < k ==> entry_matches(
                    providers@[(#[trigger] members@[i]) as int],
                    cfg@[i].0@,
                    cfg@[i].1,
                ),
            forall|i: int| 0 <= i < k ==> valid_url((#[trigger] cfg@[i]).0@),
        decreases n - k,
    {
        let url = cfg[k].0.clone();
        let rate = cfg[k].1;
        let transport = match transport_of(url.as_str()) {
            None => {
                return Err(ConfigError::BadScheme);
            },
            Some(tr) => tr,
        };
        if !url_parses(url.as_str()) {
            return Err(ConfigError::BadUrl);
        }
        let gate = if rate >= 1 {
            Some(RateGate::new(clock, rate))
        } else {
            None
        };
        members.push(providers.len());
        synced.push(false);
        providers.push(Web3Connection { url, transport, rate, active_requests: 0, gate });
        k = k + 1;
    }
    Ok(Web3ProviderTier { members, synced })
}

/// The proxy core: the provider registry, the ordered balanced tiers, the
/// optional private tier, and the block watcher.
pub struct ProxyCore {
    /// All connections, balanced and private alike.
    pub providers: Vec<Web3Connection>,
    /// Priority-ordered tiers; position 0 is tried first.
    pub balanced_tiers: Vec<Web3ProviderTier>,
    /// The tier that raw transactions are fanned out to, if configured.
    pub private_tier: Option<Web3ProviderTier>,
    /// Head observations, one slot per provider.
    pub watcher: BlockWatcher,
    /// How far behind the best head a provider may lag and still count as
    /// in sync.
    pub allowed_lag: u64,
    /// The clock all rate gates report their instants on.
    pub clock: ProxyClock,
}

impl ProxyCore {
    /// Every tier points into the registry and the watcher has one slot
    /// per provider.
    pub open spec fn wf(&self) -> bool {
        &&& providers_wf(self.providers@)
        &&& forall|t: int|
            0 <= t < self.balanced_tiers@.len() ==> (#[trigger] self.balanced_tiers@[t]).wf(
                self.providers@.len() as nat,
            )
        &&& self.private_tier matches Some(pt) ==> pt.wf(self.providers@.len() as nat)
        &&& self.watcher.wf()
        &&& self.watcher.heads@.len() == self.providers@.len()
    }

    /// Build a core from configuration: one list of `(url, rate)` entries
    /// per balanced tier in priority order, and one such list for the
    /// private tier (empty to disable the broadcast path). Fails exactly
    /// when some URL has an unusable scheme.
    pub fn try_new(
        balanced: Vec<Vec<(String, u32)>>,
        private: Vec<(String, u32)>,
        allowed_lag: u64,
    ) -> (r: Result<ProxyCore, ConfigError>)
        ensures
            r matches Ok(c) ==> {
                &&& c.wf()
                &&& c.allowed_lag == allowed_lag
                &&& c.balanced_tiers@.len() == balanced@.len()
                &&& forall|t: int|
                    0 <= t < balanced@.len() ==> tier_matches(
                        c.providers@,
                        #[trigger] c.balanced_tiers@[t],
                        balanced@[t]@,
                    )
                &&& (c.private_tier is Some <==> private@.len() > 0)
                &&& c.private_tier matches Some(pt) ==> tier_matches(c.providers@, pt, private@)
                &&& c.watcher.best_head == 0
                &&& forall|p: int|
                    0 <= p < c.providers@.len() ==> (#[trigger] c.watcher.heads@[p]) is None
            },
            (r is Ok) <==> {
                &&& forall|t: int|
                    0 <= t < balanced@.len() ==> all_urls_valid((#[trigger] balanced@[t])@)
                &&& all_urls_valid(private@)
            },
            r matches Err(e) && e is BadScheme ==> (exists|t: int|
                0 <= t < balanced@.len() && some_scheme_bad((#[trigger] balanced@[t])@))
                || some_scheme_bad(private@),
            r matches Err(e) && e is BadUrl ==> (exists|t: int|
                0 <= t < balanced@.len() && some_url_unparseable((#[trigger] balanced@[t])@))
                || some_url_unparseable(private@),
    {
        let clock = ProxyClock::new();
        let mut providers: Vec<Web3Connection> = Vec::new();
        let mut tiers: Vec<Web3ProviderTier> = Vec::new();
        let n = balanced.len();
        let mut t: usize = 0;
        while t < n
            invariant
                t <= n,
                n == balanced@.len(),
                providers_wf(providers@),
                tiers@.len() == t,
                forall|u: int|
                    0 <= u < t ==> (#[trigger] tiers@[u]).wf(providers@.len() as nat),
                forall|u: int|
                    0 <= u < t ==> tier_matches(providers@, #[trigger] tiers@[u], balanced@[u]@),
                forall|u: int| 0 <= u < t ==> all_urls_valid((#[trigger] balanced@[u])@),
            decreases n - t,
        {
            let ghost before = providers@;
            let ghost tiers_before = tiers@;
            match build_tier(&balanced[t], &mut providers, &clock) {
                Ok(tier) => {
                    tiers.push(tier);
                },
                Err(e) => {
                    return Err(e);
                },
            }
            proof {
                assert forall|u: int| 0 <= u < t + 1 implies (#[trigger] tiers@[u]).wf(
                    providers@.len() as nat,
                ) && tier_matches(providers@, tiers@[u], balanced@[u]@) by {
                    if u < t {
                        assert(tiers@[u] == tiers_before[u]);
                        assert(tiers_before[u].wf(before.len() as nat));
                        assert(tier_matches(before, tiers_before[u], balanced@[u]@));
                        assert forall|i: int|
                            0 <= i < balanced@[u]@.len() implies entry_matches(
                            providers@[(#[trigger] tiers@[u].members@[i]) as int],
                            balanced@[u]@[i].0@,
                            balanced@[u]@[i].1,
                        ) by {
                            assert(tiers_before[u].members@[i] < before.len());
                        }
                    }
                }
            }
            t = t + 1;
        }
        let private_tier: Option<Web3ProviderTier> = if private.len() == 0 {
            None
        } else {
            let ghost before = providers@;
            let ghost tiers_snap = tiers@;
            match build_tier(&private, &mut providers, &clock) {
                Ok(tier) => {
                    proof {
                        assert forall|u: int| 0 <= u < tiers@.len() implies (
                        #[trigger] tiers@[u]).wf(providers@.len() as nat) && tier_matches(
                            providers@,
                            tiers@[u],
                            balanced@[u]@,
                        ) by {
                            assert(tiers_snap[u].wf(before.len() as nat));
                            assert(tier_matches(before, tiers_snap[u], balanced@[u]@));
                            assert forall|i: int|
                                0 <= i < balanced@[u]@.len() implies entry_matches(
                                providers@[(#[trigger] tiers@[u].members@[i]) as int],
                                balanced@[u]@[i].0@,
                                balanced@[u]@[i].1,
                            ) by {
                                assert(tiers_snap[u].members@[i] < before.len());
                            }
                        }
                    }
                    Some(tier)
                },
                Err(e) => {
                    return Err(e);
                },
            }
        };
        let watcher = BlockWatcher::new(providers.len());
        Ok(
            ProxyCore {
                providers,
                balanced_tiers: tiers,
                private_tier,
                watcher,
                allowed_lag,
                clock,
            },
        )
    }
}

/// Provider `p` is a member of the tier.
pub open spec fn member_of(tier: Web3ProviderTier, p: usize) -> bool {
    exists|i: int| 0 <= i < tier.members@.len() && tier.members@[i] == p
}

/// Provider `p` is a member of the tier and currently in sync.
pub open spec fn synced_member_of(tier: Web3ProviderTier, p: usize) -> bool {
    exists|i: int| 0 <= i < tier.members@.len() && tier.members@[i] == p && tier.synced@[i]
}

/// The tier's sync flags have just been recomputed against this watcher.
pub open spec fn tier_synced_fresh(
    tier: Web3ProviderTier,
    old_tier: Web3ProviderTier,
    watcher: BlockWatcher,
    allowed_lag: u64,
) -> bool {
    &&& tier.members == old_tier.members
    &&& tier.synced@.len() == tier.members@.len()
    &&& forall|i: int|
        0 <= i < tier.members@.len() ==> #[trigger] tier.synced@[i] == in_sync(
            &watcher,
            tier.members@[i] as int,
            allowed_lag,
        )
}

/// The connection after one more request went out.
pub open spec fn bumped(c: Web3Connection) -> Web3Connection {
    Web3Connection { active_requests: (c.active_requests + 1) as u64, ..c }
}

/// Whether `p` occurs among the first `k` entries of `v`.
pub open spec fn in_prefix(v: Seq<usize>, k: int, p: int) -> bool {
    exists|a: int| 0 <= a < k && v[a] == p
}

/// Member `i` of the tier is in sync and not rate-limited at all.
pub open spec fn unlimited_candidate(
    providers: Seq<Web3Connection>,
    tier: Web3ProviderTier,
    i: int,
) -> bool {
    tier.synced@[i] && providers[tier.members@[i] as int].rate == 0
}

/// Some member of the tier is in sync.
pub open spec fn tier_has_synced(tier: Web3ProviderTier) -> bool {
    exists|i: int| 0 <= i < tier.members@.len() && #[trigger] tier.synced@[i]
}

/// Whether provider `p` is a member of the tier.
pub fn tier_contains(tier: &Web3ProviderTier, p: usize) -> (b: bool)
    ensures
        b == member_of(*tier, p),
{
    let n = tier.members.len();
    let mut k: usize = 0;
    while k < n
        invariant
            k <= n,
            n == tier.members@.len(),
            forall|i: int| 0 <= i < k ==> tier.members@[i] != p,
        decreases n - k,
    {
        if tier.members[k] == p {
            return true;
        }
        k = k + 1;
    }
    false
}

/// The broadcast path's decision for one attempt; on success every chosen
/// connection's counter is already raised.
pub enum BroadcastPick {
    /// Dispatch to all of these providers in parallel; answer from the
    /// first success.
    Fanout(Vec<usize>),
    /// Some private provider is rate-limited; sleep until this instant and
    /// try again.
    SleepUntil(u64),
    /// No private tier is configured; the balanced path must serve the
    /// request.
    NoPrivate,
}

impl ProxyCore {
    /// The provider with this URL, if one is configured.
    pub fn find_provider(&self, url: &String) -> (r: Option<usize>)
        ensures
            r matches Some(p) ==> p < self.providers@.len() && self.providers@[p as int].url@
                == url@,
            r is None <==> forall|p: int|
                0 <= p < self.providers@.len() ==> (#[trigger] self.providers@[p]).url@ != url@,
    {
        let n = self.providers.len();
        let mut k: usize = 0;
        while k < n
            invariant
                k <= n,
                n == self.providers@.len(),
                forall|p: int| 0 <= p < k ==> (#[trigger] self.providers@[p]).url@ != url@,
            decreases n - k,
        {
            if self.providers[k].url == *url {
                return Some(k);
            }
            k = k + 1;
        }
        None
    }

    /// The Sync Maintainer step: record one head observation, then
    /// recompute the sync flags of every tier that owns the reporting
    /// provider. Fails exactly when no tier owns it.
    pub fn handle_new_head(
        &mut self,
        p: usize,
        number: u64,
        hash: String,
        observed_at: u64,
    ) -> (r: Result<(), SyncError>)
        requires
            old(self).wf(),
            p < old(self).providers@.len(),
        ensures
            final (self).wf(),
            final (self).providers == old(self).providers,
            final (self).allowed_lag == old(self).allowed_lag,
            final (self).watcher.heads@ == old(self).watcher.heads@.update(
                p as int,
                Some(Head { number, hash, observed_at }),
            ),
            final (self).watcher.best_head == if number > old(self).watcher.best_head {
                number
            } else {
                old(self).watcher.best_head
            },
            final (self).balanced_tiers@.len() == old(self).balanced_tiers@.len(),
            forall|t: int|
                0 <= t < old(self).balanced_tiers@.len() ==> if member_of(
                    #[trigger] old(self).balanced_tiers@[t],
                    p,
                ) {
                    tier_synced_fresh(
                        final (self).balanced_tiers@[t],
                        old(self).balanced_tiers@[t],
                        final (self).watcher,
                        old(self).allowed_lag,
                    )
                } else {
                    final (self).balanced_tiers@[t] == old(self).balanced_tiers@[t]
                },
            (final (self).private_tier is Some) == (old(self).private_tier is Some),
            final (self).private_tier matches Some(pt) ==> if member_of(
                old(self).private_tier->Some_0,
                p,
            ) {
                tier_synced_fresh(
                    pt,
                    old(self).private_tier->Some_0,
                    final (self).watcher,
                    old(self).allowed_lag,
                )
            } else {
                pt == old(self).private_tier->Some_0
            },
            (r is Ok) <==> {
                ||| exists|t: int|
                    0 <= t < old(self).balanced_tiers@.len() && member_of(
                        #[trigger] old(self).balanced_tiers@[t],
                        p,
                    )
                ||| (old(self).private_tier matches Some(pt) && member_of(pt, p))
            },
    {
        self.watcher.observe(p, number, hash, observed_at);
        let mut found = false;
        let n = self.balanced_tiers.len();
        let mut t: usize = 0;
        while t < n
            invariant
                t <= n,
                n == self.balanced_tiers@.len() == old(self).balanced_tiers@.len(),
                self.providers == old(self).providers,
                self.private_tier == old(self).private_tier,
                self.allowed_lag == old(self).allowed_lag,
                self.watcher.wf(),
                self.watcher.heads@.len() == self.providers@.len(),
                self.watcher.heads@ == old(self).watcher.heads@.update(
                    p as int,
                    Some(Head { number, hash, observed_at }),
                ),
                self.watcher.best_head == if number > old(self).watcher.best_head {
                    number
                } else {
                    old(self).watcher.best_head
                },
                old(self).wf(),
                forall|u: int|
                    0 <= u < n ==> (#[trigger] self.balanced_tiers@[u]).wf(
                        self.providers@.len() as nat,
                    ),
                forall|u: int|
                    t <= u < n ==> #[trigger] self.balanced_tiers@[u] == old(
                        self,
                    ).balanced_tiers@[u],
                forall|u: int|
                    0 <= u < t ==> if member_of(#[trigger] old(self).balanced_tiers@[u], p) {
                        tier_synced_fresh(
                            self.balanced_tiers@[u],
                            old(self).balanced_tiers@[u],
                            self.watcher,
                            self.allowed_lag,
                        )
                    } else {
                        self.balanced_tiers@[u] == old(self).balanced_tiers@[u]
                    },
                found == exists|u: int|
                    0 <= u < t && member_of(#[trigger] old(self).balanced_tiers@[u], p),
            decreases n - t,
        {
            if tier_contains(&self.balanced_tiers[t], p) {
                found = true;
                let allowed_lag = self.allowed_lag;
                let tier = &mut self.balanced_tiers[t];
                tier.update_synced(&self.watcher, allowed_lag);
            }
            t = t + 1;
        }
        let allowed_lag = self.allowed_lag;
        match &mut self.private_tier {
            Some(pt) => {
                if tier_contains(pt, p) {
                    found = true;
                    pt.update_synced(&self.watcher, allowed_lag);
                }
            },
            None => {},
        }
        if found {
            Ok(())
        } else {
            Err(SyncError::UnknownProvider)
        }
    }

    /// One balanced-path attempt: walk the tiers in priority order and pick
    /// the first usable connection, raising its counter. If nothing is
    /// usable, say whether to sleep until a throttle lifts or to back off
    /// because nothing is in sync. The limiter is consulted tier by tier,
    /// so once a tier yields, no token is taken in any lower tier.
    pub fn next_balanced(&mut self) -> (o: Outcome)
        requires
            old(self).wf(),
            forall|p: int|
                0 <= p < old(self).providers@.len() ==> (
                #[trigger] old(self).providers@[p]).active_requests < u64::MAX,
        ensures
            final (self).wf(),
            final (self).balanced_tiers == old(self).balanced_tiers,
            final (self).private_tier == old(self).private_tier,
            final (self).watcher == old(self).watcher,
            final (self).allowed_lag == old(self).allowed_lag,
            final (self).providers@.len() == old(self).providers@.len(),
            o matches Outcome::Dispatch(t, j) ==> {
                &&& 0 <= t < old(self).balanced_tiers@.len()
                &&& 0 <= j < old(self).balanced_tiers@[t as int].members@.len()
                &&& old(self).balanced_tiers@[t as int].synced@[j as int]
                &&& final (self).providers@ == old(self).providers@.update(
                    old(self).balanced_tiers@[t as int].members@[j as int] as int,
                    bumped(
                        old(self).providers@[old(self).balanced_tiers@[t as int].members@[j as int] as int],
                    ),
                )
                &&& forall|u: int, i: int|
                    #![trigger unlimited_candidate(old(self).providers@, old(self).balanced_tiers@[u], i)]
                    0 <= u < t && 0 <= i < old(self).balanced_tiers@[u].members@.len()
                        ==> !unlimited_candidate(
                        old(self).providers@,
                        old(self).balanced_tiers@[u],
                        i,
                    )
                &&& forall|k: int|
                    #![trigger unlimited_candidate(old(self).providers@, old(self).balanced_tiers@[t as int], k)]
                    0 <= k < old(self).balanced_tiers@[t as int].members@.len()
                        && unlimited_candidate(
                        old(self).providers@,
                        old(self).balanced_tiers@[t as int],
                        k,
                    ) ==> old(self).providers@[old(self).balanced_tiers@[t as int].members@[j as int] as int].active_requests
                        <= old(self).providers@[old(self).balanced_tiers@[t as int].members@[k] as int].active_requests
            },
            o is SleepUntil || o is Backoff ==> final (self).providers == old(self).providers,
            (o is Backoff) <==> (forall|t: int|
                0 <= t < old(self).balanced_tiers@.len() ==> !tier_has_synced(
                    #[trigger] old(self).balanced_tiers@[t],
                )),
            o is SleepUntil ==> forall|t: int, i: int|
                #![trigger unlimited_candidate(old(self).providers@, old(self).balanced_tiers@[t], i)]
                0 <= t < old(self).balanced_tiers@.len() && 0 <= i < old(
                    self,
                ).balanced_tiers@[t].members@.len() ==> !unlimited_candidate(
                    old(self).providers@,
                    old(self).balanced_tiers@[t],
                    i,
                ),
    {
        let n = self.balanced_tiers.len();
        let mut earliest: Option<u64> = None;
        let mut t: usize = 0;
        while t < n
            invariant
                t <= n,
                n == self.balanced_tiers@.len(),
                *self == *old(self),
                old(self).wf(),
                forall|p: int|
                    0 <= p < old(self).providers@.len() ==> (
                    #[trigger] old(self).providers@[p]).active_requests < u64::MAX,
                forall|u: int, i: int|
                    #![trigger unlimited_candidate(self.providers@, self.balanced_tiers@[u], i)]
                    0 <= u < t && 0 <= i < self.balanced_tiers@[u].members@.len()
                        ==> !unlimited_candidate(self.providers@, self.balanced_tiers@[u], i),
                earliest is Some ==> exists|u: int|
                    0 <= u < t && tier_has_synced(#[trigger] self.balanced_tiers@[u]),
                earliest is None ==> forall|u: int|
                    0 <= u < t ==> !tier_has_synced(#[trigger] self.balanced_tiers@[u]),
            decreases n - t,
        {
            let verdicts = gather_verdicts(&self.balanced_tiers[t], &self.providers, &self.clock);
            match choose_one(&self.providers, &self.balanced_tiers[t], &verdicts) {
                Pick::Chosen(j) => {
                    proof {
                        assert forall|k: int|
                            0 <= k < self.balanced_tiers@[t as int].members@.len()
                                && unlimited_candidate(
                                self.providers@,
                                self.balanced_tiers@[t as int],
                                k,
                            ) implies crate::select::load(
                            self.providers@,
                            self.balanced_tiers@[t as int].members@,
                            j as int,
                        ) <= crate::select::load(
                            self.providers@,
                            self.balanced_tiers@[t as int].members@,
                            k,
                        ) by {
                            assert(verdicts@[k] is Ready);
                            assert(crate::select::cand_ready(
                                self.balanced_tiers@[t as int].synced@,
                                verdicts@,
                                k,
                            ));
                        }
                    }
                    proof {
                        assert(self.balanced_tiers@[t as int].synced@[j as int]);
                        assert(tier_has_synced(self.balanced_tiers@[t as int]));
                    }
                    let idx = self.balanced_tiers[t].members[j];
                    let c = &mut self.providers[idx];
                    c.inc_active_requests();
                    return Outcome::Dispatch(t, j);
                },
                Pick::Throttled(w) => {
                    proof {
                        let i = choose|i: int|
                            0 <= i < self.balanced_tiers@[t as int].members@.len() && (
                            #[trigger] self.balanced_tiers@[t as int].synced@[i]);
                        assert(tier_has_synced(self.balanced_tiers@[t as int]));
                        assert forall|i2: int|
                            0 <= i2 < self.balanced_tiers@[t as int].members@.len()
                                implies !unlimited_candidate(
                            self.providers@,
                            self.balanced_tiers@[t as int],
                            i2,
                        ) by {
                            if self.balanced_tiers@[t as int].synced@[i2]
                                && self.providers@[self.balanced_tiers@[t as int].members@[i2] as int].rate
                                == 0 {
                                assert(verdicts@[i2] is Ready);
                                assert(crate::select::cand_ready(
                                    self.balanced_tiers@[t as int].synced@,
                                    verdicts@,
                                    i2,
                                ));
                            }
                        }
                    }
                    let take = match earliest {
                        None => true,
                        Some(e) => w < e,
                    };
                    if take {
                        earliest = Some(w);
                    }
                },
                Pick::NoSync => {
                    proof {
                        assert(!tier_has_synced(self.balanced_tiers@[t as int]));
                    }
                },
            }
            t = t + 1;
        }
        match earliest {
            Some(w) => Outcome::SleepUntil(w),
            None => Outcome::Backoff,
        }
    }

    /// One broadcast-path attempt: take every in-sync private provider,
    /// raising each one's counter, or report the earliest instant a
    /// throttled one frees up, or report that no private tier exists.
    pub fn pick_private(&mut self) -> (o: BroadcastPick)
        requires
            old(self).wf(),
            forall|p: int|
                0 <= p < old(self).providers@.len() ==> (
                #[trigger] old(self).providers@[p]).active_requests < u64::MAX,
        ensures
            final (self).wf(),
            final (self).balanced_tiers == old(self).balanced_tiers,
            final (self).private_tier == old(self).private_tier,
            final (self).watcher == old(self).watcher,
            final (self).allowed_lag == old(self).allowed_lag,
            final (self).providers@.len() == old(self).providers@.len(),
            (o is NoPrivate) <==> old(self).private_tier is None,
            o is NoPrivate || o is SleepUntil ==> final (self).providers == old(self).providers,
            o matches BroadcastPick::SleepUntil(w) ==> tier_has_synced(
                old(self).private_tier->Some_0,
            ),
            o is SleepUntil ==> exists|i: int|
                0 <= i < old(self).private_tier->Some_0.members@.len() && (
                #[trigger] old(self).private_tier->Some_0.synced@[i]) && old(
                    self,
                ).providers@[old(self).private_tier->Some_0.members@[i] as int].rate >= 1,
            o matches BroadcastPick::Fanout(v) ==> {
                &&& forall|a: int, b: int| 0 <= a < b < v@.len() ==> v@[a] != v@[b]
                &&& forall|a: int|
                    0 <= a < v@.len() ==> (#[trigger] v@[a]) < old(self).providers@.len()
                &&& forall|a: int|
                    0 <= a < v@.len() ==> synced_member_of(
                        old(self).private_tier->Some_0,
                        #[trigger] v@[a],
                    )
                &&& forall|i: int|
                    0 <= i < old(self).private_tier->Some_0.members@.len() && (
                    #[trigger] old(self).private_tier->Some_0.synced@[i]) ==> in_prefix(
                        v@,
                        v@.len() as int,
                        old(self).private_tier->Some_0.members@[i] as int,
                    )
                &&& forall|p: int|
                    0 <= p < old(self).providers@.len() ==> #[trigger] final (self).providers@[p]
                        == if in_prefix(v@, v@.len() as int, p) {
                        bumped(old(self).providers@[p])
                    } else {
                        old(self).providers@[p]
                    }
            },
    {
        let positions;
        match &self.private_tier {
            None => {
                return BroadcastPick::NoPrivate;
            },
            Some(pt) => {
                let verdicts = gather_verdicts(pt, &self.providers, &self.clock);
                match choose_all(pt, &verdicts) {
                    AllPick::Throttled(w) => {
                        proof {
                            let i = choose|i: int|
                                0 <= i < pt.members@.len() && (#[trigger] pt.synced@[i])
                                    && verdicts@[i] == crate::tier::Verdict::Wait(w);
                            assert(tier_has_synced(*pt));
                            // an unlimited member would have been ready, so
                            // the waiting witness is rate-limited
                            assert(self.providers@[pt.members@[i] as int].rate >= 1);
                        }
                        return BroadcastPick::SleepUntil(w);
                    },
                    AllPick::All(chosen) => {
                        positions = chosen;
                    },
                }
            },
        }
        let ghost pt = self.private_tier->Some_0;
        let mut v: Vec<usize> = Vec::new();
        let m = positions.len();
        let mut a: usize = 0;
        while a < m
            invariant
                a <= m,
                *self == *old(self),
                old(self).wf(),
                self.private_tier is Some,
                pt == self.private_tier->Some_0,
                pt.wf(self.providers@.len() as nat),
                m == positions@.len(),
                forall|x: int, y: int| 0 <= x < y < m ==> positions@[x] < positions@[y],
                forall|x: int|
                    0 <= x < m ==> (#[trigger] positions@[x]) < pt.members@.len()
                        && pt.synced@[positions@[x] as int],
                forall|i: int|
                    0 <= i < pt.members@.len() && (#[trigger] pt.synced@[i]) ==> exists|x: int|
                        0 <= x < m && positions@[x] == i,
                v@.len() == a,
                forall|x: int|
                    0 <= x < a ==> (#[trigger] v@[x]) == pt.members@[positions@[x] as int],
            decreases m - a,
        {
            v.push(self.private_tier.as_ref().unwrap().members[positions[a]]);
            a = a + 1;
        }
        proof {
            assert forall|x: int, y: int| 0 <= x < y < v@.len() implies v@[x] != v@[y] by {
                assert(positions@[x] < positions@[y]);
            }
            assert forall|x: int| 0 <= x < v@.len() implies synced_member_of(
                pt,
                #[trigger] v@[x],
            ) by {
                let i = positions@[x] as int;
                assert(0 <= i < pt.members@.len() && pt.members@[i] == v@[x] && pt.synced@[i]);
            }
            assert forall|i: int|
                0 <= i < pt.members@.len() && (#[trigger] pt.synced@[i]) implies in_prefix(
                v@,
                v@.len() as int,
                pt.members@[i] as int,
            ) by {
                let x = choose|x: int| 0 <= x < m && positions@[x] == i;
                assert(v@[x] == pt.members@[i]);
            }
        }
        let mut b: usize = 0;
        while b < m
            invariant
                b <= m,
                m == v@.len(),
                old(self).wf(),
                forall|p: int|
                    0 <= p < old(self).providers@.len() ==> (
                    #[trigger] old(self).providers@[p]).active_requests < u64::MAX,
                self.balanced_tiers == old(self).balanced_tiers,
                self.private_tier == old(self).private_tier,
                self.watcher == old(self).watcher,
                self.allowed_lag == old(self).allowed_lag,
                self.providers@.len() == old(self).providers@.len(),
                providers_wf(self.providers@),
                forall|x: int, y: int| 0 <= x < y < m ==> v@[x] != v@[y],
                forall|x: int| 0 <= x < m ==> (#[trigger] v@[x]) < old(self).providers@.len(),
                forall|p: int|
                    0 <= p < old(self).providers@.len() ==> #[trigger] self.providers@[p]
                        == if in_prefix(v@, b as int, p) {
                        bumped(old(self).providers@[p])
                    } else {
                        old(self).providers@[p]
                    },
            decreases m - b,
        {
            let idx = v[b];
            proof {
                assert(!in_prefix(v@, b as int, idx as int));
            }
            let ghost before = self.providers@;
            let c = &mut self.providers[idx];
            c.inc_active_requests();
            proof {
                assert forall|p: int|
                    0 <= p < old(self).providers@.len() implies #[trigger] self.providers@[p]
                    == if in_prefix(v@, b + 1, p) {
                    bumped(old(self).providers@[p])
                } else {
                    old(self).providers@[p]
                } by {
                    if p == idx as int {
                        assert(v@[b as int] == idx);
                        assert(in_prefix(v@, b + 1, p));
                    } else {
                        assert(self.providers@[p] == before[p]);
                        assert(in_prefix(v@, b + 1, p) == in_prefix(v@, b as int, p));
                    }
                }
            }
            b = b + 1;
        }
        proof {
            assert forall|t: int|
                0 <= t < self.balanced_tiers@.len() implies (#[trigger] self.balanced_tiers@[t]).wf(
                self.providers@.len() as nat,
            ) by {
                assert(old(self).balanced_tiers@[t].wf(old(self).providers@.len() as nat));
            }
        }
        BroadcastPick::Fanout(v)
    }

    /// One request completed on provider `p`, successfully or not.
    pub fn dec_active(&mut self, p: usize)
        requires
            old(self).wf(),
            p < old(self).providers@.len(),
            old(self).providers@[p as int].active_requests > 0,
        ensures
            final (self).wf(),
            final (self).balanced_tiers == old(self).balanced_tiers,
            final (self).private_tier == old(self).private_tier,
            final (self).watcher == old(self).watcher,
            final (self).allowed_lag == old(self).allowed_lag,
            final (self).providers@ == old(self).providers@.update(
                p as int,
                Web3Connection {
                    active_requests: (old(self).providers@[p as int].active_requests - 1) as u64,
                    ..old(self).providers@[p as int]
                },
            ),
    {
        let c = &mut self.providers[p];
        c.dec_active_requests();
    }
}

} // verus!
