//! Provider connections and tiers.
//!
//! Providers are held in one global list; a tier names its members by index
//! into that list and keeps a parallel in-sync flag per member. Only the
//! sync flags and the per-connection request counters ever change after
//! startup.

use vstd::prelude::*;

use crate::limiter::{ProxyClock, RateGate};
use crate::proxy::Transport;
use crate::watcher::BlockWatcher;

verus! {

/// An active connection to one upstream provider.
pub struct Web3Connection {
    /// The provider's URL, its stable identifier.
    pub url: String,
    /// How the provider is reached, decided by the URL scheme.
    pub transport: Transport,
    /// Admitted requests per second; 0 means unlimited.
    pub rate: u32,
    /// Requests currently in flight on this connection; the load-balancing
    /// key.
    pub active_requests: u64,
    /// The provider's token bucket; present exactly when the rate is
    /// bounded.
    pub gate: Option<RateGate>,
}

impl Web3Connection {
    /// A gate exists exactly for rate-limited providers.
    pub open spec fn wf(&self) -> bool {
        self.rate >= 1 <==> self.gate is Some
    }

    /// One more request is in flight.
    pub fn inc_active_requests(&mut self)
        requires
            old(self).active_requests < u64::MAX,
        ensures
            final (self).active_requests == old(self).active_requests + 1,
            final (self).url == old(self).url,
            final (self).transport == old(self).transport,
            final (self).rate == old(self).rate,
            final (self).gate == old(self).gate,
            final (self).wf() == old(self).wf(),
    {
        self.active_requests = self.active_requests + 1;
    }

    /// One request completed, successfully or not.
    pub fn dec_active_requests(&mut self)
        requires
            old(self).active_requests > 0,
        ensures
            final (self).active_requests == old(self).active_requests - 1,
            final (self).url == old(self).url,
            final (self).transport == old(self).transport,
            final (self).rate == old(self).rate,
            final (self).gate == old(self).gate,
            final (self).wf() == old(self).wf(),
    {
        self.active_requests = self.active_requests - 1;
    }
}

/// Every connection in the list is well formed.
pub open spec fn providers_wf(providers: Seq<Web3Connection>) -> bool {
    forall|p: int| 0 <= p < providers.len() ==> (#[trigger] providers[p]).wf()
}

/// A provider `p` is in sync when it has reported a head and that head lies
/// within `allowed_lag` of the best head.
pub open spec fn in_sync(watcher: &BlockWatcher, p: int, allowed_lag: u64) -> bool {
    &&& watcher.heads@[p] is Some
    &&& watcher.best_head - watcher.heads@[p]->Some_0.number <= allowed_lag
}

/// An ordered priority group of providers.
pub struct Web3ProviderTier {
    /// Indices into the global provider list; position is the tie-breaking
    /// order for selection.
    pub members: Vec<usize>,
    /// Parallel to `members`: whether that member is currently in sync.
    pub synced: Vec<bool>,
}

impl Web3ProviderTier {
    /// Members are distinct, point into a provider list of length `n`, and
    /// carry one sync flag each.
    pub open spec fn wf(&self, n: nat) -> bool {
        &&& self.members@.len() == self.synced@.len()
        &&& forall|i: int| 0 <= i < self.members@.len() ==> (#[trigger] self.members@[i]) < n
        &&& forall|a: int, b: int|
            0 <= a < b < self.members@.len() ==> self.members@[a] != self.members@[b]
    }

    /// The members marked in sync, as a set of provider indices.
    pub open spec fn synced_set(&self) -> Set<int> {
        Set::new(
            |p: int|
                exists|i: int|
                    0 <= i < self.members@.len() && self.members@[i] == p && self.synced@[i],
        )
    }

    /// All members, as a set of provider indices.
    pub open spec fn member_set(&self) -> Set<int> {
        Set::new(|p: int| exists|i: int| 0 <= i < self.members@.len() && self.members@[i] == p)
    }

    /// Recompute the in-sync flags from the watcher's current state: a
    /// member is in sync exactly when its last head lies within
    /// `allowed_lag` of the best head. Recomputing is idempotent, since the
    /// new flags depend only on the watcher.
    pub fn update_synced(&mut self, watcher: &BlockWatcher, allowed_lag: u64)
        requires
            old(self).wf(watcher.heads@.len() as nat),
            watcher.wf(),
        ensures
            final (self).members == old(self).members,
            final (self).wf(watcher.heads@.len() as nat),
            forall|i: int|
                0 <= i < final (self).members@.len() ==> #[trigger] final (self).synced@[i]
                    == in_sync(watcher, final (self).members@[i] as int, allowed_lag),
    {
        let n = self.members.len();
        let mut synced: Vec<bool> = Vec::new();
        let mut k: usize = 0;
        while k < n
            invariant
                k <= n,
                n == self.members@.len(),
                self.wf(watcher.heads@.len() as nat),
                watcher.wf(),
                synced@.len() == k,
                forall|i: int|
                    0 <= i < k ==> #[trigger] synced@[i] == in_sync(
                        watcher,
                        self.members@[i] as int,
                        allowed_lag,
                    ),
            decreases n - k,
        {
            let p = self.members[k];
            let flag = match watcher.head_number_of(p) {
                Some(number) => watcher.best_head() - number <= allowed_lag,
                None => false,
            };
            synced.push(flag);
            k = k + 1;
        }
        self.synced = synced;
    }
}

/// The set of in-sync members of a tier is always a subset of its member
/// set.
pub proof fn lemma_synced_subset(tier: &Web3ProviderTier, n: nat)
    requires
        tier.wf(n),
    ensures
        tier.synced_set().subset_of(tier.member_set()),
{
    assert forall|p: int| tier.synced_set().contains(p) implies tier.member_set().contains(
        p,
    ) by {
        let i = choose|i: int|
            0 <= i < tier.members@.len() && tier.members@[i] == p && tier.synced@[i];
        assert(0 <= i < tier.members@.len() && tier.members@[i] == p);
    }
}

/// Recomputing the sync flags is idempotent: two recomputations against
/// the same watcher state give the same flags.
pub proof fn lemma_update_synced_idempotent(
    a: &Web3ProviderTier,
    b: &Web3ProviderTier,
    watcher: &BlockWatcher,
    allowed_lag: u64,
)
    requires
        a.members == b.members,
        a.synced@.len() == a.members@.len(),
        b.synced@.len() == b.members@.len(),
        forall|i: int|
            0 <= i < a.members@.len() ==> #[trigger] a.synced@[i] == in_sync(
                watcher,
                a.members@[i] as int,
                allowed_lag,
            ),
        forall|i: int|
            0 <= i < b.members@.len() ==> #[trigger] b.synced@[i] == in_sync(
                watcher,
                b.members@[i] as int,
                allowed_lag,
            ),
    ensures
        a.synced@ == b.synced@,
{
    assert(a.synced@ =~= b.synced@);
}

/// Every member flagged in sync by a fresh recomputation has reported a
/// head that lags the best head by at most `allowed_lag`.
pub proof fn lemma_synced_lag(tier: &Web3ProviderTier, watcher: &BlockWatcher, allowed_lag: u64)
    requires
        forall|i: int|
            0 <= i < tier.members@.len() ==> #[trigger] tier.synced@[i] == in_sync(
                watcher,
                tier.members@[i] as int,
                allowed_lag,
            ),
    ensures
        forall|i: int|
            0 <= i < tier.members@.len() && #[trigger] tier.synced@[i]
                ==> watcher.heads@[tier.members@[i] as int] is Some
                && watcher.best_head - watcher.heads@[tier.members@[i] as int]->Some_0.number
                <= allowed_lag,
{
}

/// A rate-limit verdict for one tier member at one moment: the limiter
/// admitted the request, or the bucket is empty until the given instant.
pub enum Verdict {
    /// The member may be used now.
    Ready,
    /// The member's bucket is empty until this instant, in nanoseconds on
    /// the proxy clock.
    Wait(u64),
}

/// Consult the rate limiter for every in-sync member of a tier. Members out
/// of sync are skipped (no token is taken for them); unlimited members are
/// always ready. A token taken from a ready member stays taken even when a
/// later member of the same pass turns out to be throttled: the limiter has
/// no refund operation, and the token replenishes on its own.
pub fn gather_verdicts(
    tier: &Web3ProviderTier,
    providers: &Vec<Web3Connection>,
    clock: &ProxyClock,
) -> (v: Vec<Verdict>)
    requires
        tier.wf(providers@.len() as nat),
        providers_wf(providers@),
    ensures
        v@.len() == tier.members@.len(),
        forall|i: int|
            0 <= i < tier.members@.len() && tier.synced@[i] && providers@[tier.members@[i] as int].rate
                == 0 ==> (#[trigger] v@[i]) is Ready,
{
    let n = tier.members.len();
    let mut v: Vec<Verdict> = Vec::new();
    let mut k: usize = 0;
    while k < n
        invariant
            k <= n,
            n == tier.members@.len(),
            tier.wf(providers@.len() as nat),
            providers_wf(providers@),
            v@.len() == k,
            forall|i: int|
                0 <= i < k && tier.synced@[i] && providers@[tier.members@[i] as int].rate == 0 ==> (
                #[trigger] v@[i]) is Ready,
        decreases n - k,
    {
        let p = tier.members[k];
        let verdict = if !tier.synced[k] {
            Verdict::Ready
        } else {
            match &providers[p].gate {
                None => Verdict::Ready,
                Some(gate) => match gate.check(clock) {
                    None => Verdict::Ready,
                    Some(t) => Verdict::Wait(t),
                },
            }
        };
        v.push(verdict);
        k = k + 1;
    }
    v
}

} // verus!
