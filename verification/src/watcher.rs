//! Block watcher: aggregates per-provider head-block observations and
//! derives the best known head.

use vstd::prelude::*;

verus! {

/// One observed head block.
pub struct Head {
    /// Block number.
    pub number: u64,
    /// Block hash, kept as opaque text.
    pub hash: String,
    /// When the observation arrived, in nanoseconds on the proxy clock.
    pub observed_at: u64,
}

/// Aggregated head observations, one slot per provider, and the highest
/// block number seen so far.
pub struct BlockWatcher {
    /// Last observation per provider; `None` until a provider reports.
    pub heads: Vec<Option<Head>>,
    /// Highest block number observed across all providers.
    pub best_head: u64,
}

impl BlockWatcher {
    /// Every recorded head lies at or below the best head.
    pub open spec fn wf(&self) -> bool {
        forall|i: int|
            0 <= i < self.heads@.len() && self.heads@[i] is Some ==> (
            #[trigger] self.heads@[i])->Some_0.number <= self.best_head
    }

    /// A watcher with a slot for each of `n` providers and nothing observed.
    pub fn new(n: usize) -> (w: BlockWatcher)
        ensures
            w.wf(),
            w.heads@.len() == n,
            forall|i: int| 0 <= i < n ==> (#[trigger] w.heads@[i]) is None,
            w.best_head == 0,
    {
        let mut heads: Vec<Option<Head>> = Vec::new();
        let mut k: usize = 0;
        while k < n
            invariant
                k <= n,
                heads@.len() == k,
                forall|i: int| 0 <= i < k ==> (#[trigger] heads@[i]) is None,
            decreases n - k,
        {
            heads.push(None);
            k = k + 1;
        }
        BlockWatcher { heads, best_head: 0 }
    }

    /// Record one observation: overwrite the provider's slot and raise the
    /// best head if the new block number is strictly greater. The best head
    /// never goes down.
    pub fn observe(&mut self, idx: usize, number: u64, hash: String, observed_at: u64)
        requires
            old(self).wf(),
            idx < old(self).heads@.len(),
        ensures
            final (self).wf(),
            final (self).heads@ == old(self).heads@.update(
                idx as int,
                Some(Head { number, hash, observed_at }),
            ),
            final (self).best_head == if number > old(self).best_head {
                number
            } else {
                old(self).best_head
            },
            old(self).best_head <= final (self).best_head,
    {
        self.heads.set(idx, Some(Head { number, hash, observed_at }));
        if number > self.best_head {
            self.best_head = number;
        }
    }

    /// The last observed block number for one provider, if any.
    pub fn head_number_of(&self, idx: usize) -> (r: Option<u64>)
        requires
            idx < self.heads@.len(),
        ensures
            r is Some <==> self.heads@[idx as int] is Some,
            r matches Some(n) ==> n == self.heads@[idx as int]->Some_0.number,
    {
        match &self.heads[idx] {
            Some(h) => Some(h.number),
            None => None,
        }
    }

    /// The last observed head for one provider, if any: its block number
    /// and hash.
    pub fn head_of(&self, idx: usize) -> (r: Option<(u64, String)>)
        requires
            idx < self.heads@.len(),
        ensures
            r is Some <==> self.heads@[idx as int] is Some,
            r matches Some(h) ==> h.0 == self.heads@[idx as int]->Some_0.number && h.1@
                == self.heads@[idx as int]->Some_0.hash@,
    {
        match &self.heads[idx] {
            Some(h) => Some((h.number, h.hash.clone())),
            None => None,
        }
    }

    /// The highest block number observed so far.
    pub fn best_head(&self) -> (r: u64)
        ensures
            r == self.best_head,
    {
        self.best_head
    }
}

/// Whether `c` is a hexadecimal digit.
pub open spec fn is_hex_digit(c: char) -> bool {
    ||| (0x30 <= c as u32 && c as u32 <= 0x39)
    ||| (0x61 <= c as u32 && c as u32 <= 0x66)
    ||| (0x41 <= c as u32 && c as u32 <= 0x46)
}

/// The value of a hexadecimal digit.
pub open spec fn hex_val(c: char) -> int {
    if 0x30 <= c as u32 && c as u32 <= 0x39 {
        c as u32 - 0x30
    } else if 0x61 <= c as u32 && c as u32 <= 0x66 {
        c as u32 - 0x61 + 10
    } else {
        c as u32 - 0x41 + 10
    }
}

/// The number a sequence of hexadecimal digits denotes, most significant
/// first.
pub open spec fn hex_value_of(digits: Seq<char>) -> int
    decreases digits.len(),
{
    if digits.len() == 0 {
        0
    } else {
        hex_value_of(digits.drop_last()) * 16 + hex_val(digits.last())
    }
}

/// The digits of a hexadecimal numeral: everything after an optional `0x`.
pub open spec fn hex_digits_of(s: Seq<char>) -> Seq<char> {
    if s.len() >= 2 && s[0] == '0' && s[1] == 'x' {
        s.skip(2)
    } else {
        s
    }
}

/// A hexadecimal numeral never denotes less than any of its prefixes.
proof fn lemma_hex_value_prefix_le(digits: Seq<char>, m: int)
    requires
        0 <= m <= digits.len(),
        forall|i: int| 0 <= i < digits.len() ==> is_hex_digit(#[trigger] digits[i]),
    ensures
        hex_value_of(digits.take(m)) <= hex_value_of(digits),
        hex_value_of(digits.take(m)) >= 0,
    decreases digits.len() - m,
{
    if m == digits.len() {
        assert(digits.take(m) =~= digits);
        lemma_hex_value_nonneg(digits);
    } else {
        lemma_hex_value_prefix_le(digits, m + 1);
        assert(digits.take(m + 1).drop_last() =~= digits.take(m));
        assert(hex_value_of(digits.take(m + 1)) == hex_value_of(digits.take(m)) * 16 + hex_val(
            digits.take(m + 1).last(),
        ));
        assert(hex_value_of(digits.take(m)) >= 0) by {
            lemma_hex_value_nonneg(digits.take(m));
        }
        assert(hex_value_of(digits.take(m)) <= hex_value_of(digits.take(m)) * 16) by (nonlinear_arith)
            requires
                hex_value_of(digits.take(m)) >= 0,
        ;
    }
}

/// A numeral of hexadecimal digits is never negative.
proof fn lemma_hex_value_nonneg(digits: Seq<char>)
    requires
        forall|i: int| 0 <= i < digits.len() ==> is_hex_digit(#[trigger] digits[i]),
    ensures
        hex_value_of(digits) >= 0,
    decreases digits.len(),
{
    if digits.len() > 0 {
        assert(forall|i: int|
            0 <= i < digits.drop_last().len() ==> is_hex_digit(#[trigger] digits.drop_last()[i]));
        lemma_hex_value_nonneg(digits.drop_last());
        assert(hex_val(digits.last()) >= 0);
        assert(hex_value_of(digits.drop_last()) * 16 >= 0) by (nonlinear_arith)
            requires
                hex_value_of(digits.drop_last()) >= 0,
        ;
    }
}

/// Parse a hexadecimal block-number numeral, with or without a `0x`
/// prefix, into its value. Succeeds exactly when there is at least one
/// digit, every character after the prefix is a hexadecimal digit, and the
/// value fits.
pub fn parse_hex_u64(s: &str) -> (r: Option<u64>)
    ensures
        r matches Some(v) ==> v == hex_value_of(hex_digits_of(s@)),
        (r is Some) <==> {
            &&& hex_digits_of(s@).len() > 0
            &&& forall|i: int|
                0 <= i < hex_digits_of(s@).len() ==> is_hex_digit(#[trigger] hex_digits_of(s@)[i])
            &&& hex_value_of(hex_digits_of(s@)) <= u64::MAX
        },
{
    let n = s.unicode_len();
    let start: usize = if n >= 2 && s.get_char(0) == '0' && s.get_char(1) == 'x' {
        2
    } else {
        0
    };
    proof {
        assert(hex_digits_of(s@) =~= s@.skip(start as int));
    }
    if start == n {
        return None;
    }
    let ghost digits = s@.skip(start as int);
    let mut v: u64 = 0;
    let mut k: usize = start;
    while k < n
        invariant
            start <= k <= n,
            n == s@.len(),
            digits == s@.skip(start as int),
            digits == hex_digits_of(s@),
            digits.len() == n - start,
            forall|i: int| 0 <= i < digits.len() ==> digits[i] == s@[start + i],
            forall|i: int| 0 <= i < k - start ==> is_hex_digit(#[trigger] digits[i]),
            v == hex_value_of(digits.take(k - start)),
        decreases n - k,
    {
        let c = s.get_char(k);
        let code = c as u32;
        let d: u64 = if 0x30 <= code && code <= 0x39 {
            (code - 0x30) as u64
        } else if 0x61 <= code && code <= 0x66 {
            (code - 0x61 + 10) as u64
        } else if 0x41 <= code && code <= 0x46 {
            (code - 0x41 + 10) as u64
        } else {
            // a non-digit: no numeral at all
            proof {
                assert(digits[k - start] == s@[k as int]);
                assert(!is_hex_digit(digits[k - start]));
            }
            return None;
        };
        if v > (u64::MAX - d) / 16 {
            // the value can only grow from here and already exceeds u64
            proof {
                let prefix = digits.take(k - start + 1);
                assert(prefix.drop_last() =~= digits.take(k - start));
                assert(hex_value_of(prefix) == v * 16 + d) by {
                    assert(prefix.last() == digits[k - start]);
                }
                assert(v * 16 + d > u64::MAX) by (nonlinear_arith)
                    requires
                        v > (u64::MAX - d) / 16,
                        0 <= d <= 15,
                        v >= 0,
                ;
                if forall|i: int|
                    0 <= i < digits.len() ==> is_hex_digit(#[trigger] digits[i]) {
                    lemma_hex_value_prefix_le(digits, k - start + 1);
                    assert(hex_value_of(digits) >= hex_value_of(digits.take(k - start + 1)));
                    assert(hex_value_of(digits) > u64::MAX);
                }
            }
            return None;
        }
        proof {
            assert(v * 16 + d <= u64::MAX) by (nonlinear_arith)
                requires
                    v <= (u64::MAX - d) / 16,
                    0 <= d <= 15,
                    v >= 0,
            ;
            let prefix = digits.take(k - start + 1);
            assert(prefix.drop_last() =~= digits.take(k - start));
            assert(prefix.last() == digits[k - start]);
            assert(is_hex_digit(digits[k - start]) && hex_val(digits[k - start]) == d);
        }
        v = v * 16 + d;
        k = k + 1;
    }
    proof {
        assert(digits.take(n - start) =~= digits);
    }
    Some(v)
}

/// The best head after folding a sequence of observed block numbers into a
/// starting best head.
pub open spec fn best_after(best: u64, obs: Seq<u64>) -> u64
    decreases obs.len(),
{
    if obs.len() == 0 {
        best
    } else {
        best_after(
            if obs[0] > best {
                obs[0]
            } else {
                best
            },
            obs.drop_first(),
        )
    }
}

/// The best head is non-decreasing across any sequence of observations.
pub proof fn lemma_best_head_monotone(best: u64, obs: Seq<u64>)
    ensures
        best <= best_after(best, obs),
    decreases obs.len(),
{
    if obs.len() > 0 {
        let next = if obs[0] > best {
            obs[0]
        } else {
            best
        };
        lemma_best_head_monotone(next, obs.drop_first());
    }
}

} // verus!
