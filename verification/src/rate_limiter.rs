//! Fixed-window rate limiting, keyed by client identifier.
//!
//! Each client key owns a counter and the clock value at which its current
//! window began. A request is admitted when the key is new, when its window
//! has lapsed (the counter then resets), or when the counter is still below
//! the configured maximum. Entries are never evicted, so memory grows with
//! the number of distinct keys ever seen.

use vstd::prelude::*;

verus! {

/// One client's counter: `count` admissions since the window that began at
/// clock value `window_start`. Clock values are in milliseconds, supplied by
/// the caller.
pub struct RateEntry {
    pub key: String,
    pub count: u32,
    pub window_start: u64,
}

/// The mapping a sequence of entries stands for: each key to its
/// `(count, window_start)` pair. A later entry would shadow an earlier one
/// with the same key; the limiter keeps its keys unique, so none does.
pub open spec fn entries_map(s: Seq<RateEntry>) -> Map<Seq<char>, (u32, u64)>
    decreases s.len(),
{
    if s.len() == 0 {
        Map::empty()
    } else {
        entries_map(s.drop_last()).insert(
            s.last().key@,
            (s.last().count, s.last().window_start),
        )
    }
}

/// Keys are pairwise distinct, so each client has exactly one counter.
pub open spec fn unique_keys(s: Seq<RateEntry>) -> bool {
    forall|i: int, j: int| 0 <= i < j < s.len() ==> s[i].key@ != s[j].key@
}

/// Whether the window that began at `window_start` is over at `now`.
/// A `now` earlier than `window_start` never counts as expiry.
pub open spec fn window_expired(window_start: u64, window: u64, now: u64) -> bool {
    now - window_start > window
}

/// Whether a request for `key` at `now` is admitted, given the counters `m`,
/// the window length and the per-window maximum.
pub open spec fn admit_decision(
    m: Map<Seq<char>, (u32, u64)>,
    window: u64,
    max_requests: u32,
    key: Seq<char>,
    now: u64,
) -> bool {
    if !m.contains_key(key) {
        true
    } else if window_expired(m[key].1, window, now) {
        true
    } else {
        m[key].0 < max_requests
    }
}

/// The counters after a `check` for `key` at `now`: a fresh or lapsed key
/// resets to one admission at `now`; a key under the maximum counts one more;
/// a key at the maximum is left as it stands.
pub open spec fn limiter_step(
    m: Map<Seq<char>, (u32, u64)>,
    window: u64,
    max_requests: u32,
    key: Seq<char>,
    now: u64,
) -> Map<Seq<char>, (u32, u64)> {
    if !m.contains_key(key) {
        m.insert(key, (1u32, now))
    } else if window_expired(m[key].1, window, now) {
        m.insert(key, (1u32, now))
    } else if m[key].0 < max_requests {
        m.insert(key, ((m[key].0 + 1) as u32, m[key].1))
    } else {
        m
    }
}

/// Keys are isolated from one another: a `check` under key `a` neither
/// changes what the counters hold for a different key `b`, nor what any
/// later admission decision for `b` will be.
pub proof fn lemma_key_isolation(
    m: Map<Seq<char>, (u32, u64)>,
    window: u64,
    max_requests: u32,
    a: Seq<char>,
    b: Seq<char>,
    now: u64,
    later: u64,
)
    requires
        a != b,
    ensures
        limiter_step(m, window, max_requests, a, now).contains_key(b) == m.contains_key(b),
        m.contains_key(b) ==> limiter_step(m, window, max_requests, a, now)[b] == m[b],
        admit_decision(limiter_step(m, window, max_requests, a, now), window, max_requests, b, later)
            == admit_decision(m, window, max_requests, b, later),
{
}

proof fn lemma_unique_drop_last(s: Seq<RateEntry>)
    requires
        unique_keys(s),
        s.len() > 0,
    ensures
        unique_keys(s.drop_last()),
{
    assert forall|i: int, j: int|
        0 <= i < j < s.drop_last().len() implies s.drop_last()[i].key@
        != s.drop_last()[j].key@ by {
        assert(s[i].key@ != s[j].key@);
    }
}

proof fn lemma_entries_map_contains(s: Seq<RateEntry>, k: Seq<char>)
    ensures
        entries_map(s).contains_key(k) <==> exists|i: int| 0 <= i < s.len() && s[i].key@ == k,
    decreases s.len(),
{
    if s.len() == 0 {
    } else {
        lemma_entries_map_contains(s.drop_last(), k);
        if s.last().key@ == k {
            assert(s[s.len() - 1].key@ == k);
        } else {
            if exists|i: int| 0 <= i < s.len() && s[i].key@ == k {
                let i = choose|i: int| 0 <= i < s.len() && s[i].key@ == k;
                assert(s.drop_last()[i].key@ == k);
            }
        }
    }
}

proof fn lemma_entries_map_at(s: Seq<RateEntry>, i: int)
    requires
        unique_keys(s),
        0 <= i < s.len(),
    ensures
        entries_map(s).contains_key(s[i].key@),
        entries_map(s)[s[i].key@] == (s[i].count, s[i].window_start),
    decreases s.len(),
{
    if i == s.len() - 1 {
    } else {
        lemma_unique_drop_last(s);
        lemma_entries_map_at(s.drop_last(), i);
        assert(s[i].key@ != s[s.len() - 1].key@);
    }
}

proof fn lemma_entries_map_push(s: Seq<RateEntry>, e: RateEntry)
    ensures
        entries_map(s.push(e)) == entries_map(s).insert(e.key@, (e.count, e.window_start)),
{
    assert(s.push(e).drop_last() =~= s);
    assert(s.push(e).last() == e);
}

proof fn lemma_unique_push(s: Seq<RateEntry>, e: RateEntry)
    requires
        unique_keys(s),
        forall|j: int| 0 <= j < s.len() ==> s[j].key@ != e.key@,
    ensures
        unique_keys(s.push(e)),
{
    assert forall|i: int, j: int|
        0 <= i < j < s.push(e).len() implies s.push(e)[i].key@ != s.push(e)[j].key@ by {
        if j < s.len() {
            assert(s[i].key@ != s[j].key@);
        } else {
            assert(s[i].key@ != e.key@);
        }
    }
}

proof fn lemma_unique_update(s: Seq<RateEntry>, i: int, e: RateEntry)
    requires
        unique_keys(s),
        0 <= i < s.len(),
        e.key@ == s[i].key@,
    ensures
        unique_keys(s.update(i, e)),
{
    assert forall|a: int, b: int|
        0 <= a < b < s.update(i, e).len() implies s.update(i, e)[a].key@
        != s.update(i, e)[b].key@ by {
        assert(s[a].key@ != s[b].key@);
    }
}

proof fn lemma_entries_map_update(s: Seq<RateEntry>, i: int, e: RateEntry)
    requires
        unique_keys(s),
        0 <= i < s.len(),
        e.key@ == s[i].key@,
    ensures
        entries_map(s.update(i, e)) == entries_map(s).insert(e.key@, (e.count, e.window_start)),
    decreases s.len(),
{
    let su = s.update(i, e);
    if i == s.len() - 1 {
        assert(su.drop_last() =~= s.drop_last());
        assert(su.last() == e);
        assert(entries_map(su) =~= entries_map(s).insert(e.key@, (e.count, e.window_start)));
    } else {
        lemma_unique_drop_last(s);
        assert(su.drop_last() =~= s.drop_last().update(i, e));
        assert(su.last() == s.last());
        lemma_entries_map_update(s.drop_last(), i, e);
        assert(e.key@ != s[s.len() - 1].key@);
        assert(entries_map(su) =~= entries_map(s).insert(e.key@, (e.count, e.window_start)));
    }
}

/// Fixed-window request counter. The view is the map from client keys to
/// their `(count, window_start)` pairs.
pub struct RateLimiter {
    entries: Vec<RateEntry>,
    window_millis: u64,
    max_count: u32,
}

impl View for RateLimiter {
    type V = Map<Seq<char>, (u32, u64)>;

    closed spec fn view(&self) -> Map<Seq<char>, (u32, u64)> {
        entries_map(self.entries@)
    }
}

fn find_entry(entries: &Vec<RateEntry>, key: &String) -> (r: Option<usize>)
    ensures
        match r {
            Some(i) => i < entries@.len() && entries@[i as int].key@ == key@,
            None => forall|j: int| 0 <= j < entries@.len() ==> entries@[j].key@ != key@,
        },
{
    let mut i: usize = 0;
    while i < entries.len()
        invariant
            i <= entries@.len(),
            forall|j: int| 0 <= j < i ==> entries@[j].key@ != key@,
        decreases entries@.len() - i,
    {
        if entries[i].key.eq(key) {
            return Some(i);
        }
        i += 1;
    }
    None
}

impl RateLimiter {
    /// The limiter's internal well-formedness: one entry per client key.
    pub closed spec fn wf(&self) -> bool {
        unique_keys(self.entries@)
    }

    /// The window length, in milliseconds.
    pub closed spec fn window(&self) -> u64 {
        self.window_millis
    }

    /// The number of admissions allowed per key per window.
    pub closed spec fn max_requests(&self) -> u32 {
        self.max_count
    }

    /// A limiter with no counters, a window of `window_secs` seconds and
    /// the given per-window maximum.
    pub fn new(window_secs: u64, max_requests: u32) -> (r: Self)
        requires
            window_secs <= u64::MAX / 1000,
        ensures
            r.wf(),
            r@ == Map::<Seq<char>, (u32, u64)>::empty(),
            r.window() == window_secs * 1000,
            r.max_requests() == max_requests,
    {
        RateLimiter { entries: Vec::new(), window_millis: window_secs * 1000, max_count: max_requests }
    }

    /// Admits or denies a request from client `ip` at clock value `now`
    /// (milliseconds), updating the counters by the fixed-window rule.
    pub fn check(&mut self, ip: &str, now: u64) -> (admitted: bool)
        requires
            old(self).wf(),
        ensures
            final(self).wf(),
            admitted == admit_decision(
                old(self)@,
                old(self).window(),
                old(self).max_requests(),
                ip@,
                now,
            ),
            final(self)@ == limiter_step(
                old(self)@,
                old(self).window(),
                old(self).max_requests(),
                ip@,
                now,
            ),
            final(self).window() == old(self).window(),
            final(self).max_requests() == old(self).max_requests(),
    {
        let key = ip.to_owned();
        let ghost s0 = self.entries@;
        match find_entry(&self.entries, &key) {
            None => {
                proof {
                    lemma_entries_map_contains(s0, ip@);
                }
                let entry = RateEntry { key, count: 1, window_start: now };
                let ghost e0 = entry;
                self.entries.push(entry);
                proof {
                    lemma_entries_map_push(s0, e0);
                    lemma_unique_push(s0, e0);
                }
                true
            },
            Some(i) => {
                proof {
                    lemma_entries_map_at(s0, i as int);
                }
                let ws = self.entries[i].window_start;
                let c = self.entries[i].count;
                if now >= ws && now - ws > self.window_millis {
                    let e = &mut self.entries[i];
                    e.count = 1;
                    e.window_start = now;
                    proof {
                        lemma_entries_map_update(s0, i as int, self.entries@[i as int]);
                        lemma_unique_update(s0, i as int, self.entries@[i as int]);
                    }
                    true
                } else if c < self.max_count {
                    let e = &mut self.entries[i];
                    e.count = c + 1;
                    proof {
                        lemma_entries_map_update(s0, i as int, self.entries@[i as int]);
                        lemma_unique_update(s0, i as int, self.entries@[i as int]);
                    }
                    true
                } else {
                    false
                }
            },
        }
    }
}

} // verus!
