//! The connection-admission rate limiter: a per-client token bucket with
//! burst accounting and periodic pruning.
//!
//! Every new connection asks [`Limiter::should_allow`] once. Root sessions
//! bypass the limiter; namespace and database sessions are keyed by their
//! namespace; everything else is keyed by its normalized address. For each
//! key the limiter tracks how far into the future the client is already
//! rate-limited and how much of its burst allowance it has used.

use vstd::prelude::*;
use crate::clock;
use crate::err::Error;
use crate::ipaddr::{normalize_ip, spec_normalize_ip};
use crate::options::{Auth, Session, SpecAuth};

verus! {

broadcast use vstd::std_specs::vec::group_vec_axioms, vstd::seq::group_seq_axioms;

/// The default steady rate, in requests per second.
pub const RATE_LIMIT: u64 = 20;

/// The default number of extra requests tolerated in a burst.
pub const RATE_LIMIT_BURST: u64 = 5;

/// What one client is keyed by: an address or a namespace.
#[derive(Debug, PartialEq, Eq)]
pub enum BlockableUnit {
    /// An IPv4 address, or the /48 prefix of an IPv6 address.
    Ip(String),
    /// Authenticated access to a namespace.
    Namespace(String),
}

/// The mathematical shape of a [`BlockableUnit`].
#[verifier::ext_equal]
pub enum SpecKey {
    Ip(Seq<char>),
    Namespace(Seq<char>),
}

impl DeepView for BlockableUnit {
    type V = SpecKey;

    open spec fn deep_view(&self) -> SpecKey {
        match self {
            BlockableUnit::Ip(s) => SpecKey::Ip(s@),
            BlockableUnit::Namespace(s) => SpecKey::Namespace(s@),
        }
    }
}

/// One key's bucket: when its rate limit expires and how much burst it used.
#[derive(Debug, Clone, Copy, PartialEq, Eq)]
pub struct Limits {
    /// Until when previous requests count against the client, in
    /// nanoseconds of the crate's clock.
    pub rate_limited_until: u64,
    /// How many extra requests have been allowed.
    pub burst_used: u64,
}

impl DeepView for Limits {
    type V = Limits;

    open spec fn deep_view(&self) -> Limits {
        *self
    }
}

/// Addition that stops at the top of `u64`.
pub open spec fn spec_sat_add(a: u64, b: u64) -> u64 {
    if a + b <= u64::MAX {
        (a + b) as u64
    } else {
        u64::MAX
    }
}

/// Subtraction that stops at zero.
pub open spec fn spec_sat_sub(a: u64, b: u64) -> u64 {
    if a >= b {
        (a - b) as u64
    } else {
        0
    }
}

/// The limiter key of a session, or `None` when the session is always
/// allowed: root sessions bypass the limiter, and a session with neither
/// namespace authentication nor an address cannot be keyed.
pub open spec fn spec_limiter_key(au: SpecAuth, ip: Option<Seq<char>>) -> Option<SpecKey> {
    match au {
        SpecAuth::Kv => None,
        SpecAuth::Ns(n) => Some(SpecKey::Namespace(n)),
        SpecAuth::Db(n, _) => Some(SpecKey::Namespace(n)),
        SpecAuth::No => match ip {
            Some(s) => Some(SpecKey::Ip(spec_normalize_ip(s))),
            None => None,
        },
    }
}

/// One token-bucket decision: a missing entry starts fresh at `now`; an
/// expired limit resets the bucket; an unexpired one admits the request
/// while burst allowance remains, pushing the limit out by `dur` per
/// admitted request; after that the request is denied.
pub open spec fn spec_bucket_step(
    e: Option<Limits>,
    now: u64,
    dur: u64,
    burst: u64,
) -> (bool, Limits) {
    let l = match e {
        Some(l) => l,
        None => Limits { rate_limited_until: now, burst_used: 0 },
    };
    if now > l.rate_limited_until {
        (true, Limits { rate_limited_until: now, burst_used: 0 })
    } else if l.burst_used <= burst {
        (
            true,
            Limits {
                rate_limited_until: spec_sat_add(l.rate_limited_until, dur),
                burst_used: spec_sat_add(l.burst_used, 1),
            },
        )
    } else {
        (false, l)
    }
}

/// The first entry with this key, searched from the front. The well-formed
/// limiter keeps keys unique, so this is the only one.
pub open spec fn spec_find_entry(entries: Seq<(SpecKey, Limits)>, k: SpecKey) -> Option<Limits>
    decreases entries.len(),
{
    if entries.len() == 0 {
        None
    } else if entries[0].0 == k {
        Some(entries[0].1)
    } else {
        spec_find_entry(entries.skip(1), k)
    }
}

/// The entry list with the first entry for `k` replaced, or a new entry
/// appended when none is present.
pub open spec fn spec_store_entry(
    entries: Seq<(SpecKey, Limits)>,
    k: SpecKey,
    l: Limits,
) -> Seq<(SpecKey, Limits)>
    decreases entries.len(),
{
    if entries.len() == 0 {
        seq![(k, l)]
    } else if entries[0].0 == k {
        seq![(k, l)] + entries.skip(1)
    } else {
        seq![entries[0]] + spec_store_entry(entries.skip(1), k, l)
    }
}

/// The entry list with every expired entry dropped: pruning keeps an entry
/// only while its limit reaches past `now`.
pub open spec fn spec_prune(entries: Seq<(SpecKey, Limits)>, now: u64) -> Seq<(SpecKey, Limits)>
    decreases entries.len(),
{
    if entries.len() == 0 {
        Seq::empty()
    } else if entries.last().1.rate_limited_until > now {
        spec_prune(entries.drop_last(), now).push(entries.last())
    } else {
        spec_prune(entries.drop_last(), now)
    }
}

/// The admission limiter.
#[derive(Debug)]
pub struct Limiter {
    limits: Vec<(BlockableUnit, Limits)>,
    last_prune: u64,
    dur_per_req: u64,
    burst: u64,
    prune_interval: u64,
}

/// The mathematical shape of a [`Limiter`].
#[verifier::ext_equal]
pub struct SpecLimiter {
    pub entries: Seq<(SpecKey, Limits)>,
    pub last_prune: u64,
    pub dur_per_req: u64,
    pub burst: u64,
    pub prune_interval: u64,
}

impl DeepView for Limiter {
    type V = SpecLimiter;

    closed spec fn deep_view(&self) -> SpecLimiter {
        SpecLimiter {
            entries: self.limits.deep_view(),
            last_prune: self.last_prune,
            dur_per_req: self.dur_per_req,
            burst: self.burst,
            prune_interval: self.prune_interval,
        }
    }
}

/// What one `should_allow_at` call does: a keyless session is allowed with
/// nothing changed; otherwise the key's bucket steps, the entry is stored
/// back, and when the prune interval has passed every expired entry is
/// dropped.
pub open spec fn spec_should_allow(lim: SpecLimiter, au: SpecAuth, ip: Option<Seq<char>>, now: u64) -> (
    bool,
    SpecLimiter,
) {
    match spec_limiter_key(au, ip) {
        None => (true, lim),
        Some(k) => {
            let (ok, l2) = spec_bucket_step(
                spec_find_entry(lim.entries, k),
                now,
                lim.dur_per_req,
                lim.burst,
            );
            let stored = spec_store_entry(lim.entries, k, l2);
            if spec_sat_sub(now, lim.last_prune) > lim.prune_interval {
                (
                    ok,
                    SpecLimiter {
                        entries: spec_prune(stored, now),
                        last_prune: now,
                        ..lim
                    },
                )
            } else {
                (ok, SpecLimiter { entries: stored, ..lim })
            }
        },
    }
}

impl Limiter {
    /// A limiter admitting `rate_limit` requests per second steadily, plus
    /// `burst` extra requests at once.
    pub fn new(rate_limit: u64, burst: u64) -> (r: Limiter)
        requires
            rate_limit >= 1,
        ensures
            r.deep_view() == (SpecLimiter {
                entries: Seq::<(SpecKey, Limits)>::empty(),
                last_prune: 0,
                dur_per_req: (1_000_000_000u64 / rate_limit) as u64,
                burst: burst,
                prune_interval: spec_sat_add(
                    (1_000_000_000u64 / rate_limit) as u64,
                    spec_sat_mul_small(1_000_000_000u64 / rate_limit, burst),
                ),
            }),
    {
        let dur_per_req = 1_000_000_000u64 / rate_limit;
        let r = Limiter {
            limits: Vec::new(),
            last_prune: 0,
            dur_per_req,
            burst,
            prune_interval: sat_add(dur_per_req, sat_mul(dur_per_req, burst)),
        };
        assert(r.deep_view().entries =~= Seq::<(SpecKey, Limits)>::empty());
        r
    }

    /// Whether a new connection by this session should proceed, at clock
    /// time `now` — the decision and bookkeeping of [`spec_should_allow`].
    #[verifier::loop_isolation(false)]
    pub fn should_allow_at(&mut self, session: &Session, now: u64) -> (r: bool)
        ensures
            ({
                let (ok, lim2) = spec_should_allow(
                    old(self).deep_view(),
                    session.deep_view().au,
                    session.deep_view().ip,
                    now,
                );
                r == ok && final(self).deep_view() == lim2
            }),
    {
        let key: BlockableUnit = match &session.au {
            Auth::Kv => {
                return true;
            },
            Auth::Ns(n) => BlockableUnit::Namespace(n.clone()),
            Auth::Db(n, _) => BlockableUnit::Namespace(n.clone()),
            Auth::No => match &session.ip {
                Some(s) => BlockableUnit::Ip(normalize_ip(s.as_str())),
                None => {
                    return true;
                },
            },
        };
        let ghost k = key.deep_view();
        let ghost entries0 = self.deep_view().entries;
        // find and step the bucket
        let found = self.find_entry(&key);
        let (ok, l2) = bucket_step(found, now, self.dur_per_req, self.burst);
        self.store_entry(key, l2);
        // prune expired entries when the interval has passed
        if sat_sub(now, self.last_prune) > self.prune_interval {
            self.last_prune = now;
            self.prune(now);
        }
        ok
    }

    /// Whether a new connection by this session should proceed, read off
    /// the wall clock.
    pub fn should_allow(&mut self, session: &Session) -> (r: bool)
        ensures
            exists|now: u64|
                {
                    let (ok, lim2) = #[trigger] spec_should_allow(
                        old(self).deep_view(),
                        session.deep_view().au,
                        session.deep_view().ip,
                        now,
                    );
                    r == ok && final(self).deep_view() == lim2
                },
    {
        let now = clock::now_ns();
        let r = self.should_allow_at(session, now);
        proof {
            let (ok, lim2) = spec_should_allow(
                old(self).deep_view(),
                session.deep_view().au,
                session.deep_view().ip,
                now,
            );
            assert(r == ok && self.deep_view() == lim2);
        }
        r
    }

    /// The number of live entries; pruning keeps this near the number of
    /// active clients.
    pub fn entry_count(&self) -> (r: usize)
        ensures
            r == self.deep_view().entries.len(),
    {
        self.limits.len()
    }

    /// The bucket stored for this key, if one is.
    #[verifier::loop_isolation(false)]
    fn find_entry(&self, key: &BlockableUnit) -> (r: Option<Limits>)
        ensures
            r == spec_find_entry(self.deep_view().entries, key.deep_view()),
    {
        let ghost entries = self.deep_view().entries;
        let mut i: usize = 0;
        assert(entries.skip(0) =~= entries);
        while i < self.limits.len()
            invariant
                i <= self.limits@.len(),
                spec_find_entry(entries, key.deep_view()) == spec_find_entry(
                    entries.skip(i as int),
                    key.deep_view(),
                ),
            decreases self.limits@.len() - i,
        {
            proof {
                assert(entries.skip(i as int)[0] == entries[i as int]);
                assert(entries.skip(i as int).skip(1) =~= entries.skip(i + 1 as int));
            }
            if key_eq(&self.limits[i].0, key) {
                return Some(self.limits[i].1);
            }
            i = i + 1;
        }
        proof {
            assert(entries.skip(self.limits@.len() as int) =~= Seq::<(SpecKey, Limits)>::empty());
        }
        None
    }

    /// Replaces the first entry for this key, or appends one.
    #[verifier::loop_isolation(false)]
    fn store_entry(&mut self, key: BlockableUnit, l: Limits)
        ensures
            final(self).deep_view() == (SpecLimiter {
                entries: spec_store_entry(
                    old(self).deep_view().entries,
                    key.deep_view(),
                    l,
                ),
                ..old(self).deep_view()
            }),
    {
        let ghost entries = self.deep_view().entries;
        let n = self.limits.len();
        let mut i: usize = 0;
        while i < n
            invariant
                i <= n,
                n == self.limits@.len(),
                self.deep_view() == old(self).deep_view(),
                forall|j: int| 0 <= j < i ==> entries[j].0 != key.deep_view(),
            decreases n - i,
        {
            if key_eq(&self.limits[i].0, &key) {
                self.limits[i] = (key, l);
                proof {
                    lemma_store_entry_hit(entries, key.deep_view(), l, i as int);
                    assert(self.deep_view().entries =~= entries.update(
                        i as int,
                        (key.deep_view(), l),
                    ));
                }
                return;
            }
            i = i + 1;
        }
        self.limits.push((key, l));
        proof {
            lemma_store_entry_miss(entries, key.deep_view(), l);
            assert(self.deep_view().entries =~= entries.push((key.deep_view(), l)));
        }
    }

    /// Drops every entry whose limit has expired by `now`.
    #[verifier::loop_isolation(false)]
    fn prune(&mut self, now: u64)
        ensures
            final(self).deep_view() == (SpecLimiter {
                entries: spec_prune(old(self).deep_view().entries, now),
                ..old(self).deep_view()
            }),
    {
        let ghost entries = self.deep_view().entries;
        let mut kept: Vec<(BlockableUnit, Limits)> = Vec::new();
        let n = self.limits.len();
        let mut i: usize = 0;
        while i < n
            invariant
                i <= n,
                n == self.limits@.len(),
                self.deep_view() == old(self).deep_view(),
                kept.deep_view() == spec_prune(entries.take(i as int), now),
            decreases n - i,
        {
            let ghost prekept = kept.deep_view();
            if self.limits[i].1.rate_limited_until > now {
                let k2 = match &self.limits[i].0 {
                    BlockableUnit::Ip(s) => BlockableUnit::Ip(s.clone()),
                    BlockableUnit::Namespace(s) => BlockableUnit::Namespace(s.clone()),
                };
                kept.push((k2, self.limits[i].1));
                proof {
                    assert(kept.deep_view() =~= prekept.push(entries[i as int]));
                }
            }
            proof {
                assert(entries.take(i + 1 as int).drop_last() =~= entries.take(i as int));
                assert(entries.take(i + 1 as int).last() == entries[i as int]);
                assert(kept.deep_view() =~= spec_prune(entries.take(i + 1 as int), now));
            }
            i = i + 1;
        }
        proof {
            assert(entries.take(n as int) =~= entries);
        }
        self.limits = kept;
    }
}

/// Builds the limiter with the crate's default rate and burst, as the
/// server does once at startup.
pub fn init() -> (r: Result<Limiter, Error>)
    ensures
        r is Ok,
        r->Ok_0.deep_view().dur_per_req == 1_000_000_000u64 / RATE_LIMIT,
        r->Ok_0.deep_view().burst == RATE_LIMIT_BURST,
        r->Ok_0.deep_view().entries.len() == 0,
{
    Ok(Limiter::new(RATE_LIMIT, RATE_LIMIT_BURST))
}

/// Whether two keys are the same client.
fn key_eq(a: &BlockableUnit, b: &BlockableUnit) -> (r: bool)
    ensures
        r == (a.deep_view() == b.deep_view()),
{
    match (a, b) {
        (BlockableUnit::Ip(x), BlockableUnit::Ip(y)) => crate::strutil::str_eq(
            x.as_str(),
            y.as_str(),
        ),
        (BlockableUnit::Namespace(x), BlockableUnit::Namespace(y)) => crate::strutil::str_eq(
            x.as_str(),
            y.as_str(),
        ),
        _ => false,
    }
}

/// Multiplication that stops at the top of `u64`.
pub open spec fn spec_sat_mul_small(a: u64, b: u64) -> u64 {
    if a * b <= u64::MAX {
        (a * b) as u64
    } else {
        u64::MAX
    }
}

/// Saturating addition.
pub fn sat_add(a: u64, b: u64) -> (r: u64)
    ensures
        r == spec_sat_add(a, b),
{
    if b <= u64::MAX - a {
        a + b
    } else {
        u64::MAX
    }
}

/// Saturating subtraction.
pub fn sat_sub(a: u64, b: u64) -> (r: u64)
    ensures
        r == spec_sat_sub(a, b),
{
    if a >= b {
        a - b
    } else {
        0
    }
}

/// Saturating multiplication.
pub fn sat_mul(a: u64, b: u64) -> (r: u64)
    ensures
        r == spec_sat_mul_small(a, b),
{
    if a == 0 || b == 0 {
        proof {
            assert(a * b == 0) by (nonlinear_arith)
                requires
                    a == 0 || b == 0,
            ;
        }
        0
    } else if a <= u64::MAX / b {
        proof {
            assert(a * b <= u64::MAX) by (nonlinear_arith)
                requires
                    b >= 1 && a <= u64::MAX / b,
            ;
        }
        a * b
    } else {
        proof {
            assert(a * b > u64::MAX) by (nonlinear_arith)
                requires
                    b >= 1 && a > u64::MAX / b,
            ;
        }
        u64::MAX
    }
}

/// One token-bucket decision, as executable code.
pub fn bucket_step(e: Option<Limits>, now: u64, dur: u64, burst: u64) -> (r: (bool, Limits))
    ensures
        r == spec_bucket_step(e, now, dur, burst),
{
    let l = match e {
        Some(l) => l,
        None => Limits { rate_limited_until: now, burst_used: 0 },
    };
    if now > l.rate_limited_until {
        (true, Limits { rate_limited_until: now, burst_used: 0 })
    } else if l.burst_used <= burst {
        (
            true,
            Limits {
                rate_limited_until: sat_add(l.rate_limited_until, dur),
                burst_used: sat_add(l.burst_used, 1),
            },
        )
    } else {
        (false, l)
    }
}

/// `store_entry` on a list whose first `i` keys differ from `k` and whose
/// `i`-th key equals `k` replaces exactly the `i`-th entry.
proof fn lemma_store_entry_hit(entries: Seq<(SpecKey, Limits)>, k: SpecKey, l: Limits, i: int)
    requires
        0 <= i < entries.len(),
        entries[i].0 == k,
        forall|j: int| 0 <= j < i ==> entries[j].0 != k,
    ensures
        spec_store_entry(entries, k, l) =~= entries.update(i, (k, l)),
    decreases i,
{
    if i == 0 {
        assert(spec_store_entry(entries, k, l) =~= seq![(k, l)] + entries.skip(1));
        assert(seq![(k, l)] + entries.skip(1) =~= entries.update(0, (k, l)));
    } else {
        assert(entries[0].0 != k);
        lemma_store_entry_hit(entries.skip(1), k, l, i - 1);
        assert(entries.skip(1).update(i - 1, (k, l)) =~= entries.update(i, (k, l)).skip(1));
        assert(spec_store_entry(entries, k, l) =~= entries.update(i, (k, l)));
    }
}

/// `store_entry` on a list with no entry for `k` appends one.
proof fn lemma_store_entry_miss(entries: Seq<(SpecKey, Limits)>, k: SpecKey, l: Limits)
    requires
        forall|j: int| 0 <= j < entries.len() ==> entries[j].0 != k,
    ensures
        spec_store_entry(entries, k, l) =~= entries.push((k, l)),
    decreases entries.len(),
{
    if entries.len() > 0 {
        lemma_store_entry_miss(entries.skip(1), k, l);
        assert(spec_store_entry(entries, k, l) =~= seq![entries[0]] + (entries.skip(1).push(
            (k, l),
        )));
        assert(seq![entries[0]] + entries.skip(1).push((k, l)) =~= entries.push((k, l)));
    }
}

/// Law: a root session bypasses the limiter: it is always allowed and the
/// limiter is left untouched, whatever the rate or the address.
pub proof fn lemma_root_bypass(lim: SpecLimiter, ip: Option<Seq<char>>, now: u64)
    ensures
        spec_should_allow(lim, SpecAuth::Kv, ip, now) == (true, lim),
{
}

/// The admissions of a run of requests on one key, from a given bucket.
pub open spec fn spec_run_bucket(
    times: Seq<u64>,
    e: Option<Limits>,
    dur: u64,
    burst: u64,
) -> Seq<bool>
    decreases times.len(),
{
    if times.len() == 0 {
        Seq::empty()
    } else {
        let (ok, l2) = spec_bucket_step(e, times[0], dur, burst);
        seq![ok] + spec_run_bucket(times.skip(1), Some(l2), dur, burst)
    }
}

/// Law: requests spaced strictly wider than the per-request duration — a
/// rate at or under the configured limit — are all admitted, whatever the
/// burst allowance.
pub proof fn lemma_steady_rate_all_allowed(times: Seq<u64>, dur: u64, burst: u64)
    requires
        forall|i: int| 0 <= i < times.len() - 1 ==> times[i] + dur < #[trigger] times[i + 1],
        forall|i: int| 0 <= i < times.len() ==> #[trigger] times[i] + dur <= u64::MAX,
    ensures
        spec_run_bucket(times, None, dur, burst).len() == times.len(),
        forall|i: int|
            0 <= i < times.len() ==> #[trigger] spec_run_bucket(times, None, dur, burst)[i],
{
    if times.len() > 0 {
        let l2 = spec_bucket_step(None, times[0], dur, burst).1;
        assert(spec_bucket_step(None, times[0], dur, burst).0);
        assert(l2.rate_limited_until == spec_sat_add(times[0], dur));
        lemma_steady_rate_open(times.skip(1), l2, dur, burst);
        assert forall|i: int|
            0 <= i < times.len() implies #[trigger] spec_run_bucket(times, None, dur, burst)[i] by {
            if i > 0 {
                assert(times.skip(1)[i - 1] == times[i]);
                assert(spec_run_bucket(times.skip(1), Some(l2), dur, burst)[i - 1]);
            }
        }
    }
}

/// The induction behind the steady-rate law: once the bucket's limit sits
/// at or before the next request time, every later request resets it.
proof fn lemma_steady_rate_open(times: Seq<u64>, l: Limits, dur: u64, burst: u64)
    requires
        forall|i: int| 0 <= i < times.len() - 1 ==> times[i] + dur < #[trigger] times[i + 1],
        forall|i: int| 0 <= i < times.len() ==> #[trigger] times[i] + dur <= u64::MAX,
        times.len() > 0 ==> l.rate_limited_until < times[0],
    ensures
        spec_run_bucket(times, Some(l), dur, burst).len() == times.len(),
        forall|i: int|
            0 <= i < times.len() ==> #[trigger] spec_run_bucket(times, Some(l), dur, burst)[i],
    decreases times.len(),
{
    if times.len() > 0 {
        let step = spec_bucket_step(Some(l), times[0], dur, burst);
        assert(step.0);
        assert(step.1.rate_limited_until == times[0]);
        assert(times.len() > 1 ==> times.skip(1)[0] == times[1]);
        lemma_steady_rate_open(times.skip(1), step.1, dur, burst);
        assert forall|i: int|
            0 <= i < times.len() implies #[trigger] spec_run_bucket(times, Some(l), dur, burst)[i] by {
            if i > 0 {
                assert(times.skip(1)[i - 1] == times[i]);
                assert(spec_run_bucket(times.skip(1), Some(step.1), dur, burst)[i - 1]);
            }
        }
    }
}

/// A bucket run answers every request.
pub proof fn lemma_run_bucket_len(times: Seq<u64>, e: Option<Limits>, dur: u64, burst: u64)
    ensures
        spec_run_bucket(times, e, dur, burst).len() == times.len(),
    decreases times.len(),
{
    if times.len() > 0 {
        let (ok, l2) = spec_bucket_step(e, times[0], dur, burst);
        lemma_run_bucket_len(times.skip(1), Some(l2), dur, burst);
    }
}

/// Law: requests packed at or tighter than the per-request duration — a
/// rate above the configured limit — exhaust the burst allowance: of the
/// first `burst + 2` requests on a fresh key, the first `burst + 1` are
/// admitted and the next is denied.
pub proof fn lemma_over_rate_denied(times: Seq<u64>, dur: u64, burst: u64)
    requires
        forall|i: int| 0 <= i < times.len() - 1 ==> #[trigger] times[i + 1] <= times[i] + dur,
        times.len() > burst + 1,
        times.len() > 0 ==> times[0] + dur * times.len() <= u64::MAX,
        burst + times.len() <= u64::MAX,
    ensures
        spec_run_bucket(times, None, dur, burst).len() == times.len(),
        forall|i: int|
            0 <= i <= burst + 1 && i < times.len() ==> (#[trigger] spec_run_bucket(
                times,
                None,
                dur,
                burst,
            )[i] <==> i <= burst),
{
    lemma_run_bucket_len(times, None, dur, burst);
    let step = spec_bucket_step(None, times[0], dur, burst);
    assert(step.0);
    assert(times[0] + dur <= u64::MAX) by {
        assert(dur * times.len() >= dur * 1) by (nonlinear_arith)
            requires
                times.len() >= 1,
        ;
    }
    assert(step.1.rate_limited_until == times[0] + dur);
    assert(forall|i: int|
        0 <= i < times.skip(1).len() ==> #[trigger] times.skip(1)[i] == times[i + 1]);
    assert(times.len() > 1 ==> times.skip(1)[0] <= step.1.rate_limited_until);
    assert((step.1.rate_limited_until as int) + dur * (times.len() - 1) <= u64::MAX) by (
    nonlinear_arith)
        requires
            (times[0] as int) + dur * times.len() <= u64::MAX,
            step.1.rate_limited_until == times[0] + dur,
            times.len() >= 1,
    ;
    lemma_dense_until_denial(times.skip(1), step.1, dur, burst);
    assert forall|i: int|
        0 <= i <= burst + 1 && i < times.len() implies (#[trigger] spec_run_bucket(
        times,
        None,
        dur,
        burst,
    )[i] <==> i <= burst) by {
        if i > 0 {
            assert(times.skip(1)[i - 1] == times[i]);
            assert(step.1.burst_used + (i - 1) <= burst + 1);
            assert(spec_run_bucket(times.skip(1), Some(step.1), dur, burst)[i - 1] <==> (
            step.1.burst_used + (i - 1) <= burst));
        }
    }
}

/// The induction behind the over-rate law: while requests arrive no later
/// than the advancing limit, each admission spends one unit of burst, so
/// request `i` is admitted exactly while `burst_used + i` fits — up to and
/// including the first denial.
proof fn lemma_dense_until_denial(times: Seq<u64>, l: Limits, dur: u64, burst: u64)
    requires
        forall|i: int| 0 <= i < times.len() - 1 ==> #[trigger] times[i + 1] <= times[i] + dur,
        times.len() > 0 ==> times[0] <= l.rate_limited_until,
        (l.rate_limited_until as int) + dur * times.len() <= u64::MAX,
        l.burst_used + times.len() <= u64::MAX,
    ensures
        forall|i: int|
            0 <= i < times.len() && l.burst_used + i <= burst + 1 ==> (
            #[trigger] spec_run_bucket(times, Some(l), dur, burst)[i] <==> l.burst_used + i
                <= burst),
    decreases times.len(),
{
    if times.len() > 0 {
        lemma_run_bucket_len(times, Some(l), dur, burst);
        let step = spec_bucket_step(Some(l), times[0], dur, burst);
        assert(!(times[0] > l.rate_limited_until));
        assert(forall|i: int|
            0 <= i < times.skip(1).len() ==> #[trigger] times.skip(1)[i] == times[i + 1]);
        if l.burst_used <= burst {
            assert(step.0);
            assert(l.rate_limited_until + dur <= u64::MAX) by (nonlinear_arith)
                requires
                    (l.rate_limited_until as int) + dur * times.len() <= u64::MAX,
                    times.len() >= 1,
            ;
            assert(step.1.rate_limited_until == l.rate_limited_until + dur);
            assert(step.1.burst_used == l.burst_used + 1);
            assert(times.len() > 1 ==> times.skip(1)[0] <= step.1.rate_limited_until);
            assert((step.1.rate_limited_until as int) + dur * (times.len() - 1) <= u64::MAX)
                by (nonlinear_arith)
                requires
                    (l.rate_limited_until as int) + dur * times.len() <= u64::MAX,
                    step.1.rate_limited_until == l.rate_limited_until + dur,
                    times.len() >= 1,
            ;
            lemma_dense_until_denial(times.skip(1), step.1, dur, burst);
            assert forall|i: int|
                0 <= i < times.len() && l.burst_used + i <= burst + 1 implies (
            #[trigger] spec_run_bucket(times, Some(l), dur, burst)[i] <==> l.burst_used + i
                <= burst) by {
                if i > 0 {
                    assert(times.skip(1)[i - 1] == times[i]);
                    assert(spec_run_bucket(times.skip(1), Some(step.1), dur, burst)[i - 1]
                        <==> (step.1.burst_used + (i - 1) <= burst));
                }
            }
        } else {
            assert(!step.0);
            assert forall|i: int|
                0 <= i < times.len() && l.burst_used + i <= burst + 1 implies (
            #[trigger] spec_run_bucket(times, Some(l), dur, burst)[i] <==> l.burst_used + i
                <= burst) by {
                assert(i == 0 ==> !spec_run_bucket(times, Some(l), dur, burst)[0]);
            }
        }
    }
}

/// Law: one burst — every request at the same instant, on a fresh key — is
/// admitted exactly while the burst allowance lasts: the first `burst + 1`
/// requests pass and every further one is denied.
pub proof fn lemma_burst_exactly(times: Seq<u64>, dur: u64, burst: u64)
    requires
        forall|i: int| 0 <= i < times.len() ==> #[trigger] times[i] == times[0],
        burst + times.len() <= u64::MAX,
    ensures
        spec_run_bucket(times, None, dur, burst).len() == times.len(),
        forall|i: int|
            0 <= i < times.len() ==> (#[trigger] spec_run_bucket(times, None, dur, burst)[i] <==> i
                <= burst),
{
    if times.len() > 0 {
        let step = spec_bucket_step(None, times[0], dur, burst);
        assert(step.0);
        assert(step.1.rate_limited_until == spec_sat_add(times[0], dur));
        assert(times[0] <= step.1.rate_limited_until);
        assert(forall|i: int|
            0 <= i < times.skip(1).len() ==> #[trigger] times.skip(1)[i] == times[i + 1]);
        lemma_burst_dense(times.skip(1), times[0], step.1, dur, burst);
        assert forall|i: int|
            0 <= i < times.len() implies (#[trigger] spec_run_bucket(times, None, dur, burst)[i]
            <==> i <= burst) by {
            if i > 0 {
                assert(times.skip(1)[i - 1] == times[i]);
                assert(spec_run_bucket(times.skip(1), Some(step.1), dur, burst)[i - 1] <==> (
                step.1.burst_used + (i - 1) <= burst));
            }
        }
    }
}

/// The induction behind the burst law: requests at one instant never see
/// the limit expire, so each admitted request spends one unit of burst and
/// request `i` is admitted exactly when `burst_used + i` still fits.
proof fn lemma_burst_dense(times: Seq<u64>, t: u64, l: Limits, dur: u64, burst: u64)
    requires
        forall|i: int| 0 <= i < times.len() ==> #[trigger] times[i] == t,
        t <= l.rate_limited_until,
        l.burst_used + times.len() <= u64::MAX,
    ensures
        spec_run_bucket(times, Some(l), dur, burst).len() == times.len(),
        forall|i: int|
            0 <= i < times.len() ==> (#[trigger] spec_run_bucket(times, Some(l), dur, burst)[i]
                <==> l.burst_used + i <= burst),
    decreases times.len(),
{
    if times.len() > 0 {
        let step = spec_bucket_step(Some(l), times[0], dur, burst);
        assert(!(times[0] > l.rate_limited_until));
        assert(forall|i: int|
            0 <= i < times.skip(1).len() ==> #[trigger] times.skip(1)[i] == times[i + 1]);
        if l.burst_used <= burst {
            assert(step.0);
            assert(step.1.rate_limited_until == spec_sat_add(l.rate_limited_until, dur));
            assert(t <= step.1.rate_limited_until);
            assert(step.1.burst_used == spec_sat_add(l.burst_used, 1));
            assert(step.1.burst_used == l.burst_used + 1);
            lemma_burst_dense(times.skip(1), t, step.1, dur, burst);
        } else {
            assert(!step.0);
            assert(step.1 == l);
            lemma_burst_dense(times.skip(1), t, step.1, dur, burst);
        }
        assert forall|i: int|
            0 <= i < times.len() implies (#[trigger] spec_run_bucket(times, Some(l), dur, burst)[i]
            <==> l.burst_used + i <= burst) by {
            if i > 0 {
                assert(times.skip(1)[i - 1] == times[i]);
                assert(spec_run_bucket(times.skip(1), Some(step.1), dur, burst)[i - 1] <==> (
                step.1.burst_used + (i - 1) <= burst));
            }
        }
    }
}

} // verus!
