//! Per-address rate limiting over a sliding one-second window, and request timing.
use crate::clock::{elapsed_nanos, instant_now, millis_since};
use crate::collections::KeyMap;
use std::time::Instant;
use vstd::prelude::*;
use vstd::string::StringExecFns;

verus! {

/// Nanoseconds from `base` to now, cut to `u64::MAX`.
fn nanos_since(base: &Instant) -> (n: u64) {
    let d = elapsed_nanos(base);
    if d > u64::MAX as u128 {
        u64::MAX
    } else {
        d as u64
    }
}

/// Length of the rate-limiting window: one second, in nanoseconds.
pub const WINDOW_NANOS: u64 = 1_000_000_000;

/// The requests one address made in its current window.
#[derive(Debug, Clone)]
struct IpRateLimitState {
    /// When each counted request came, in nanoseconds from the limiter's clock base.
    timestamps: Vec<u64>,
    /// When the window began.
    window_start: u64,
}

/// Allows each address at most `limit` requests in any window of one second.
pub struct RateLimiter {
    limit: usize,
    ip_windows: KeyMap<String, IpRateLimitState>,
    clock_base: Instant,
}

/// Time from `earlier` to `later`, zero when `earlier` comes after.
pub open spec fn elapsed(later: u64, earlier: u64) -> u64 {
    if later >= earlier {
        (later - earlier) as u64
    } else {
        0
    }
}

/// The timestamps still inside the window that ends at `now`.
pub open spec fn recent(ts: Seq<u64>, now: u64) -> Seq<u64> {
    ts.filter(|t: u64| elapsed(now, t) < WINDOW_NANOS)
}

/// An address's window as `allow_at` finds it: a fresh one for a new address, an
/// emptied one restarted at `now` once more than a second has passed since it began.
pub open spec fn window_at(w: Option<(Seq<u64>, u64)>, now: u64) -> (Seq<u64>, u64) {
    match w {
        None => (Seq::empty(), now),
        Some((ts, start)) => if elapsed(now, start) > WINDOW_NANOS {
            (Seq::empty(), now)
        } else {
            (ts, start)
        },
    }
}

/// The decision on a request from `ip` at `now`, and the windows after it: the
/// window restarts when more than a second has passed since it began, timestamps a
/// second old or older are dropped, and the request is allowed, and counted, when
/// fewer than `limit` remain.
pub open spec fn allow_outcome(
    windows: Map<Seq<char>, (Seq<u64>, u64)>,
    limit: usize,
    ip: Seq<char>,
    now: u64,
) -> (bool, Map<Seq<char>, (Seq<u64>, u64)>) {
    let w = if windows.contains_key(ip) {
        Some(windows[ip])
    } else {
        None
    };
    let (ts, start) = window_at(w, now);
    let kept = recent(ts, now);
    let r = kept.len() < limit;
    (r, windows.insert(ip, (if r { kept.push(now) } else { kept }, start)))
}

/// Every address's window holds at most `limit` requests, before and after any decision:
/// a request is counted only while fewer than `limit` remain in the window.
pub proof fn lemma_windows_stay_within_limit(
    windows: Map<Seq<char>, (Seq<u64>, u64)>,
    limit: usize,
    ip: Seq<char>,
    now: u64,
)
    requires
        forall|a: Seq<char>| #[trigger] windows.contains_key(a) ==> windows[a].0.len() <= limit,
    ensures
        forall|a: Seq<char>| #[trigger] allow_outcome(windows, limit, ip, now).1.contains_key(a)
            ==> allow_outcome(windows, limit, ip, now).1[a].0.len() <= limit,
        allow_outcome(windows, limit, ip, now).0 ==> count_at(allow_outcome(windows, limit, ip, now).1, ip, now) <= limit,
{
    let w = if windows.contains_key(ip) {
        Some(windows[ip])
    } else {
        None
    };
    let (ts, start) = window_at(w, now);
    let kept = recent(ts, now);
    ts.lemma_filter_len(|t: u64| elapsed(now, t) < WINDOW_NANOS);
    if kept.len() < limit {
        let after = kept.push(now);
        after.lemma_filter_len(|t: u64| elapsed(now, t) < WINDOW_NANOS);
    }
}

/// Requests of `ip` counted in the window that ends at `now`.
pub open spec fn count_at(windows: Map<Seq<char>, (Seq<u64>, u64)>, ip: Seq<char>, now: u64) -> nat {
    if windows.contains_key(ip) {
        recent(windows[ip].0, now).len()
    } else {
        0
    }
}

impl RateLimiter {
    /// The requests-per-second limit.
    pub closed spec fn spec_limit(&self) -> usize {
        self.limit
    }

    /// Each address's counted request times and window start.
    pub closed spec fn windows(&self) -> Map<Seq<char>, (Seq<u64>, u64)> {
        self.ip_windows@.map_values(|s: IpRateLimitState| (s.timestamps@, s.window_start))
    }

    pub closed spec fn wf(&self) -> bool {
        self.ip_windows.wf()
    }

    /// A limiter with no address seen yet.
    pub fn new(limit: usize) -> (r: Self)
        ensures
            r.wf(),
            r.spec_limit() == limit,
            r.windows() == Map::<Seq<char>, (Seq<u64>, u64)>::empty(),
    {
        let r = RateLimiter { limit, ip_windows: KeyMap::new(), clock_base: instant_now() };
        assert(r.windows() =~= Map::<Seq<char>, (Seq<u64>, u64)>::empty());
        r
    }

    /// Decides a request from `ip` arriving at `now`: the window restarts when more
    /// than a second has passed since it began, timestamps a second old or older are
    /// dropped, and the request is allowed, and counted, when fewer than `limit`
    /// remain.
    pub fn allow_at(&mut self, ip: &str, now: u64) -> (r: bool)
        requires
            old(self).wf(),
        ensures
            final(self).wf(),
            final(self).spec_limit() == old(self).spec_limit(),
            (r, final(self).windows()) == allow_outcome(
                old(self).windows(),
                old(self).spec_limit(),
                ip@,
                now,
            ),
    {
        let key = String::from_str(ip);
        let ghost w0 = if self.windows().contains_key(ip@) {
            Some(self.windows()[ip@])
        } else {
            None
        };
        let (ts, start) = match self.ip_windows.remove(&key) {
            Some(state) => {
                if now >= state.window_start && now - state.window_start > WINDOW_NANOS {
                    (Vec::new(), now)
                } else {
                    (state.timestamps, state.window_start)
                }
            },
            None => (Vec::new(), now),
        };
        proof {
            let (ets, es) = window_at(w0, now);
            assert(ts@ =~= ets);
            assert(start == es);
        }
        let mut kept: Vec<u64> = Vec::new();
        let mut i: usize = 0;
        while i < ts.len()
            invariant
                i <= ts@.len(),
                kept@ == recent(ts@.take(i as int), now),
            decreases ts@.len() - i,
        {
            let t = ts[i];
            let age = if now >= t { now - t } else { 0 };
            proof {
                reveal(Seq::filter);
                assert(ts@.take(i + 1).drop_last() =~= ts@.take(i as int));
                assert(ts@.take(i + 1).last() == t);
            }
            if age < WINDOW_NANOS {
                kept.push(t);
            }
            i = i + 1;
        }
        proof {
            assert(ts@.take(i as int) =~= ts@);
        }
        let allowed = kept.len() < self.limit;
        if allowed {
            kept.push(now);
        }
        self.ip_windows.insert(key, IpRateLimitState { timestamps: kept, window_start: start });
        proof {
            assert(self.windows() =~= old(self).windows().insert(ip@, (kept@, start)));
        }
        allowed
    }

    /// Decides a request from `ip` arriving now (see `allow_at`).
    pub fn allow(&mut self, ip: &str) -> (r: bool)
        requires
            old(self).wf(),
        ensures
            final(self).wf(),
            final(self).spec_limit() == old(self).spec_limit(),
            exists|now: u64|
                (r, final(self).windows()) == #[trigger] allow_outcome(
                    old(self).windows(),
                    old(self).spec_limit(),
                    ip@,
                    now,
                ),
    {
        let now = nanos_since(&self.clock_base);
        self.allow_at(ip, now)
    }

    /// Requests counted for `ip` in the window that ends at `now`.
    pub fn get_count_at(&self, ip: &str, now: u64) -> (n: usize)
        requires
            self.wf(),
        ensures
            n == count_at(self.windows(), ip@, now),
    {
        let key = String::from_str(ip);
        match self.ip_windows.get(&key) {
            Some(state) => {
                let mut n: usize = 0;
                let mut i: usize = 0;
                while i < state.timestamps.len()
                    invariant
                        i <= state.timestamps@.len(),
                        n == recent(state.timestamps@.take(i as int), now).len(),
                        n <= i,
                    decreases state.timestamps@.len() - i,
                {
                    let t = state.timestamps[i];
                    let age = if now >= t { now - t } else { 0 };
                    proof {
                        reveal(Seq::filter);
                        assert(state.timestamps@.take(i + 1).drop_last() =~= state.timestamps@.take(
                            i as int,
                        ));
                    }
                    if age < WINDOW_NANOS {
                        n = n + 1;
                    }
                    i = i + 1;
                }
                proof {
                    assert(state.timestamps@.take(i as int) =~= state.timestamps@);
                }
                n
            },
            None => 0,
        }
    }

    /// Requests counted for `ip` in the window that ends now (see `get_count_at`).
    pub fn get_count(&self, ip: &str) -> (n: usize)
        requires
            self.wf(),
        ensures
            exists|now: u64| n == #[trigger] count_at(self.windows(), ip@, now),
    {
        let now = nanos_since(&self.clock_base);
        self.get_count_at(ip, now)
    }

    /// Forgets every address.
    pub fn clear(&mut self)
        ensures
            final(self).wf(),
            final(self).spec_limit() == old(self).spec_limit(),
            final(self).windows() == Map::<Seq<char>, (Seq<u64>, u64)>::empty(),
    {
        self.ip_windows.clear();
        assert(self.windows() =~= Map::<Seq<char>, (Seq<u64>, u64)>::empty());
    }
}

/// Whether a request that took `duration_ms` is reported as slow.
pub open spec fn is_slow(duration_ms: u128, threshold_ms: u128) -> bool {
    duration_ms > threshold_ms
}

/// Request logger.
pub struct RequestLogger {
    enabled: bool,
    slow_threshold_ms: u128,
}

impl RequestLogger {
    pub closed spec fn spec_enabled(&self) -> bool {
        self.enabled
    }

    pub closed spec fn spec_threshold(&self) -> u128 {
        self.slow_threshold_ms
    }

    /// A logger that reports requests slower than `slow_threshold_ms` as slow.
    pub fn new(enabled: bool, slow_threshold_ms: u128) -> (l: Self)
        ensures
            l.spec_enabled() == enabled,
            l.spec_threshold() == slow_threshold_ms,
    {
        RequestLogger { enabled, slow_threshold_ms }
    }

    /// Starts timing a request now.
    pub fn start(&self) -> (t: RequestTimer)
        ensures
            t.spec_enabled() == self.spec_enabled(),
            t.spec_threshold() == self.spec_threshold(),
    {
        RequestTimer { start: instant_now(), threshold: self.slow_threshold_ms, enabled: self.enabled }
    }
}

/// How a finished request is reported.
#[derive(Debug, Clone, Copy, PartialEq, Eq, Structural)]
pub enum RequestReport {
    /// Logging is off.
    Silent,
    /// Slower than the threshold: a warning with the duration.
    Slow(u128),
    /// Within the threshold: a debug line with the duration.
    Completed(u128),
}

/// Times one request; the caller reports it when the request ends.
pub struct RequestTimer {
    start: Instant,
    threshold: u128,
    enabled: bool,
}

impl RequestTimer {
    pub closed spec fn spec_enabled(&self) -> bool {
        self.enabled
    }

    pub closed spec fn spec_threshold(&self) -> u128 {
        self.threshold
    }

    /// The report for a request that took `duration_ms`.
    pub fn report_for(&self, duration_ms: u128) -> (r: RequestReport)
        ensures
            r == (if !self.spec_enabled() {
                RequestReport::Silent
            } else if is_slow(duration_ms, self.spec_threshold()) {
                RequestReport::Slow(duration_ms)
            } else {
                RequestReport::Completed(duration_ms)
            }),
    {
        if !self.enabled {
            RequestReport::Silent
        } else if duration_ms > self.threshold {
            RequestReport::Slow(duration_ms)
        } else {
            RequestReport::Completed(duration_ms)
        }
    }

    /// The report for the request as it stands now (see `report_for`).
    pub fn finish(&self) -> (r: RequestReport)
        ensures
            !self.spec_enabled() ==> r == RequestReport::Silent,
            self.spec_enabled() ==> exists|d: u128| r == (if is_slow(d, self.spec_threshold()) {
                RequestReport::Slow(d)
            } else {
                RequestReport::Completed(d)
            }),
    {
        if !self.enabled {
            return RequestReport::Silent;
        }
        let d = millis_since(&self.start);
        self.report_for(d)
    }
}

} // verus!
