//! A fixed-window rate limiter keyed by client address.
use vstd::prelude::*;

use std::collections::HashMap;

verus! {

broadcast use vstd::std_specs::hash::group_hash_axioms;

/// A client's IP address, as its bits.
#[derive(Debug, Clone, Copy, PartialEq, Eq, Structural)]
pub enum ClientIp {
    V4(u32),
    V6(u128),
}

/// The requests seen from one client in its current window.
#[derive(Debug, Clone, Copy)]
pub struct Window {
    /// When the window opened.
    pub start: u64,
    /// How many requests came in it.
    pub count: u32,
}

/// At most `max` requests per client in any window of `window` time units
/// (the caller's clock, such as nanoseconds since start-up).
pub struct RateLimiter {
    v4: HashMap<u32, Window>,
    v6: HashMap<u128, Window>,
    max: u32,
    window: u64,
}

/// The time from `start` to `now`, or zero when `now` is earlier
/// (`Instant::duration_since`).
pub open spec fn elapsed(now: u64, start: u64) -> int {
    if now >= start {
        now - start
    } else {
        0
    }
}

/// A client's window after one more request at `now`: a new window opens when
/// the client has none or its window is older than `window`; then the request
/// is counted (the count stops at `u32::MAX`).
pub open spec fn next_window(w: Option<Window>, now: u64, window: u64) -> Window {
    let cur = match w {
        Some(x) => x,
        None => Window { start: now, count: 0 },
    };
    let base = if elapsed(now, cur.start) > window {
        Window { start: now, count: 0 }
    } else {
        cur
    };
    Window {
        start: base.start,
        count: if base.count < u32::MAX {
            (base.count + 1) as u32
        } else {
            u32::MAX
        },
    }
}

impl RateLimiter {
    /// The number of requests allowed per window.
    pub closed spec fn limit(&self) -> u32 {
        self.max
    }

    /// The length of a window.
    pub closed spec fn span(&self) -> u64 {
        self.window
    }

    /// The window of a client, if it has made a request.
    pub closed spec fn window_of(&self, ip: ClientIp) -> Option<Window> {
        match ip {
            ClientIp::V4(a) => if self.v4@.contains_key(a) {
                Some(self.v4@[a])
            } else {
                None
            },
            ClientIp::V6(b) => if self.v6@.contains_key(b) {
                Some(self.v6@[b])
            } else {
                None
            },
        }
    }

    /// The windows of all clients.
    pub open spec fn windows(&self) -> spec_fn(ClientIp) -> Option<Window> {
        |ip: ClientIp| self.window_of(ip)
    }

    /// A limiter that has seen no request.
    #[must_use]
    pub fn new(max: u32, window: u64) -> (r: Self)
        ensures
            r.limit() == max,
            r.span() == window,
            forall|ip: ClientIp| #[trigger] r.window_of(ip) is None,
            r.windows() == (|ip: ClientIp| None::<Window>),
    {
        let r = RateLimiter { v4: HashMap::new(), v6: HashMap::new(), max, window };
        assert(r.windows() =~= (|ip: ClientIp| None::<Window>));
        r
    }

    /// Counts a request from `ip` at time `now`; whether it is within the limit.
    pub fn check(&mut self, ip: ClientIp, now: u64) -> (ok: bool)
        ensures
            final(self).limit() == old(self).limit(),
            final(self).span() == old(self).span(),
            final(self).window_of(ip) == Some(next_window(old(self).window_of(ip), now, old(self).span())),
            ok == (next_window(old(self).window_of(ip), now, old(self).span()).count <= old(self).limit()),
            forall|other: ClientIp| other != ip ==> #[trigger] final(self).window_of(other) == old(self).window_of(other),
            final(self).windows() == after_call(old(self).windows(), ip, now, old(self).span()),
    {
        let cur = match ip {
            ClientIp::V4(a) => match self.v4.get(&a) {
                Some(w) => *w,
                None => Window { start: now, count: 0 },
            },
            ClientIp::V6(b) => match self.v6.get(&b) {
                Some(w) => *w,
                None => Window { start: now, count: 0 },
            },
        };
        let since = if now >= cur.start {
            now - cur.start
        } else {
            0
        };
        let base = if since > self.window {
            Window { start: now, count: 0 }
        } else {
            cur
        };
        let next = Window { start: base.start, count: base.count.saturating_add(1) };
        match ip {
            ClientIp::V4(a) => {
                self.v4.insert(a, next);
            },
            ClientIp::V6(b) => {
                self.v6.insert(b, next);
            },
        }
        proof {
            assert forall|other: ClientIp| other != ip implies #[trigger] self.window_of(other)
                == old(self).window_of(other) by {
                match other {
                    ClientIp::V4(x) => {
                        if let ClientIp::V4(a) = ip {
                            assert(x != a);
                        }
                    },
                    ClientIp::V6(y) => {
                        if let ClientIp::V6(b) = ip {
                            assert(y != b);
                        }
                    },
                }
            }
        }
        assert(self.windows() =~= after_call(old(self).windows(), ip, now, old(self).span()));
        next.count <= self.max
    }
}

/// The windows of all clients after a request from `ip` at `now`.
pub open spec fn after_call(w: spec_fn(ClientIp) -> Option<Window>, ip: ClientIp, now: u64, window: u64) -> spec_fn(
    ClientIp,
) -> Option<Window> {
    |x: ClientIp| if x == ip {
        Some(next_window(w(ip), now, window))
    } else {
        w(x)
    }
}

/// What a limiter whose clients' windows are `w` answers to the requests
/// `calls` (client, time), made one after the other.
pub open spec fn answers(w: spec_fn(ClientIp) -> Option<Window>, calls: Seq<(ClientIp, u64)>, max: u32, window: u64) -> Seq<bool>
    decreases calls.len(),
{
    if calls.len() == 0 {
        seq![]
    } else {
        let (ip, t) = calls[0];
        seq![next_window(w(ip), t, window).count <= max] + answers(after_call(w, ip, t, window), calls.drop_first(), max, window)
    }
}

/// The times of the requests of `ip` among `calls`, in order.
pub open spec fn times_of(calls: Seq<(ClientIp, u64)>, ip: ClientIp) -> Seq<u64>
    decreases calls.len(),
{
    if calls.len() == 0 {
        seq![]
    } else if calls[0].0 == ip {
        seq![calls[0].1] + times_of(calls.drop_first(), ip)
    } else {
        times_of(calls.drop_first(), ip)
    }
}

/// The answers given to the requests of `ip`, in order.
pub open spec fn answers_to(ans: Seq<bool>, calls: Seq<(ClientIp, u64)>, ip: ClientIp) -> Seq<bool>
    decreases calls.len(),
{
    if calls.len() == 0 || ans.len() == 0 {
        seq![]
    } else if calls[0].0 == ip {
        seq![ans[0]] + answers_to(ans.drop_first(), calls.drop_first(), ip)
    } else {
        answers_to(ans.drop_first(), calls.drop_first(), ip)
    }
}

/// What successive requests at `times` are told, starting from window `w`.
pub open spec fn verdicts(w: Option<Window>, times: Seq<u64>, max: u32, window: u64) -> Seq<bool>
    decreases times.len(),
{
    if times.len() == 0 {
        seq![]
    } else {
        let w2 = next_window(w, times[0], window);
        seq![w2.count <= max] + verdicts(Some(w2), times.drop_first(), max, window)
    }
}

proof fn lemma_verdicts_in_window(s0: u64, c: u32, times: Seq<u64>, max: u32, window: u64)
    requires
        c + times.len() < u32::MAX,
        forall|i: int| 0 <= i < times.len() ==> s0 <= #[trigger] times[i] && times[i] - s0 <= window,
    ensures
        verdicts(Some(Window { start: s0, count: c }), times, max, window).len() == times.len(),
        forall|i: int|
            0 <= i < times.len() ==> #[trigger] verdicts(
                Some(Window { start: s0, count: c }),
                times,
                max,
                window,
            )[i] == (c + i + 1 <= max),
    decreases times.len(),
{
    if times.len() > 0 {
        let t = times.drop_first();
        assert forall|i: int| 0 <= i < t.len() implies s0 <= #[trigger] t[i] && t[i] - s0 <= window by {
            assert(t[i] == times[i + 1]);
        }
        assert(s0 <= times[0] && times[0] - s0 <= window);
        lemma_verdicts_in_window(s0, (c + 1) as u32, t, max, window);
        let v = verdicts(Some(Window { start: s0, count: c }), times, max, window);
        let rest = verdicts(Some(Window { start: s0, count: (c + 1) as u32 }), t, max, window);
        assert(next_window(Some(Window { start: s0, count: c }), times[0], window) == Window {
            start: s0,
            count: (c + 1) as u32,
        });
        assert(v == seq![c + 1 <= max] + rest);
        assert forall|i: int| 0 <= i < times.len() implies #[trigger] v[i] == (c + i + 1 <= max) by {
            if i > 0 {
                assert(v[i] == rest[i - 1]);
            }
        }
    }
}

/// A client that starts afresh is let through for its first `max` requests
/// within one window, and refused for every later request in that window.
pub proof fn law_at_most_max_per_window(times: Seq<u64>, max: u32, window: u64)
    requires
        times.len() < u32::MAX,
        forall|i: int| 0 <= i < times.len() ==> times[0] <= #[trigger] times[i] && times[i] - times[0] <= window,
    ensures
        verdicts(None, times, max, window).len() == times.len(),
        forall|i: int| 0 <= i < times.len() ==> #[trigger] verdicts(None, times, max, window)[i] == (i < max),
{
    if times.len() > 0 {
        let t = times.drop_first();
        let s0 = times[0];
        assert forall|i: int| 0 <= i < t.len() implies s0 <= #[trigger] t[i] && t[i] - s0 <= window by {
            assert(t[i] == times[i + 1]);
        }
        lemma_verdicts_in_window(s0, 1, t, max, window);
        let v = verdicts(None, times, max, window);
        let rest = verdicts(Some(Window { start: s0, count: 1 }), t, max, window);
        assert(next_window(None, s0, window) == Window { start: s0, count: 1 });
        assert(v == seq![1 <= max] + rest);
        assert forall|i: int| 0 <= i < times.len() implies #[trigger] v[i] == (i < max) by {
            if i > 0 {
                assert(v[i] == rest[i - 1]);
            }
        }
    }
}

/// Whatever other clients ask in between, a client is answered as if it were
/// alone: the answers to its requests are the verdicts on their times, from its
/// own window.
pub proof fn law_clients_independent(w: spec_fn(ClientIp) -> Option<Window>, calls: Seq<(ClientIp, u64)>, ip: ClientIp, max: u32, window: u64)
    ensures
        answers(w, calls, max, window).len() == calls.len(),
        answers_to(answers(w, calls, max, window), calls, ip) == verdicts(w(ip), times_of(calls, ip), max, window),
    decreases calls.len(),
{
    if calls.len() > 0 {
        let (ip0, t) = calls[0];
        let w2 = after_call(w, ip0, t, window);
        law_clients_independent(w2, calls.drop_first(), ip, max, window);
        let ans = answers(w, calls, max, window);
        assert(ans.drop_first() =~= answers(w2, calls.drop_first(), max, window));
        if ip0 == ip {
            assert(w2(ip) == Some(next_window(w(ip), t, window)));
            assert(times_of(calls, ip).drop_first() =~= times_of(calls.drop_first(), ip));
        } else {
            assert(w2(ip) == w(ip));
        }
    }
}

/// A client new to the limiter that makes `k` requests within one window,
/// whatever other clients ask in between, is let through for its first `max`
/// and refused for the rest.
pub proof fn law_at_most_max_per_window_among_others(calls: Seq<(ClientIp, u64)>, ip: ClientIp, max: u32, window: u64)
    requires
        times_of(calls, ip).len() < u32::MAX,
        forall|i: int| 0 <= i < times_of(calls, ip).len() ==> times_of(calls, ip)[0] <= #[trigger] times_of(calls, ip)[i]
            && times_of(calls, ip)[i] - times_of(calls, ip)[0] <= window,
    ensures
        ({
            let mine = answers_to(answers(|x: ClientIp| None::<Window>, calls, max, window), calls, ip);
            &&& mine.len() == times_of(calls, ip).len()
            &&& forall|i: int| 0 <= i < mine.len() ==> #[trigger] mine[i] == (i < max)
        }),
{
    let w = |x: ClientIp| None::<Window>;
    law_clients_independent(w, calls, ip, max, window);
    law_at_most_max_per_window(times_of(calls, ip), max, window);
}

/// Once a client's window is older than the window length, its next request
/// opens a new window and counts as its first.
pub proof fn law_window_resets(w: Window, now: u64, max: u32, window: u64)
    requires
        elapsed(now, w.start) > window,
    ensures
        next_window(Some(w), now, window) == (Window { start: now, count: 1 }),
        (next_window(Some(w), now, window).count <= max) == (max >= 1),
{
}

} // verus!
