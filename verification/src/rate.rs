//! Rate limits for what the server may ask of this machine.

use vstd::prelude::*;
use std::collections::VecDeque;

verus! {

/// How many of the oldest admissions lie more than `window` before `now`.
pub open spec fn expired(admitted: Seq<u64>, now: u64, window: u64) -> nat
    decreases admitted.len(),
{
    if admitted.len() > 0 && now - admitted[0] > window {
        1 + expired(admitted.skip(1), now, window)
    } else {
        0
    }
}

/// The admissions that still count at `now`.
pub open spec fn still_counting(admitted: Seq<u64>, now: u64, window: u64) -> Seq<u64> {
    admitted.skip(expired(admitted, now, window) as int)
}

/// At most `max_count` actions in any `window` (milliseconds).
pub struct RateLimiter {
    timestamps: VecDeque<u64>,
    max_count: usize,
    window: u64,
}

impl View for RateLimiter {
    type V = Seq<u64>;

    closed spec fn view(&self) -> Seq<u64> {
        self.timestamps@
    }
}

impl RateLimiter {
    pub closed spec fn max(&self) -> nat {
        self.max_count as nat
    }

    pub closed spec fn span(&self) -> u64 {
        self.window
    }

    pub fn new(max_count: usize, window: u64) -> (r: RateLimiter)
        ensures
            r@ == Seq::<u64>::empty(),
            r.max() == max_count,
            r.span() == window,
    {
        RateLimiter { timestamps: VecDeque::new(), max_count, window }
    }

    /// Returns true if the action is allowed at the time `now`, false if it
    /// is rate limited. Only an allowed action is remembered.
    pub fn check(&mut self, now: u64) -> (allowed: bool)
        ensures
            checked(*old(self), now, allowed, *final(self)),
    {
        let ghost start = self.timestamps@;
        assert(start.skip(0) == start);
        let ghost mut dropped: nat = 0;
        while self.timestamps.len() > 0 && now >= self.timestamps[0] && now - self.timestamps[0]
            > self.window
            invariant
                self.window == old(self).window,
                self.max_count == old(self).max_count,
                dropped <= start.len(),
                self.timestamps@ == start.skip(dropped as int),
                start == old(self).timestamps@,
                expired(start, now, self.window) == dropped + expired(
                    self.timestamps@,
                    now,
                    self.window,
                ),
            decreases self.timestamps.len(),
        {
            let ghost before = self.timestamps@;
            let _ = self.timestamps.pop_front();
            proof {
                assert(before.skip(1) == self.timestamps@);
                assert(start.skip(dropped as int).skip(1) == start.skip(dropped as int + 1));
                dropped = dropped + 1;
            }
        }
        if self.timestamps.len() >= self.max_count {
            return false;
        }
        self.timestamps.push_back(now);
        true
    }
}

/// Whether a request at the time `now` takes a limiter from `pre` to `post`,
/// and is answered with `allowed`.
pub open spec fn checked(pre: RateLimiter, now: u64, allowed: bool, post: RateLimiter) -> bool {
    let kept = still_counting(pre@, now, pre.span());
    &&& post.max() == pre.max()
    &&& post.span() == pre.span()
    &&& allowed <==> kept.len() < pre.max()
    &&& post@ == if allowed {
        kept.push(now)
    } else {
        kept
    }
}

/// Limits on the actions that a server can start on the client. They outlive
/// a connection, so dropping it does not reset them.
pub struct SecurityLimiters {
    pub url: RateLimiter,
    pub clipboard_set: RateLimiter,
    pub tunnel_listen: RateLimiter,
    pub agent_open: RateLimiter,
}

/// The window of the security limits, in milliseconds.
pub const SECURITY_WINDOW_MS: u64 = 30000;

impl SecurityLimiters {
    pub fn new() -> (s: SecurityLimiters)
        ensures
            s.url.max() == 2 && s.url@.len() == 0,
            s.clipboard_set.max() == 5 && s.clipboard_set@.len() == 0,
            s.tunnel_listen.max() == 2 && s.tunnel_listen@.len() == 0,
            s.agent_open.max() == 10 && s.agent_open@.len() == 0,
            s.url.span() == SECURITY_WINDOW_MS,
            s.clipboard_set.span() == SECURITY_WINDOW_MS,
            s.tunnel_listen.span() == SECURITY_WINDOW_MS,
            s.agent_open.span() == SECURITY_WINDOW_MS,
    {
        SecurityLimiters {
            url: RateLimiter::new(2, SECURITY_WINDOW_MS),
            clipboard_set: RateLimiter::new(5, SECURITY_WINDOW_MS),
            tunnel_listen: RateLimiter::new(2, SECURITY_WINDOW_MS),
            agent_open: RateLimiter::new(10, SECURITY_WINDOW_MS),
        }
    }
}

pub open spec fn nondecreasing(s: Seq<u64>) -> bool {
    forall|i: int, j: int| 0 <= i <= j < s.len() ==> s[i] <= s[j]
}

pub proof fn lemma_expired(s: Seq<u64>, now: u64, window: u64)
    ensures
        expired(s, now, window) <= s.len(),
        forall|i: int| 0 <= i < expired(s, now, window) ==> now - #[trigger] s[i] > window,
        expired(s, now, window) < s.len() ==> now - s[expired(s, now, window) as int] <= window,
    decreases s.len(),
{
    if s.len() > 0 && now - s[0] > window {
        let t = s.skip(1);
        lemma_expired(t, now, window);
        assert forall|i: int| 0 <= i < expired(s, now, window) implies now - #[trigger] s[i]
            > window by {
            if i > 0 {
                assert(s[i] == t[i - 1]);
            }
        }
    }
}

/// A run of a limiter that is new at first: its states, the times of the
/// requests, and the answers.
pub open spec fn is_run(states: Seq<RateLimiter>, times: Seq<u64>, allowed: Seq<bool>) -> bool {
    &&& states.len() == times.len() + 1
    &&& allowed.len() == times.len()
    &&& nondecreasing(times)
    &&& states[0]@.len() == 0
    &&& forall|k: int|
        0 <= k < times.len() ==> checked(
            #[trigger] states[k],
            times[k],
            allowed[k],
            states[k + 1],
        )
}

/// How many of the first `k` requests were allowed and lie at most `window`
/// before `now`.
pub open spec fn recent(
    times: Seq<u64>,
    allowed: Seq<bool>,
    k: nat,
    now: u64,
    window: u64,
) -> nat
    decreases k,
{
    if k == 0 {
        0
    } else {
        let last = k - 1;
        recent(times, allowed, last as nat, now, window) + (if allowed[last] && now - times[last]
            <= window {
            1nat
        } else {
            0nat
        })
    }
}

/// How many of the first `k` requests were allowed in the stretch of `window`
/// that begins at `from`.
pub open spec fn allowed_within(
    times: Seq<u64>,
    allowed: Seq<bool>,
    k: nat,
    from: u64,
    window: u64,
) -> nat
    decreases k,
{
    if k == 0 {
        0
    } else {
        let last = k - 1;
        allowed_within(times, allowed, last as nat, from, window) + (if allowed[last] && from
            <= times[last] <= from + window {
            1nat
        } else {
            0nat
        })
    }
}

pub proof fn lemma_counting_twice(s: Seq<u64>, t: u64, now: u64, window: u64)
    requires
        t <= now,
    ensures
        still_counting(still_counting(s, t, window), now, window) == still_counting(s, now, window),
    decreases s.len(),
{
    if s.len() > 0 && t - s[0] > window {
        let rest = s.skip(1);
        lemma_counting_twice(rest, t, now, window);
        lemma_expired(rest, t, window);
        lemma_expired(rest, now, window);
        assert(rest.skip(expired(rest, t, window) as int) =~= s.skip(
            expired(s, t, window) as int,
        ));
        assert(rest.skip(expired(rest, now, window) as int) =~= s.skip(
            expired(s, now, window) as int,
        ));
    } else {
        assert(s.skip(0) =~= s);
    }
}

pub proof fn lemma_counting_push(s: Seq<u64>, t: u64, now: u64, window: u64)
    requires
        t <= now,
        forall|i: int| 0 <= i < s.len() ==> #[trigger] s[i] <= t,
    ensures
        still_counting(s.push(t), now, window).len() == still_counting(s, now, window).len() + (
        if now - t <= window {
            1nat
        } else {
            0nat
        }),
    decreases s.len(),
{
    let p = s.push(t);
    lemma_expired(s, now, window);
    lemma_expired(p, now, window);
    if s.len() == 0 {
        assert(p.skip(1).len() == 0);
        assert(p[0] == t);
    } else {
        assert(p[0] == s[0]);
        if now - s[0] > window {
            assert(p.skip(1) =~= s.skip(1).push(t));
            assert forall|i: int| 0 <= i < s.skip(1).len() implies #[trigger] s.skip(1)[i] <= t by {
                assert(s.skip(1)[i] == s[i + 1]);
            }
            lemma_counting_push(s.skip(1), t, now, window);
            lemma_expired(s.skip(1), now, window);
            lemma_expired(s.skip(1).push(t), now, window);
        }
    }
}

/// What a limiter still counts is what was allowed within the window.
proof fn lemma_run(
    states: Seq<RateLimiter>,
    times: Seq<u64>,
    allowed: Seq<bool>,
    k: nat,
    now: u64,
)
    requires
        is_run(states, times, allowed),
        k <= times.len(),
        k > 0 ==> times[k - 1] <= now,
    ensures
        states[k as int].max() == states[0].max(),
        states[k as int].span() == states[0].span(),
        forall|i: int|
            0 <= i < states[k as int]@.len() ==> k > 0 && #[trigger] states[k as int]@[i]
                <= times[k - 1],
        still_counting(states[k as int]@, now, states[0].span()).len() == recent(
            times,
            allowed,
            k,
            now,
            states[0].span(),
        ),
    decreases k,
{
    let w = states[0].span();
    if k == 0 {
        lemma_expired(states[0]@, now, w);
    } else {
        let last = k - 1;
        let t = times[last];
        if last > 0 {
            assert(times[last - 1] <= times[last]);
        }
        lemma_run(states, times, allowed, last as nat, now);
        assert(checked(states[last], times[last], allowed[last], states[last + 1]));
        let held = states[last]@;
        let kept = still_counting(held, t, w);
        lemma_expired(held, t, w);
        lemma_counting_twice(held, t, now, w);
        assert forall|i: int| 0 <= i < kept.len() implies #[trigger] kept[i] <= t by {
            assert(kept[i] == held[i + expired(held, t, w)]);
        }
        if allowed[last] {
            lemma_counting_push(kept, t, now, w);
        }
    }
}

/// Exactly the requests are allowed that find fewer than the limit of allowed
/// ones within the window before them. A refused request does not count.
pub proof fn law_which_requests_are_allowed(
    states: Seq<RateLimiter>,
    times: Seq<u64>,
    allowed: Seq<bool>,
    k: int,
)
    requires
        is_run(states, times, allowed),
        0 <= k < times.len(),
    ensures
        allowed[k] <==> recent(times, allowed, k as nat, times[k], states[0].span())
            < states[0].max(),
{
    if k > 0 {
        assert(times[k - 1] <= times[k]);
    }
    lemma_run(states, times, allowed, k as nat, times[k]);
    assert(checked(states[k], times[k], allowed[k], states[k + 1]));
}

proof fn lemma_stretch(
    states: Seq<RateLimiter>,
    times: Seq<u64>,
    allowed: Seq<bool>,
    k: nat,
    from: u64,
)
    requires
        is_run(states, times, allowed),
        k <= times.len(),
    ensures
        allowed_within(times, allowed, k, from, states[0].span()) <= states[0].max(),
    decreases k,
{
    let w = states[0].span();
    if k > 0 {
        let last = k - 1;
        lemma_stretch(states, times, allowed, last as nat, from);
        if allowed[last] && from <= times[last] <= from + w {
            law_which_requests_are_allowed(states, times, allowed, last);
            lemma_stretch_is_recent(times, allowed, last as nat, from, times[last], w);
        }
    }
}

proof fn lemma_stretch_is_recent(
    times: Seq<u64>,
    allowed: Seq<bool>,
    k: nat,
    from: u64,
    now: u64,
    window: u64,
)
    requires
        now <= from + window,
    ensures
        allowed_within(times, allowed, k, from, window) <= recent(times, allowed, k, now, window),
    decreases k,
{
    if k > 0 {
        lemma_stretch_is_recent(times, allowed, (k - 1) as nat, from, now, window);
    }
}

/// No stretch as long as the window holds more allowed requests than the limit,
/// wherever it begins.
pub proof fn law_no_stretch_holds_more(
    states: Seq<RateLimiter>,
    times: Seq<u64>,
    allowed: Seq<bool>,
    from: u64,
)
    requires
        is_run(states, times, allowed),
    ensures
        allowed_within(times, allowed, times.len(), from, states[0].span()) <= states[0].max(),
{
    lemma_stretch(states, times, allowed, times.len(), from);
}

proof fn lemma_recent_without(
    times: Seq<u64>,
    allowed: Seq<bool>,
    others: Seq<bool>,
    k: int,
    m: nat,
    now: u64,
    window: u64,
)
    requires
        allowed.len() == times.len(),
        others.len() + 1 == times.len(),
        0 <= k < times.len(),
        !allowed[k],
        m <= others.len(),
        forall|i: int| 0 <= i < m ==> #[trigger] others[i] == allowed.remove(k)[i],
    ensures
        recent(times.remove(k), others, m, now, window) == recent(
            times,
            allowed,
            if m <= k {
                m
            } else {
                m + 1
            },
            now,
            window,
        ),
    decreases m,
{
    if m > 0 {
        let last = m - 1;
        lemma_recent_without(times, allowed, others, k, last as nat, now, window);
        assert(others[last] == allowed.remove(k)[last]);
        if m == k + 1 {
            assert(recent(times, allowed, (k + 1) as nat, now, window) == recent(
                times,
                allowed,
                k as nat,
                now,
                window,
            ));
        }
    }
    if m == k + 1 {
        assert(recent(times, allowed, m + 1, now, window) == recent(times, allowed, m, now, window)
            + (if allowed[m as int] && now - times[m as int] <= window {
            1nat
        } else {
            0nat
        }));
    }
}

proof fn lemma_same_answers(
    states: Seq<RateLimiter>,
    times: Seq<u64>,
    allowed: Seq<bool>,
    without: Seq<RateLimiter>,
    others: Seq<bool>,
    k: int,
    m: int,
)
    requires
        is_run(states, times, allowed),
        0 <= k < times.len(),
        !allowed[k],
        is_run(without, times.remove(k), others),
        without[0].max() == states[0].max(),
        without[0].span() == states[0].span(),
        0 <= m < others.len(),
    ensures
        forall|i: int| 0 <= i <= m ==> #[trigger] others[i] == allowed.remove(k)[i],
    decreases m,
{
    if m > 0 {
        lemma_same_answers(states, times, allowed, without, others, k, m - 1);
    }
    let at = if m < k {
        m
    } else {
        m + 1
    };
    let now = times[at];
    let w = states[0].span();
    assert(times.remove(k)[m] == now);
    assert(allowed.remove(k)[m] == allowed[at]);
    law_which_requests_are_allowed(states, times, allowed, at);
    law_which_requests_are_allowed(without, times.remove(k), others, m);
    lemma_recent_without(times, allowed, others, k, m as nat, now, w);
    if m == k {
        assert(recent(times, allowed, (k + 1) as nat, now, w) == recent(
            times,
            allowed,
            k as nat,
            now,
            w,
        ));
    }
}

/// A refused request uses up no budget: without it, every other request of the
/// run is answered the same.
pub proof fn law_refusals_cost_nothing(
    states: Seq<RateLimiter>,
    times: Seq<u64>,
    allowed: Seq<bool>,
    without: Seq<RateLimiter>,
    others: Seq<bool>,
    k: int,
)
    requires
        is_run(states, times, allowed),
        0 <= k < times.len(),
        !allowed[k],
        is_run(without, times.remove(k), others),
        without[0].max() == states[0].max(),
        without[0].span() == states[0].span(),
    ensures
        others == allowed.remove(k),
{
    if others.len() > 0 {
        lemma_same_answers(states, times, allowed, without, others, k, others.len() - 1);
    }
    assert(others =~= allowed.remove(k));
}

} // verus!
