//! A sliding-window limit on how many replies are sent.
use vstd::prelude::*;

verus! {

/// Replies sent at the instants in `timestamps` (in milliseconds); a message
/// is only answered while fewer than `max_events` of them lie within `window`.
#[derive(Clone, Debug)]
pub struct RateLimiter {
    pub window: u64,
    pub max_events: usize,
    pub timestamps: Vec<u64>,
}

/// Whether an event at `t` still counts at `now`: not more than `window`
/// before it (an event after `now` counts too).
pub open spec fn is_recent(t: u64, now: u64, window: u64) -> bool {
    t >= now || now - t <= window
}

/// The events of `ts` that still count at `now`, in order.
pub open spec fn pruned(ts: Seq<u64>, now: u64, window: u64) -> Seq<u64>
    decreases ts.len(),
{
    if ts.len() == 0 {
        seq![]
    } else {
        let p = pruned(ts.drop_last(), now, window);
        if is_recent(ts.last(), now, window) {
            p.push(ts.last())
        } else {
            p
        }
    }
}

/// Whether a message at `now` is answered after the events `ts`.
pub open spec fn allows(ts: Seq<u64>, now: u64, window: u64, max_events: nat) -> bool {
    pruned(ts, now, window).len() < max_events
}

/// The events after messages at each of `times` in turn, starting from `ts`,
/// where every message that is let through is answered.
pub open spec fn after_messages(ts: Seq<u64>, times: Seq<u64>, window: u64, max_events: nat) -> Seq<
    u64,
>
    decreases times.len(),
{
    if times.len() == 0 {
        ts
    } else {
        let prev = after_messages(ts, times.drop_last(), window, max_events);
        let p = pruned(prev, times.last(), window);
        if p.len() < max_events {
            p.push(times.last())
        } else {
            p
        }
    }
}

proof fn lemma_pruned_keeps_all(ts: Seq<u64>, now: u64, window: u64)
    requires
        forall|j: int| 0 <= j < ts.len() ==> is_recent(#[trigger] ts[j], now, window),
    ensures
        pruned(ts, now, window) == ts,
    decreases ts.len(),
{
    if ts.len() > 0 {
        lemma_pruned_keeps_all(ts.drop_last(), now, window);
        assert(ts.drop_last().push(ts.last()) =~= ts);
    }
}

proof fn lemma_pruned_drops_all(ts: Seq<u64>, now: u64, window: u64)
    requires
        forall|j: int| 0 <= j < ts.len() ==> !is_recent(#[trigger] ts[j], now, window),
    ensures
        pruned(ts, now, window).len() == 0,
    decreases ts.len(),
{
    if ts.len() > 0 {
        lemma_pruned_drops_all(ts.drop_last(), now, window);
    }
}

/// Starting from events that all lie more than a window before the first
/// message: `max_events` messages that fall within one window, in time order,
/// are all answered; a further one within that window is dropped; one that
/// comes more than a window after the last of them is answered again.
pub proof fn lemma_window_limit(ts: Seq<u64>, window: u64, max_events: nat, times: Seq<u64>)
    requires
        max_events >= 1,
        times.len() == max_events,
        forall|j: int, k: int| 0 <= j <= k < times.len() ==> times[j] <= times[k],
        times.last() - times[0] <= window,
        forall|j: int| 0 <= j < ts.len() ==> #[trigger] ts[j] < times[0] && times[0] - ts[j] > window,
    ensures
        forall|k: int|
            0 <= k < max_events ==> allows(
                after_messages(ts, #[trigger] times.take(k), window, max_events),
                times[k],
                window,
                max_events,
            ),
        forall|now: u64|
            times.last() <= now <= times[0] + window ==> !#[trigger] allows(
                after_messages(ts, times, window, max_events),
                now,
                window,
                max_events,
            ),
        forall|now: u64|
            now > times.last() + window ==> #[trigger] allows(
                after_messages(ts, times, window, max_events),
                now,
                window,
                max_events,
            ),
{
    assert forall|k: int| 1 <= k <= max_events implies after_messages(
        ts,
        #[trigger] times.take(k),
        window,
        max_events,
    ) == times.take(k) by {
        lemma_answered_so_far(ts, window, max_events, times, k);
    }
    assert(times.take(max_events as int) =~= times);
    assert forall|k: int| 0 <= k < max_events implies allows(
        after_messages(ts, #[trigger] times.take(k), window, max_events),
        times[k],
        window,
        max_events,
    ) by {
        if k == 0 {
            assert(times.take(0) =~= Seq::<u64>::empty());
            lemma_old_events_dropped(ts, window, times[0]);
        } else {
            lemma_recent_prefix(window, times, k, times[k]);
        }
    }
    assert forall|now: u64| times.last() <= now <= times[0] + window implies !#[trigger] allows(
        after_messages(ts, times, window, max_events),
        now,
        window,
        max_events,
    ) by {
        lemma_recent_prefix(window, times, max_events as int, now);
    }
    assert forall|now: u64| now > times.last() + window implies #[trigger] allows(
        after_messages(ts, times, window, max_events),
        now,
        window,
        max_events,
    ) by {
        assert forall|j: int| 0 <= j < times.len() implies !is_recent(#[trigger] times[j], now, window) by {
            assert(times[j] <= times.last());
        }
        lemma_pruned_drops_all(times, now, window);
    }
}

proof fn lemma_old_events_dropped(ts: Seq<u64>, window: u64, now: u64)
    requires
        forall|j: int| 0 <= j < ts.len() ==> #[trigger] ts[j] < now && now - ts[j] > window,
    ensures
        pruned(ts, now, window).len() == 0,
{
    assert forall|j: int| 0 <= j < ts.len() implies !is_recent(#[trigger] ts[j], now, window) by {}
    lemma_pruned_drops_all(ts, now, window);
}

proof fn lemma_recent_prefix(window: u64, times: Seq<u64>, k: int, now: u64)
    requires
        0 <= k <= times.len(),
        times.len() >= 1,
        forall|j: int, l: int| 0 <= j <= l < times.len() ==> times[j] <= times[l],
        times.last() - times[0] <= window,
        k < times.len() ==> now == times[k],
        k == times.len() ==> times.last() <= now <= times[0] + window,
    ensures
        pruned(times.take(k), now, window) == times.take(k),
{
    let p = times.take(k);
    assert forall|j: int| 0 <= j < p.len() implies is_recent(#[trigger] p[j], now, window) by {
        assert(times[0] <= times[j]);
        assert(times[j] <= times.last());
        if k < times.len() {
            assert(times[j] <= times[k]);
        }
    }
    lemma_pruned_keeps_all(p, now, window);
}

proof fn lemma_answered_so_far(ts: Seq<u64>, window: u64, max_events: nat, times: Seq<u64>, k: int)
    requires
        max_events >= 1,
        times.len() == max_events,
        forall|j: int, l: int| 0 <= j <= l < times.len() ==> times[j] <= times[l],
        times.last() - times[0] <= window,
        forall|j: int| 0 <= j < ts.len() ==> #[trigger] ts[j] < times[0] && times[0] - ts[j] > window,
        1 <= k <= max_events,
    ensures
        after_messages(ts, times.take(k), window, max_events) == times.take(k),
    decreases k,
{
    assert(times.take(k).drop_last() =~= times.take(k - 1));
    if k == 1 {
        assert(times.take(0) =~= Seq::<u64>::empty());
        assert(after_messages(ts, times.take(0), window, max_events) == ts);
        assert(times.take(1).last() == times[0]);
        lemma_old_events_dropped(ts, window, times[0]);
        assert(pruned(ts, times[0], window) =~= Seq::<u64>::empty());
        assert(Seq::<u64>::empty().push(times[0]) =~= times.take(1));
    } else {
        lemma_answered_so_far(ts, window, max_events, times, k - 1);
        lemma_recent_prefix(window, times, k - 1, times[k - 1]);
        assert(times.take(k).last() == times[k - 1]);
        assert(times.take(k - 1).push(times[k - 1]) =~= times.take(k));
    }
}

impl RateLimiter {
    /// A limiter with no events yet.
    pub fn new(window: u64, max_events: usize) -> (r: RateLimiter)
        ensures
            r.window == window,
            r.max_events == max_events,
            r.timestamps@.len() == 0,
    {
        RateLimiter { window, max_events, timestamps: Vec::new() }
    }

    /// Drops the events that no longer count at `now`, and tells whether a
    /// message at `now` may be answered.
    pub fn allow(&mut self, now: u64) -> (r: bool)
        ensures
            final(self).window == old(self).window,
            final(self).max_events == old(self).max_events,
            final(self).timestamps@ == pruned(old(self).timestamps@, now, old(self).window),
            r == allows(old(self).timestamps@, now, old(self).window, old(self).max_events as nat),
    {
        let mut kept: Vec<u64> = Vec::new();
        let mut i: usize = 0;
        while i < self.timestamps.len()
            invariant
                i <= self.timestamps@.len(),
                self.timestamps@ == old(self).timestamps@,
                self.window == old(self).window,
                kept@ == pruned(self.timestamps@.subrange(0, i as int), now, self.window),
            decreases self.timestamps@.len() - i,
        {
            let t = self.timestamps[i];
            assert(self.timestamps@.subrange(0, i + 1).drop_last() =~= self.timestamps@.subrange(
                0,
                i as int,
            ));
            if t >= now || now - t <= self.window {
                kept.push(t);
            }
            i += 1;
        }
        assert(self.timestamps@.subrange(0, self.timestamps@.len() as int) =~= self.timestamps@);
        self.timestamps = kept;
        self.timestamps.len() < self.max_events
    }

    /// Counts a reply sent at `now`.
    pub fn record(&mut self, now: u64)
        ensures
            final(self).window == old(self).window,
            final(self).max_events == old(self).max_events,
            final(self).timestamps@ == old(self).timestamps@.push(now),
    {
        self.timestamps.push(now);
    }
}

} // verus!
