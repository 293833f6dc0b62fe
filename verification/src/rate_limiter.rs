//! Per-recipient minimum-interval gate plus a global flood-wait window.
//!
//! All decisions are made against an explicit monotonic clock value
//! (`now`, in seconds), so the limiter itself is deterministic: callers
//! sample the clock and hand the reading in.

use vstd::prelude::*;
use std::collections::HashMap;

verus! {

broadcast use vstd::std_specs::hash::group_hash_axioms;

/// Extra seconds added on top of a server-requested flood wait.
pub const FLOOD_WAIT_BASE_BUFFER_SECS: u64 = 5;

pub struct RateLimiter {
    min_interval_secs: u64,
    last_send_times: HashMap<i64, u64>,
    flood_wait_until: Option<u64>,
}

/// Seconds elapsed from `then` to `now` on a monotonic clock; a reading
/// taken earlier than `then` counts as no elapsed time.
pub open spec fn elapsed_secs(now: u64, then: u64) -> u64 {
    if now >= then {
        (now - then) as u64
    } else {
        0
    }
}

/// The global flood-wait window is active at `now`.
pub open spec fn flood_active(flood_until: Option<u64>, now: u64) -> bool {
    match flood_until {
        Some(until) => now < until,
        None => false,
    }
}

/// The per-user interval gate blocks `user_id` at `now`.
pub open spec fn user_blocked(
    last: Map<i64, u64>,
    interval: u64,
    user_id: i64,
    now: u64,
) -> bool {
    last.contains_key(user_id) && elapsed_secs(now, last[user_id]) < interval
}

/// The answer `can_send` must give: `Ok` when nothing blocks, otherwise
/// the remaining wait, with the global window shadowing the per-user gate.
pub open spec fn send_decision(
    last: Map<i64, u64>,
    flood_until: Option<u64>,
    interval: u64,
    user_id: i64,
    now: u64,
) -> Result<(), u64> {
    if flood_active(flood_until, now) {
        Err((flood_until.unwrap() - now) as u64)
    } else if user_blocked(last, interval, user_id, now) {
        Err((interval - elapsed_secs(now, last[user_id])) as u64)
    } else {
        Ok(())
    }
}

/// Capped power of two used for exponential backoff: `2^min(n, 6)`.
pub open spec fn backoff_multiplier(n: u32) -> u64 {
    if n >= 6 {
        64
    } else if n == 5 {
        32
    } else if n == 4 {
        16
    } else if n == 3 {
        8
    } else if n == 2 {
        4
    } else if n == 1 {
        2
    } else {
        1
    }
}

impl RateLimiter {
    pub closed spec fn interval(&self) -> u64 {
        self.min_interval_secs
    }

    pub closed spec fn last_sends(&self) -> Map<i64, u64> {
        self.last_send_times@
    }

    pub closed spec fn flood_until(&self) -> Option<u64> {
        self.flood_wait_until
    }

    pub fn new(min_interval_secs: u64) -> (r: Self)
        ensures
            r.interval() == min_interval_secs,
            r.last_sends() == Map::<i64, u64>::empty(),
            r.flood_until() is None,
    {
        RateLimiter {
            min_interval_secs,
            last_send_times: HashMap::new(),
            flood_wait_until: None,
        }
    }

    /// Whether a message may be sent to `user_id` at monotonic time `now`;
    /// on refusal the error carries the remaining wait in seconds.
    pub fn can_send(&self, user_id: i64, now: u64) -> (r: Result<(), u64>)
        ensures
            r == send_decision(self.last_sends(), self.flood_until(), self.interval(), user_id, now),
    {
        if let Some(until) = self.flood_wait_until {
            if now < until {
                return Err(until - now);
            }
        }

        match self.last_send_times.get(&user_id) {
            Some(last_time) => {
                let elapsed: u64 = if now >= *last_time {
                    now - *last_time
                } else {
                    0
                };
                if elapsed < self.min_interval_secs {
                    Err(self.min_interval_secs - elapsed)
                } else {
                    Ok(())
                }
            },
            None => Ok(()),
        }
    }

    /// Record that a message to `user_id` went out at monotonic time `now`.
    pub fn record_send(&mut self, user_id: i64, now: u64)
        ensures
            final(self).last_sends() == old(self).last_sends().insert(user_id, now),
            final(self).interval() == old(self).interval(),
            final(self).flood_until() == old(self).flood_until(),
    {
        self.last_send_times.insert(user_id, now);
    }

    /// Open the global flood-wait window after the server asked for
    /// `wait_seconds`: the window covers the request plus a buffer of a
    /// tenth of it and five more seconds, saturating at the clock's range.
    pub fn handle_flood_wait(&mut self, wait_seconds: u64, now: u64)
        ensures
            final(self).flood_until() == Some(
                add_saturating(
                    now,
                    add_saturating(
                        wait_seconds,
                        add_saturating(wait_seconds / 10, FLOOD_WAIT_BASE_BUFFER_SECS),
                    ),
                ),
            ),
            final(self).last_sends() == old(self).last_sends(),
            final(self).interval() == old(self).interval(),
    {
        let buffer = saturating_add_u64(wait_seconds / 10, FLOOD_WAIT_BASE_BUFFER_SECS);
        let total_wait = saturating_add_u64(wait_seconds, buffer);
        self.flood_wait_until = Some(saturating_add_u64(now, total_wait));
    }

    /// The earliest monotonic time a send to `user_id` could be allowed:
    /// the later of the global window and the user's own gate, or `now`
    /// when neither applies.
    pub fn next_available_time(&self, user_id: i64, now: u64) -> (r: u64)
        ensures
            r == next_available_spec(
                self.last_sends(),
                self.flood_until(),
                self.interval(),
                user_id,
                now,
            ),
    {
        let user_until: Option<u64> = match self.last_send_times.get(&user_id) {
            Some(last_time) => Some(saturating_add_u64(*last_time, self.min_interval_secs)),
            None => None,
        };

        match (self.flood_wait_until, user_until) {
            (Some(f), Some(u)) => if f >= u { f } else { u },
            (Some(f), None) => f,
            (None, Some(u)) => u,
            (None, None) => now,
        }
    }

    /// Wait for retry logic after `consecutive_failures` failures in a
    /// row: the minimum interval scaled by `2^min(failures, 6)`.
    pub fn backoff_time(&self, consecutive_failures: u32) -> (r: u64)
        ensures
            r == mul_saturating(self.interval(), backoff_multiplier(consecutive_failures)),
    {
        let multiplier: u64 = if consecutive_failures >= 6 {
            64
        } else if consecutive_failures == 5 {
            32
        } else if consecutive_failures == 4 {
            16
        } else if consecutive_failures == 3 {
            8
        } else if consecutive_failures == 2 {
            4
        } else if consecutive_failures == 1 {
            2
        } else {
            1
        };
        saturating_mul_u64(self.min_interval_secs, multiplier)
    }
}

/// `a + b` clamped to the range of `u64`.
pub open spec fn add_saturating(a: u64, b: u64) -> u64 {
    if a + b > u64::MAX {
        u64::MAX
    } else {
        (a + b) as u64
    }
}

/// `a * b` clamped to the range of `u64`.
pub open spec fn mul_saturating(a: u64, b: u64) -> u64 {
    if a * b > u64::MAX {
        u64::MAX
    } else {
        (a * b) as u64
    }
}

/// The later of the global window and the user's own gate, or `now`.
pub open spec fn next_available_spec(
    last: Map<i64, u64>,
    flood_until: Option<u64>,
    interval: u64,
    user_id: i64,
    now: u64,
) -> u64 {
    let user_until: Option<u64> = if last.contains_key(user_id) {
        Some(add_saturating(last[user_id], interval))
    } else {
        None
    };
    match (flood_until, user_until) {
        (Some(f), Some(u)) => if f >= u { f } else { u },
        (Some(f), None) => f,
        (None, Some(u)) => u,
        (None, None) => now,
    }
}

fn saturating_add_u64(a: u64, b: u64) -> (r: u64)
    ensures
        r == add_saturating(a, b),
{
    if a <= u64::MAX - b {
        a + b
    } else {
        u64::MAX
    }
}

fn saturating_mul_u64(a: u64, b: u64) -> (r: u64)
    ensures
        r == mul_saturating(a, b),
{
    if b == 0 {
        0
    } else if a <= u64::MAX / b {
        proof {
            lemma_mul_within_bound(a as int, b as int);
        }
        a * b
    } else {
        proof {
            lemma_mul_exceeds_bound(a as int, b as int);
        }
        u64::MAX
    }
}

proof fn lemma_mul_within_bound(a: int, b: int)
    requires
        b > 0,
        0 <= a <= (u64::MAX as int) / b,
    ensures
        a * b <= u64::MAX,
{
    assert(a * b <= ((u64::MAX as int) / b) * b) by (nonlinear_arith)
        requires b > 0 && 0 <= a <= (u64::MAX as int) / b;
    assert(((u64::MAX as int) / b) * b <= u64::MAX) by (nonlinear_arith)
        requires b > 0;
}

proof fn lemma_mul_exceeds_bound(a: int, b: int)
    requires
        b > 0,
        a > (u64::MAX as int) / b,
    ensures
        a * b > u64::MAX,
{
    assert(a * b >= ((u64::MAX as int) / b + 1) * b) by (nonlinear_arith)
        requires b > 0 && a >= (u64::MAX as int) / b + 1;
    assert(((u64::MAX as int) / b + 1) * b > u64::MAX) by (nonlinear_arith)
        requires b > 0;
}

/// After `record_send(u1, now)` the sender itself is gated for the full
/// minimum interval, while the decision for any other user is unchanged.
pub proof fn lemma_record_send_isolation(
    last: Map<i64, u64>,
    flood_until: Option<u64>,
    interval: u64,
    u1: i64,
    u2: i64,
    now: u64,
)
    requires
        u1 != u2,
        interval > 0,
        !flood_active(flood_until, now),
    ensures
        send_decision(last.insert(u1, now), flood_until, interval, u1, now) == Result::<(), u64>::Err(interval),
        send_decision(last.insert(u1, now), flood_until, interval, u2, now)
            == send_decision(last, flood_until, interval, u2, now),
{
    let updated = last.insert(u1, now);
    assert(updated[u1] == now);
    assert(elapsed_secs(now, now) == 0);
    assert(updated.contains_key(u2) == last.contains_key(u2));
    if last.contains_key(u2) {
        assert(updated[u2] == last[u2]);
    }
}

/// An open flood-wait window shadows every per-user gate: while it is
/// active every request is refused with the window's remaining time,
/// whoever asks; once it has passed only the per-user gates speak. The
/// window opened for `wait_seconds` at `now` lasts at least that long
/// past `now` (clock range permitting).
pub proof fn lemma_flood_wait_shadows_all(
    last: Map<i64, u64>,
    interval: u64,
    wait_seconds: u64,
    now: u64,
    user_id: i64,
    later: u64,
)
    ensures
        ({
            let until = add_saturating(
                now,
                add_saturating(
                    wait_seconds,
                    add_saturating(wait_seconds / 10, FLOOD_WAIT_BASE_BUFFER_SECS),
                ),
            );
            &&& later < until ==> send_decision(last, Some(until), interval, user_id, later)
                == Result::<(), u64>::Err((until - later) as u64)
            &&& later >= until ==> send_decision(last, Some(until), interval, user_id, later)
                == send_decision(last, None, interval, user_id, later)
            &&& (now + wait_seconds <= u64::MAX) ==> until >= now + wait_seconds
        }),
{
}

} // verus!
