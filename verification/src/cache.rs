use vstd::prelude::*;
use vstd::string::StringExecFns;

use crate::envelope::Metadata;
use crate::error::Error;
use crate::text::dec_digits;

verus! {

/// How long a cached envelope stays fresh, in seconds.
pub const MAX_AGE: u32 = 300;

/// How long a per-key lock lease lasts, in milliseconds.
pub const LOCK_LEASE_MS: u32 = 5000;

/// A stored envelope is fresh when its fetch time is within the bound of
/// the clock: `fetched_at >= now - max_age`, computed without wrap.
pub open spec fn is_fresh(fetched_at: u64, now: u64, max_age: u64) -> bool {
    fetched_at + max_age >= now
}

/// Decide freshness, free of underflow.
pub fn check_fresh(fetched_at: u64, now: u64, max_age: u64) -> (r: bool)
    ensures
        r == is_fresh(fetched_at, now, max_age),
{
    if fetched_at >= now {
        true
    } else {
        now - fetched_at <= max_age
    }
}

/// The cache key for a request: the method prefix, the host, and the port.
pub fn cache_key(prefix: &str, host: &str, port: u16) -> (r: String)
    ensures
        r@ == prefix@ + host@ + ":"@ + dec_digits(port as nat),
{
    let mut s = prefix.to_owned();
    s.append(host);
    s.append(":");
    let digits = crate::text::u16_string(port);
    s.append(digits.as_str());
    s
}

/// The lock key that guards a cache key.
pub fn lock_key(key: &str) -> (r: String)
    ensures
        r@ == "lock:"@ + key@,
{
    let mut s = "lock:".to_owned();
    s.append(key);
    s
}

/// Where a cached get stands between its coordinator round trips.
#[derive(Debug, Clone, Copy, PartialEq, Eq, Structural)]
pub enum FlowState {
    /// Waiting for the first cache read.
    FirstRead,
    /// Waiting for the per-key lock.
    Locking,
    /// Waiting for the re-read under the lock.
    SecondRead,
    /// Waiting for the refresh outcome.
    Refreshing,
    /// Waiting for the cache write to land.
    Writing,
    /// Waiting for the lock release.
    Unlocking,
    /// The envelope is ready.
    Finished,
}

/// What the driver must do next for a flow.
#[derive(Debug)]
pub enum FlowAction<D> {
    /// Read the cache key and report what is stored.
    Read,
    /// Acquire the per-key lock, retrying for as long as it takes.
    Lock,
    /// Run the protocol exchange and report its outcome.
    Refresh,
    /// Write the flow's `result` envelope under the key with the TTL, and
    /// count the outcome in the metrics: the refresh just happened.
    Write { ttl: u32, online: bool },
    /// Release the lock.
    Unlock,
    /// Hand the envelope to the caller.
    Done { value: D },
}

/// What the driver reports back to a flow.
#[derive(Debug)]
pub enum FlowEvent<D> {
    /// The cache read finished: a deserialized envelope, or nothing.
    ReadDone { value: Option<D> },
    /// The lock was acquired.
    Locked,
    /// The refresh finished after `duration` nanoseconds: an envelope, or
    /// the error to fold. The clock reading goes to `step` beside it.
    Refreshed { outcome: Result<D, Error>, duration: u64 },
    /// The cache write landed.
    Written,
    /// The lock was released.
    Unlocked,
}

/// A cached get in flight: read, lock, re-read, refresh, write, unlock.
pub struct CacheFlow<D> {
    pub state: FlowState,
    pub max_age: u32,
    /// The envelope to hand out when the flow finishes.
    pub result: Option<D>,
    /// Whether this flow has already run its one refresh.
    pub refreshed: bool,
}

/// Which event a state is waiting for.
pub open spec fn event_matches<D>(state: FlowState, event: FlowEvent<D>) -> bool {
    match event {
        FlowEvent::ReadDone { .. } => state == FlowState::FirstRead || state
            == FlowState::SecondRead,
        FlowEvent::Locked => state == FlowState::Locking,
        FlowEvent::Refreshed { .. } => state == FlowState::Refreshing,
        FlowEvent::Written => state == FlowState::Writing,
        FlowEvent::Unlocked => state == FlowState::Unlocking,
    }
}

/// A flow the driver can legally hold: the one refresh has not run yet
/// while the lock is still being sought, it has run once a refresh
/// outcome is being awaited or written, and a pending envelope is there
/// once one is owed. A flow in Unlocking may carry either flag: the
/// re-read under the lock hands out a fresh envelope without refreshing.
pub open spec fn flow_inv<D>(f: CacheFlow<D>) -> bool {
    &&& (f.state == FlowState::FirstRead || f.state == FlowState::Locking || f.state
        == FlowState::SecondRead ==> !f.refreshed)
    &&& (f.state == FlowState::Refreshing || f.state == FlowState::Writing ==> f.refreshed)
    &&& (f.state == FlowState::Writing || f.state == FlowState::Unlocking ==> f.result is Some)
}

/// Where a read that found nothing fresh sends the flow: the first read
/// goes on to take the lock; the re-read under the lock starts the
/// refresh.
pub open spec fn stale_step<D>(
    pre: CacheFlow<D>,
    next: CacheFlow<D>,
    action: FlowAction<D>,
) -> bool {
    &&& (pre.state == FlowState::FirstRead ==> next.state == FlowState::Locking && (
    action matches FlowAction::Lock))
    &&& (pre.state == FlowState::SecondRead ==> next.state == FlowState::Refreshing && (
    action matches FlowAction::Refresh))
}

/// The bookkeeping every step obeys: a refresh is asked for at most once,
/// and only under the lock after a stale re-read.
pub open spec fn step_rel<D>(pre: CacheFlow<D>, post: CacheFlow<D>, action: FlowAction<D>) -> bool {
    &&& (action matches FlowAction::Refresh ==> !pre.refreshed && post.refreshed && pre.state
        == FlowState::SecondRead)
    &&& (pre.refreshed ==> !(action matches FlowAction::Refresh))
    &&& (pre.refreshed ==> post.refreshed)
    &&& (post.refreshed ==> pre.refreshed || action matches FlowAction::Refresh)
}

impl<D: Metadata> CacheFlow<D> {
    /// Open a flow; the driver must first read the cache key.
    pub fn start(max_age: u32) -> (r: (CacheFlow<D>, FlowAction<D>))
        ensures
            r.0.state == FlowState::FirstRead,
            !r.0.refreshed,
            r.0.max_age == max_age,
            flow_inv(r.0),
            r.1 matches FlowAction::Read,
    {
        (
            CacheFlow { state: FlowState::FirstRead, max_age, result: None, refreshed: false },
            FlowAction::Read,
        )
    }

    /// Advance on an event, handing back the next action.
    ///
    /// A fresh envelope found by either read is handed out without a
    /// refresh; the refresh runs only under the lock, after the re-read
    /// still found nothing fresh; its outcome is stamped with the clock,
    /// errors folded into an offline envelope, and written back under the
    /// same freshness bound.
    pub fn step(self, event: FlowEvent<D>, now: u64) -> (r: (CacheFlow<D>, FlowAction<D>))
        requires
            event_matches(self.state, event),
            flow_inv(self),
        ensures
            ({
                let (next, action) = r;
                &&& next.max_age == self.max_age
                &&& flow_inv(next)
                &&& step_rel(self, next, action)
                &&& match event {
                    FlowEvent::ReadDone { value } => {
                        &&& (value matches Some(d) ==> {
                            &&& (is_fresh(d.updated_at_spec(), now, self.max_age as u64) ==> {
                                &&& self.state == FlowState::FirstRead ==> next.state
                                    == FlowState::Finished && (action matches FlowAction::Done {
                                    value: v,
                                } && v == d)
                                &&& self.state == FlowState::SecondRead ==> next.state
                                    == FlowState::Unlocking && next.result == Some(d) && (
                                action matches FlowAction::Unlock)
                            })
                            &&& (!is_fresh(d.updated_at_spec(), now, self.max_age as u64)
                                ==> stale_step(self, next, action))
                        })
                        &&& (value is None ==> stale_step(self, next, action))
                    },
                    FlowEvent::Locked => next.state == FlowState::SecondRead && (
                    action matches FlowAction::Read),
                    FlowEvent::Refreshed { outcome, duration } => {
                        &&& next.state == FlowState::Writing
                        &&& (next.result matches Some(value) && {
                            &&& value.updated_at_spec() == now
                            &&& value.duration_spec() == duration
                            &&& (outcome matches Ok(d) ==> value.online_spec() == d.online_spec()
                                && value.error_spec() == d.error_spec())
                            &&& (outcome matches Err(e) ==> !value.online_spec()
                                && value.error_spec() == Some(
                                crate::error::error_text_spec(e),
                            ))
                            &&& (action matches FlowAction::Write { ttl, online } && ttl
                                == self.max_age && online == value.online_spec())
                        })
                    },
                    FlowEvent::Written => next.state == FlowState::Unlocking && (
                    action matches FlowAction::Unlock) && next.result == self.result,
                    FlowEvent::Unlocked => next.state == FlowState::Finished && (
                    action matches FlowAction::Done { value } && self.result == Some(value)),
                }
            }),
    {
        match event {
            FlowEvent::ReadDone { value } => {
                match value {
                    Some(d) => {
                        let fresh = check_fresh(d.updated_at(), now, self.max_age as u64);
                        if fresh {
                            if matches!(self.state, FlowState::FirstRead) {
                                (
                                    CacheFlow { state: FlowState::Finished, result: None, ..self },
                                    FlowAction::Done { value: d },
                                )
                            } else {
                                (
                                    CacheFlow {
                                        state: FlowState::Unlocking,
                                        result: Some(d),
                                        ..self
                                    },
                                    FlowAction::Unlock,
                                )
                            }
                        } else {
                            if matches!(self.state, FlowState::FirstRead) {
                                (CacheFlow { state: FlowState::Locking, ..self }, FlowAction::Lock)
                            } else {
                                (
                                    CacheFlow {
                                        state: FlowState::Refreshing,
                                        refreshed: true,
                                        ..self
                                    },
                                    FlowAction::Refresh,
                                )
                            }
                        }
                    },
                    None => {
                        if matches!(self.state, FlowState::FirstRead) {
                            (CacheFlow { state: FlowState::Locking, ..self }, FlowAction::Lock)
                        } else {
                            (
                                CacheFlow { state: FlowState::Refreshing, refreshed: true, ..self },
                                FlowAction::Refresh,
                            )
                        }
                    },
                }
            },
            FlowEvent::Locked => {
                (CacheFlow { state: FlowState::SecondRead, ..self }, FlowAction::Read)
            },
            FlowEvent::Refreshed { outcome, duration } => {
                let data = match outcome {
                    Ok(d) => d,
                    Err(e) => D::from_error(e),
                };
                let data = data.set_times(now, duration);
                let online = data.is_online();
                let ttl = self.max_age;
                (
                    CacheFlow { state: FlowState::Writing, result: Some(data), ..self },
                    FlowAction::Write { ttl, online },
                )
            },
            FlowEvent::Written => {
                (CacheFlow { state: FlowState::Unlocking, ..self }, FlowAction::Unlock)
            },
            FlowEvent::Unlocked => {
                match self.result {
                    Some(d) => (
                        CacheFlow { state: FlowState::Finished, result: None, ..self },
                        FlowAction::Done { value: d },
                    ),
                    None => vstd::pervasive::unreached(),
                }
            },
        }
    }
}

/// Law: after a refresh that the clock read as `t`, the stamped envelope
/// carries `t` itself, so its fetch time lies between the refresh
/// completion and any later reading `now` of the clock.
pub proof fn lemma_refresh_stamp<D: Metadata>(value: D, t: u64, now: u64)
    requires
        value.updated_at_spec() == t,
        t <= now,
    ensures
        t <= value.updated_at_spec() <= now,
{
}

/// Law: along any chain of steps of one flow that starts before any
/// refresh, the refresh action is handed out at most once.
pub proof fn lemma_single_flight<D>(
    flows: Seq<CacheFlow<D>>,
    actions: Seq<FlowAction<D>>,
    i: int,
    j: int,
)
    requires
        flows.len() == actions.len() + 1,
        !flows[0].refreshed,
        forall|k: int|
            0 <= k < actions.len() ==> step_rel(flows[k], flows[k + 1], #[trigger] actions[k]),
        0 <= i < j < actions.len(),
        actions[i] matches FlowAction::Refresh,
    ensures
        !(actions[j] matches FlowAction::Refresh),
{
    assert forall|k: int| i < k <= actions.len() implies flows[k].refreshed by {
        lemma_refreshed_monotone(flows, actions, i, k);
    }
    assert(flows[j].refreshed);
}

proof fn lemma_refreshed_monotone<D>(
    flows: Seq<CacheFlow<D>>,
    actions: Seq<FlowAction<D>>,
    i: int,
    k: int,
)
    requires
        flows.len() == actions.len() + 1,
        forall|m: int|
            0 <= m < actions.len() ==> step_rel(flows[m], flows[m + 1], #[trigger] actions[m]),
        0 <= i < k <= actions.len(),
        actions[i] matches FlowAction::Refresh,
    ensures
        flows[k].refreshed,
    decreases k,
{
    if k == i + 1 {
        assert(step_rel(flows[i], flows[i + 1], actions[i]));
    } else {
        lemma_refreshed_monotone(flows, actions, i, k - 1);
        assert(step_rel(flows[k - 1], flows[k], actions[k - 1]));
    }
}

} // verus!
