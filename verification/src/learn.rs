//! The learn filter: a single-key capture used while the operator binds a
//! new trigger.  It swallows the captured press and its paired release and
//! times out three seconds after the capture starts.

use vstd::prelude::*;
use crate::sys::elapsed_ms;
use crate::sys::now_millis;

verus! {

/// How long a capture may wait for a press, in milliseconds.
pub const LEARN_TIMEOUT_MS: u64 = 3000;

/// Where the capture stands.  `Learning` carries the instant the capture
/// started, in milliseconds of the same clock the caller passes as `now`.
#[derive(Debug, Clone, Copy, PartialEq, Eq, Structural)]
pub enum LearnStatus {
    Idle,
    Learning { start: u64 },
    Captured { key_code: u16 },
    Timeout,
}

/// What the HTTP surface reads: the status, and while learning, how many
/// milliseconds remain before the timeout.
#[derive(Debug, Clone, Copy)]
pub struct LearnResultSnapshot {
    pub status: LearnStatus,
    pub remaining_ms: Option<u32>,
}

/// The filter's state.  `consumed_key_up` remembers a captured press so
/// the paired release is swallowed too.
#[derive(Debug, Clone, Copy, PartialEq, Eq, Structural)]
pub struct LearnState {
    pub status: LearnStatus,
    pub consumed_key_up: Option<u16>,
}

/// The state after the timeout poll: a capture that has waited three
/// seconds or more becomes `Timeout`; anything else is unchanged.
pub open spec fn learn_refreshed(s: LearnState, now: u64) -> LearnState {
    match s.status {
        LearnStatus::Learning { start } => if elapsed_ms(now, start) >= LEARN_TIMEOUT_MS {
            LearnState { status: LearnStatus::Timeout, consumed_key_up: None }
        } else {
            s
        },
        _ => s,
    }
}

/// One event offered to the filter: the state afterward and whether the
/// event is swallowed.  While learning every event is swallowed and a
/// press is captured; after a capture only the paired release is
/// swallowed; otherwise everything passes through.
pub open spec fn learn_consume_spec(s: LearnState, key_code: u16, value: i32, now: u64) -> (
    LearnState,
    bool,
) {
    let r = learn_refreshed(s, now);
    match r.status {
        LearnStatus::Learning { start } => if value == 1 {
            (
                LearnState {
                    status: LearnStatus::Captured { key_code },
                    consumed_key_up: Some(key_code),
                },
                true,
            )
        } else {
            (r, true)
        },
        LearnStatus::Captured { key_code: k } => if r.consumed_key_up == Some(key_code) {
            if value == 0 {
                (LearnState { status: r.status, consumed_key_up: None }, true)
            } else {
                (r, true)
            }
        } else {
            (r, false)
        },
        _ => (r, false),
    }
}

/// What `snapshot` reports in a given state at a given instant.
pub open spec fn learn_snapshot_spec(s: LearnState, now: u64) -> LearnResultSnapshot {
    let r = learn_refreshed(s, now);
    match r.status {
        LearnStatus::Learning { start } => LearnResultSnapshot {
            status: r.status,
            remaining_ms: Some((LEARN_TIMEOUT_MS - elapsed_ms(now, start)) as u32),
        },
        _ => LearnResultSnapshot { status: r.status, remaining_ms: None },
    }
}

impl LearnState {
    /// Begins a capture at the given instant.
    pub fn start_at(&mut self, now: u64)
        ensures
            *final(self) == (LearnState {
                status: LearnStatus::Learning { start: now },
                consumed_key_up: None,
            }),
    {
        self.status = LearnStatus::Learning { start: now };
        self.consumed_key_up = None;
    }

    /// Begins a capture, reading the clock.
    pub fn start(&mut self)
        ensures
            exists|now: u64|
                *final(self) == (LearnState {
                    status: LearnStatus::Learning { start: now },
                    consumed_key_up: None,
                }),
    {
        let now = now_millis();
        self.start_at(now);
    }

    /// Applies the timeout rule at the given instant.
    pub fn refresh_timeout_at(&mut self, now: u64)
        ensures
            *final(self) == learn_refreshed(*old(self), now),
    {
        match self.status {
            LearnStatus::Learning { start } => {
                let elapsed = if now >= start {
                    now - start
                } else {
                    0
                };
                if elapsed >= LEARN_TIMEOUT_MS {
                    self.status = LearnStatus::Timeout;
                    self.consumed_key_up = None;
                }
            },
            _ => {},
        }
    }

    /// Applies the timeout rule, reading the clock.
    pub fn refresh_timeout(&mut self)
        ensures
            exists|now: u64| *final(self) == learn_refreshed(*old(self), now),
    {
        let now = now_millis();
        self.refresh_timeout_at(now);
    }

    /// Offers one event to the filter at the given instant; true means the
    /// event must be swallowed by the caller.
    pub fn consume_event_at(&mut self, key_code: u16, value: i32, now: u64) -> (r: bool)
        ensures
            (*final(self), r) == learn_consume_spec(*old(self), key_code, value, now),
    {
        self.refresh_timeout_at(now);
        match self.status {
            LearnStatus::Learning { start: _ } => {
                if value == 1 {
                    self.status = LearnStatus::Captured { key_code };
                    self.consumed_key_up = Some(key_code);
                }
                true
            },
            LearnStatus::Captured { key_code: _ } => {
                let matches_captured = match self.consumed_key_up {
                    Some(k) => k == key_code,
                    None => false,
                };
                if matches_captured {
                    if value == 0 {
                        self.consumed_key_up = None;
                    }
                    true
                } else {
                    false
                }
            },
            _ => false,
        }
    }

    /// Offers one event to the filter, reading the clock.
    pub fn consume_event(&mut self, key_code: u16, value: i32) -> (r: bool)
        ensures
            exists|now: u64|
                (*final(self), r) == learn_consume_spec(*old(self), key_code, value, now),
    {
        let now = now_millis();
        self.consume_event_at(key_code, value, now)
    }

    /// Reports the state at the given instant, with the remaining window
    /// while a capture is waiting.
    pub fn snapshot_at(&mut self, now: u64) -> (r: LearnResultSnapshot)
        ensures
            *final(self) == learn_refreshed(*old(self), now),
            r == learn_snapshot_spec(*old(self), now),
    {
        self.refresh_timeout_at(now);
        match self.status {
            LearnStatus::Learning { start } => {
                let elapsed = if now >= start {
                    now - start
                } else {
                    0
                };
                let remaining = LEARN_TIMEOUT_MS - elapsed;
                LearnResultSnapshot { status: self.status, remaining_ms: Some(remaining as u32) }
            },
            _ => LearnResultSnapshot { status: self.status, remaining_ms: None },
        }
    }

    /// Reports the state, reading the clock.
    pub fn snapshot(&mut self) -> (r: LearnResultSnapshot)
        ensures
            exists|now: u64|
                *final(self) == learn_refreshed(*old(self), now) && r == learn_snapshot_spec(
                    *old(self),
                    now,
                ),
    {
        let now = now_millis();
        self.snapshot_at(now)
    }
}

impl Default for LearnState {
    /// The filter starts idle with nothing to swallow.
    fn default() -> (r: Self)
        ensures
            r == (LearnState { status: LearnStatus::Idle, consumed_key_up: None }),
    {
        LearnState { status: LearnStatus::Idle, consumed_key_up: None }
    }
}

} // verus!
