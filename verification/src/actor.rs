//! The acquisition policy of the long-running actor: how long to wait
//! before asking the server for work, how to flag a slow client, and
//! what each acquire outcome demands next.
//!
//! These are pure decisions from plain values; the surrounding program
//! performs the waiting, the server calls and the channel plumbing.

use vstd::prelude::*;
use crate::batch::AcquireResponseBody;

verus! {

/// One second, in the milliseconds all waits are measured in.
pub const SECOND_MS: u64 = 1000;

/// The flag sent along with an acquire request: a slow client only
/// receives work the server can afford to let linger.
#[derive(Clone, Copy, PartialEq, Eq, Structural, Debug)]
pub struct AcquireQuery {
    pub slow: bool,
}

/// The server's queue ages: how long the oldest item has waited on the
/// user and on the system queue.
#[derive(Clone, Copy, PartialEq, Eq, Structural, Debug)]
pub struct QueueStatus {
    pub user_oldest_ms: u64,
    pub system_oldest_ms: u64,
}

/// The server's answer to an acquire request.
#[derive(Debug)]
pub enum Acquired {
    Accepted(AcquireResponseBody),
    NoContent,
    BadRequest,
}

/// What the actor must do after one acquire attempt.
#[derive(Clone, Copy, PartialEq, Eq, Structural, Debug)]
pub enum AcquireAction {
    AddBatch,
    Backoff,
    StopQueue,
    Retry,
}

/// Saturating subtraction on `u64`, as a mathematical function.
pub open spec fn sat_sub_u64(a: u64, b: u64) -> u64 {
    if a >= b {
        (a - b) as u64
    } else {
        0u64
    }
}

/// The user-side backlog actually demanded: the configured depth, raised
/// to the slow-client threshold the statistics ask for.
pub open spec fn spec_user_backlog(min_user_ms: u64, opt_user_ms: Option<u64>) -> u64 {
    let configured = match opt_user_ms {
        Some(v) => v,
        None => 0u64,
    };
    if configured >= min_user_ms {
        configured
    } else {
        min_user_ms
    }
}

/// The system-side backlog demanded: exactly the configured depth.
pub open spec fn spec_system_backlog(opt_system_ms: Option<u64>) -> u64 {
    match opt_system_ms {
        Some(v) => v,
        None => 0u64,
    }
}

/// The wait before acquiring, and the slow flag, from the demanded
/// backlogs and the server's reported queue ages:
/// - with no backlog of at least a second demanded, or no status to go
///   by, acquire at once, slow exactly when the statistics demand a
///   backlog of at least a second;
/// - otherwise wait until the older of the two queues reaches its
///   demanded depth, preferring the side that is ready sooner, and flag
///   the client slow when the user side would make it wait at least a
///   second longer than the system side.
pub open spec fn spec_backlog_wait(
    min_user_ms: u64,
    opt_user_ms: Option<u64>,
    opt_system_ms: Option<u64>,
    status: Option<QueueStatus>,
) -> (u64, AcquireQuery) {
    let user_backlog = spec_user_backlog(min_user_ms, opt_user_ms);
    let system_backlog = spec_system_backlog(opt_system_ms);
    if (user_backlog >= SECOND_MS || system_backlog >= SECOND_MS) && status is Some {
        let st = status->0;
        let user_wait = sat_sub_u64(user_backlog, st.user_oldest_ms);
        let system_wait = sat_sub_u64(system_backlog, st.system_oldest_ms);
        let slow = user_wait >= system_wait && user_wait - system_wait >= SECOND_MS;
        let wait = if user_wait <= system_wait {
            user_wait
        } else {
            system_wait
        };
        (wait, AcquireQuery { slow })
    } else {
        (0u64, AcquireQuery { slow: min_user_ms >= SECOND_MS })
    }
}

/// Whether the pacing policy wants the server's status at all: only
/// when some backlog of at least a second is demanded.
pub fn needs_status(min_user_ms: u64, opt_user_ms: Option<u64>, opt_system_ms: Option<u64>) -> (r:
    bool)
    ensures
        r == (spec_user_backlog(min_user_ms, opt_user_ms) >= SECOND_MS || spec_system_backlog(
            opt_system_ms,
        ) >= SECOND_MS),
{
    let configured_user: u64 = match opt_user_ms {
        Some(v) => v,
        None => 0,
    };
    let user_backlog: u64 = if configured_user >= min_user_ms {
        configured_user
    } else {
        min_user_ms
    };
    let system_backlog: u64 = match opt_system_ms {
        Some(v) => v,
        None => 0,
    };
    user_backlog >= SECOND_MS || system_backlog >= SECOND_MS
}

/// See `spec_backlog_wait`. Callers that skipped the status query pass
/// `None` and get the immediate default.
pub fn backlog_wait_time(
    min_user_ms: u64,
    opt_user_ms: Option<u64>,
    opt_system_ms: Option<u64>,
    status: Option<QueueStatus>,
) -> (r: (u64, AcquireQuery))
    ensures
        r == spec_backlog_wait(min_user_ms, opt_user_ms, opt_system_ms, status),
{
    let configured_user: u64 = match opt_user_ms {
        Some(v) => v,
        None => 0,
    };
    let user_backlog: u64 = if configured_user >= min_user_ms {
        configured_user
    } else {
        min_user_ms
    };
    let system_backlog: u64 = match opt_system_ms {
        Some(v) => v,
        None => 0,
    };
    if user_backlog >= SECOND_MS || system_backlog >= SECOND_MS {
        match status {
            Some(st) => {
                let user_wait: u64 = if user_backlog >= st.user_oldest_ms {
                    user_backlog - st.user_oldest_ms
                } else {
                    0
                };
                let system_wait: u64 = if system_backlog >= st.system_oldest_ms {
                    system_backlog - st.system_oldest_ms
                } else {
                    0
                };
                let slow = user_wait >= system_wait && user_wait - system_wait >= SECOND_MS;
                let wait: u64 = if user_wait <= system_wait {
                    user_wait
                } else {
                    system_wait
                };
                (wait, AcquireQuery { slow })
            },
            None => (0, AcquireQuery { slow: min_user_ms >= SECOND_MS }),
        }
    } else {
        (0, AcquireQuery { slow: min_user_ms >= SECOND_MS })
    }
}

/// The actor's decision on one acquire outcome: take an accepted batch
/// in; back off when the server is empty; stop the queue on a bad
/// request, which means the client is out of date; retry silently on a
/// transport error, whose pacing is the transport layer's business.
pub fn acquire_action(outcome: &Option<Acquired>) -> (r: AcquireAction)
    ensures
        (r is AddBatch) <==> (*outcome) matches Some(Acquired::Accepted(_)),
        (r is Backoff) <==> (*outcome) matches Some(Acquired::NoContent),
        (r is StopQueue) <==> (*outcome) matches Some(Acquired::BadRequest),
        (r is Retry) <==> (*outcome) is None,
{
    match outcome {
        Some(Acquired::Accepted(_)) => AcquireAction::AddBatch,
        Some(Acquired::NoContent) => AcquireAction::Backoff,
        Some(Acquired::BadRequest) => AcquireAction::StopQueue,
        None => AcquireAction::Retry,
    }
}

} // verus!
