//! The connection that telemetry is sent over.

use vstd::prelude::*;

verus! {

/// The pause before the next attempt to connect, in milliseconds.
pub const RETRY_MS: u64 = 3000;

/// The state of the connection.
#[derive(Clone, Copy, PartialEq, Eq, Structural, Debug)]
pub enum Link {
    /// There is none: the next thing to do is to connect.
    Down,
    /// There is one: the next thing to do is to send a line.
    Up,
}

impl Link {
    /// The state after the next thing has or has not succeeded: a success leaves a connection, a
    /// failure none.
    pub open spec fn after(self, success: bool) -> Link {
        if success {
            Link::Up
        } else {
            Link::Down
        }
    }

    /// The pause in milliseconds after the next thing has or has not succeeded: the interval after
    /// a line that was sent, a fixed time after a connection that was refused, and none where a
    /// connection was made or lost.
    pub open spec fn pause(self, success: bool, interval_ms: u64) -> u64 {
        match self {
            Link::Up => if success {
                interval_ms
            } else {
                0
            },
            Link::Down => if success {
                0
            } else {
                RETRY_MS
            },
        }
    }

    /// The state, and the pause in milliseconds, after the next thing has or has not succeeded.
    pub fn next(self, success: bool, interval_ms: u64) -> (step: (Link, u64))
        ensures
            step.0 == self.after(success),
            step.1 == self.pause(success, interval_ms),
            step.0 == Link::Up <==> success,
            self == Link::Up && success ==> step.1 == interval_ms,
            self == Link::Down && !success ==> step.1 == 3000,
            self == Link::Up && !success ==> step.1 == 0,
            self == Link::Down && success ==> step.1 == 0,
    {
        match self {
            Link::Up => if success {
                (Link::Up, interval_ms)
            } else {
                (Link::Down, 0)
            },
            Link::Down => if success {
                (Link::Up, 0)
            } else {
                (Link::Down, RETRY_MS)
            },
        }
    }
}

/// The state after a series of outcomes.
pub open spec fn after_all(link: Link, outcomes: Seq<bool>) -> Link
    decreases outcomes.len(),
{
    if outcomes.len() == 0 {
        link
    } else {
        after_all(link, outcomes.drop_last()).after(outcomes.last())
    }
}

/// A line is sent exactly where the thing done before, connecting or sending, has succeeded. So a
/// line that could not be sent is followed by a new connection before the next line.
pub proof fn lemma_sends_follow_success(outcomes: Seq<bool>)
    ensures
        after_all(Link::Down, outcomes) == Link::Up <==> outcomes.len() > 0 && outcomes.last(),
{
}

} // verus!
