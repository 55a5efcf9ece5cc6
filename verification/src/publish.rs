//! The per-subscriber publisher, as a pure decision function.
//!
//! One publisher task runs per subscription.  Each tick it takes the book's
//! lock, copies a `Summary` (see `OrderBook::summary`), releases the lock,
//! and offers the summary on that subscriber's bounded channel; the channel
//! blocks when full, so a slow subscriber throttles only its own publisher.
//! The one decision the loop makes is whether to continue: a failed
//! delivery means the subscriber went away, and that publisher — and only
//! that publisher — stops, which is a normal lifecycle event, not an error.

use vstd::prelude::*;

verus! {

/// Lifecycle of one subscriber's publisher task.
#[derive(Clone, Copy, PartialEq, Eq, Structural, Debug)]
pub enum PublisherState {
    Running,
    Stopped,
}

/// The publisher keeps running exactly as long as deliveries succeed.
pub open spec fn spec_publisher_step(delivered: bool) -> PublisherState {
    if delivered {
        PublisherState::Running
    } else {
        PublisherState::Stopped
    }
}

/// Decide the publisher's fate after one delivery attempt: a delivered
/// summary keeps it running, a failed delivery stops it cleanly.
pub fn publisher_step(delivered: bool) -> (r: PublisherState)
    ensures
        r == spec_publisher_step(delivered),
{
    if delivered {
        PublisherState::Running
    } else {
        PublisherState::Stopped
    }
}

} // verus!
