//! What a subscriber to the latest summary does on each change of it.
use vstd::prelude::*;

use crate::summary::Summary;

verus! {

/// What a subscriber observed of the latest-summary cell.
#[derive(Debug)]
pub enum WatchEvent {
    /// The cell changed; this is what it holds now.
    Changed(Option<Summary>),
    /// The merger is gone.
    Closed,
}

/// What a subscriber does next.
#[derive(Debug)]
pub enum WatchAction {
    /// Send this summary, then wait for the next change.
    Send(Summary),
    /// Wait for the next change.
    Wait,
    /// End the subscription.
    End,
}

/// A subscriber sends what the cell holds after each change, waits while it holds
/// nothing, and ends when the merger is gone.
pub fn on_watch_event(event: WatchEvent) -> (r: WatchAction)
    ensures
        event matches WatchEvent::Changed(Some(s)) ==> r == WatchAction::Send(s),
        event matches WatchEvent::Changed(None) ==> r == WatchAction::Wait,
        event matches WatchEvent::Closed ==> r == WatchAction::End,
{
    match event {
        WatchEvent::Changed(Some(s)) => WatchAction::Send(s),
        WatchEvent::Changed(None) => WatchAction::Wait,
        WatchEvent::Closed => WatchAction::End,
    }
}

} // verus!
