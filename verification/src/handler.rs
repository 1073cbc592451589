//! The handler that serves one live view: it pairs a manager value with
//! the live view type it serves.

use vstd::prelude::*;

verus! {

/// A live view handler: a manager for requests and joins, for the live
/// view type `T`.
pub struct LiveViewHandler<L, T> {
    /// The manager.
    pub live_view: L,
    /// Marks the live view type the handler serves.
    pub phantom: Ghost<Option<T>>,
}

impl<L, T> LiveViewHandler<L, T> {
    /// Wraps a manager into a handler.
    pub fn new(live_view: L) -> (r: LiveViewHandler<L, T>)
        ensures
            r.live_view == live_view,
    {
        LiveViewHandler { live_view, phantom: Ghost(None) }
    }
}

} // verus!
