use std::sync::atomic::AtomicUsize;
use std::sync::atomic::Ordering;
use std::sync::Arc;
use vstd::prelude::*;

verus! {

/// State shared between the registry and the readers of the visitor counter.
#[derive(Clone)]
pub struct AppState {
    /// Number of sessions registered so far; bumped once per registration.
    pub visitor_count: Arc<AtomicUsize>,
}

/// Counts one more visitor and returns the count that now stands.
///
/// The counter is shared, so nothing is known of the value it held; the
/// addition wraps around like the counter itself does.
pub(crate) fn count_visitor(counter: &AtomicUsize) -> usize {
    let before = counter.fetch_add(1, Ordering::SeqCst);
    before.wrapping_add(1)
}

} // verus!
