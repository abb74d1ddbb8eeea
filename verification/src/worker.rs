use vstd::prelude::*;

verus! {

/// The stop flag of a message-processing loop: once a stop was asked for, the loop ends
/// as soon as its queue has run dry.
pub struct StopLatch {
    pub stop_requested: bool,
}

impl StopLatch {
    pub fn new() -> (r: StopLatch)
        ensures
            !r.stop_requested,
    {
        StopLatch { stop_requested: false }
    }

    pub fn request_stop(&mut self)
        ensures
            final(self).stop_requested,
    {
        self.stop_requested = true;
    }

    /// Whether the loop ends now, given whether its queue is empty.
    pub fn should_exit(&self, queue_empty: bool) -> (r: bool)
        ensures
            r == (self.stop_requested && queue_empty),
    {
        self.stop_requested && queue_empty
    }
}

} // verus!
