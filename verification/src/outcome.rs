//! What a render pass reports back to the frame scheduler.
use vstd::prelude::*;

verus! {

/// Accepted queue outcomes, not claims of completed display presentation.
#[derive(Clone, Copy, Debug, PartialEq, Eq, Structural)]
pub struct RenderOutcome {
    pub queued: bool,
    pub primary_scanout: bool,
    pub hardware_cursor: bool,
    pub recovered: bool,
}

impl RenderOutcome {
    /// Nothing was queued.
    pub open spec fn idle() -> RenderOutcome {
        RenderOutcome { queued: false, primary_scanout: false, hardware_cursor: false, recovered: false }
    }
}

impl Default for RenderOutcome {
    fn default() -> (r: RenderOutcome)
        ensures
            r == RenderOutcome::idle(),
    {
        RenderOutcome { queued: false, primary_scanout: false, hardware_cursor: false, recovered: false }
    }
}

} // verus!
