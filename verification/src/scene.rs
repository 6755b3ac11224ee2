//! Per-device render state: the cursor, the resize transitions and the
//! frozen screenshot, and the bookkeeping of one frame around its drawing.
use crate::outcome::RenderOutcome;
use crate::rounded::next_commit;
use crate::screenshot::{Capture, Handles};
use crate::transitions::{all_queued, still_waiting, Animations};
use vstd::prelude::*;

verus! {

pub struct Scene<C, T, S, I, P, H: Handles> {
    pub cursor: C,
    pub animations: Animations<T, S, I, P>,
    pub screenshot: Capture<H>,
}

/// The passes of one frame: the elements are collected front to back
/// (pointer, screenshot view, window switcher, then the desktop: overlay
/// and top layers, windows, bottom and background layers), the resize
/// accounting is recorded, the frame is submitted, and the screenshot
/// looks at what was rendered.
#[derive(Clone, Copy, Debug, PartialEq, Eq, Structural)]
pub enum Pass {
    Pointer,
    Screenshot,
    Switcher,
    Desktop,
    Accounting,
    Submit,
    AfterFrame,
}

/// What a frame does after a pass.
#[derive(Clone, Copy, Debug, PartialEq, Eq, Structural)]
pub enum PassStep {
    Run(Pass),
    /// The pass failed: the frame ends with its error.
    Stop,
    /// Every pass ran.
    Finish,
}

pub open spec fn pass_after(done: Option<Pass>, ok: bool) -> PassStep {
    match done {
        None => PassStep::Run(Pass::Pointer),
        Some(p) => if !ok {
            PassStep::Stop
        } else {
            match p {
                Pass::Pointer => PassStep::Run(Pass::Screenshot),
                Pass::Screenshot => PassStep::Run(Pass::Switcher),
                Pass::Switcher => PassStep::Run(Pass::Desktop),
                Pass::Desktop => PassStep::Run(Pass::Accounting),
                Pass::Accounting => PassStep::Run(Pass::Submit),
                Pass::Submit => PassStep::Run(Pass::AfterFrame),
                Pass::AfterFrame => PassStep::Finish,
            }
        },
    }
}

/// What the frame loop hands the scene.
pub enum RenderStep<E> {
    /// A frame starts, sampling animations at `now` (nanoseconds).
    Begin { now: u64 },
    /// The frame was drawn and submitted, or failed.
    Drawn(Result<RenderOutcome, E>),
}

/// What the frame loop does next.
#[derive(Debug)]
pub enum RenderAction<E> {
    /// Draw the scene's elements, animated ones under this commit.
    Draw { commit: usize },
    /// The frame is over with this result.
    Done(Result<RenderOutcome, E>),
}

impl<C, T, S: Copy, I: Clone, P, H: Handles> Scene<C, T, S, I, P, H> {
    /// A scene with the given cursor, no transitions and no screenshot.
    pub fn new(cursor: C) -> (s: Self)
        ensures
            s.cursor == cursor,
            s.animations.entries@.len() == 0,
            s.animations.commit == 0,
            s.animations.now is None,
            s.animations.output is None,
            s.animations.wf(),
            s.screenshot.is_fresh(),
    {
        Scene { cursor, animations: Animations::new(), screenshot: Capture::new() }
    }

    /// Drop the frozen screenshot and any export in flight.
    pub fn clear_screenshot(&mut self)
        ensures
            final(self).screenshot.is_fresh(),
            final(self).cursor == old(self).cursor,
            final(self).animations == old(self).animations,
    {
        self.screenshot = Capture::new();
    }

    /// Cancel every resize transition.
    pub fn cancel_resize_animations(&mut self)
        ensures
            final(self).animations.entries@.len() == 0,
            final(self).animations.commit == old(self).animations.commit,
            final(self).animations.now == old(self).animations.now,
            final(self).animations.output is None,
            final(self).animations.wf(),
            final(self).cursor == old(self).cursor,
            final(self).screenshot == old(self).screenshot,
    {
        self.animations.clear();
    }

    /// Cancel the resize transition of one window root.
    pub fn cancel_resize_surface(&mut self, root: u64)
        requires
            old(self).animations.wf(),
        ensures
            final(self).animations.wf(),
            (forall|k: int| 0 <= k < old(self).animations.entries@.len() ==> (#[trigger] old(self).animations.entries@[k]).root != root)
                ==> final(self).animations.entries@ == old(self).animations.entries@,
            forall|k: int| 0 <= k < old(self).animations.entries@.len() && (#[trigger] old(self).animations.entries@[k]).root == root
                ==> final(self).animations.entries@ == old(self).animations.entries@.remove(k),
            final(self).animations.commit == old(self).animations.commit,
            final(self).animations.now == old(self).animations.now,
            final(self).animations.output == old(self).animations.output,
            final(self).cursor == old(self).cursor,
            final(self).screenshot == old(self).screenshot,
    {
        self.animations.remove(root);
    }

    /// The order of a frame's passes: the pass after `done` (none before
    /// the first), or the end of the frame, where a failed pass (`ok`
    /// false) stops it with its error.
    pub fn render_into(done: Option<Pass>, ok: bool) -> (r: PassStep)
        ensures
            r == pass_after(done, ok),
    {
        match done {
            None => PassStep::Run(Pass::Pointer),
            Some(p) => {
                if !ok {
                    return PassStep::Stop;
                }
                match p {
                    Pass::Pointer => PassStep::Run(Pass::Screenshot),
                    Pass::Screenshot => PassStep::Run(Pass::Switcher),
                    Pass::Switcher => PassStep::Run(Pass::Desktop),
                    Pass::Desktop => PassStep::Run(Pass::Accounting),
                    Pass::Accounting => PassStep::Run(Pass::Submit),
                    Pass::Submit => PassStep::Run(Pass::AfterFrame),
                    Pass::AfterFrame => PassStep::Finish,
                }
            },
        }
    }

    /// One frame's bookkeeping, step by step. Beginning a frame samples the
    /// transitions at `now` under a fresh commit and asks for the drawing.
    /// Once drawn, a queued frame makes what it drew the displayed state
    /// of every transition; a frame that queued nothing (every animated
    /// draw was occluded) drops the running transitions; a failed one
    /// changes nothing. The result is handed back as it came.
    pub fn render<E>(&mut self, step: RenderStep<E>) -> (r: RenderAction<E>)
        requires
            old(self).animations.wf(),
        ensures
            final(self).cursor == old(self).cursor,
            final(self).screenshot == old(self).screenshot,
            final(self).animations.wf(),
            step matches RenderStep::Begin { now } ==> {
                &&& final(self).animations.entries@ == old(self).animations.entries@
                &&& final(self).animations.now == Some(now)
                &&& final(self).animations.output == old(self).animations.output
                &&& final(self).animations.commit == next_commit(old(self).animations.commit)
                &&& r == RenderAction::<E>::Draw { commit: final(self).animations.commit }
            },
            step matches RenderStep::Drawn(result) ==> {
                &&& r == RenderAction::Done(result)
                &&& final(self).animations.commit == old(self).animations.commit
                &&& final(self).animations.now == old(self).animations.now
                &&& final(self).animations.output == old(self).animations.output
                &&& (result matches Ok(o) && o.queued ==> all_queued(old(self).animations.entries@, final(self).animations.entries@))
                &&& (result matches Ok(o) && !o.queued ==> final(self).animations.entries@
                    == still_waiting(old(self).animations.entries@))
                &&& (result is Err ==> final(self).animations.entries@ == old(self).animations.entries@)
            },
    {
        match step {
            RenderStep::Begin { now } => {
                self.animations.begin_frame(now);
                proof {
                    assert(self.animations.wf());
                }
                RenderAction::Draw { commit: self.animations.commit }
            },
            RenderStep::Drawn(result) => {
                if let Ok(outcome) = &result {
                    if outcome.queued {
                        self.animations.queued();
                    } else {
                        self.animations.not_queued();
                    }
                }
                RenderAction::Done(result)
            },
        }
    }

    /// A finished screenshot readback, handed out only while input is
    /// active (the session owns the device) and a device is present.
    pub fn poll_screenshot(&mut self, input_active: bool, device: bool, ready: bool) -> (r: Option<(u64, H::Download)>)
        ensures
            final(self).cursor == old(self).cursor,
            final(self).animations == old(self).animations,
            !(input_active && device) ==> r is None && final(self).screenshot == old(self).screenshot,
            final(self).screenshot.image() == old(self).screenshot.image(),
            final(self).screenshot.generation() == old(self).screenshot.generation(),
            final(self).screenshot.view_id() == old(self).screenshot.view_id(),
            input_active && device && ready && old(self).screenshot.download() is Some ==> r == old(self).screenshot.download()
                && final(self).screenshot.download() is None,
            !(input_active && device && ready && old(self).screenshot.download() is Some) ==> r is None
                && final(self).screenshot.download() == old(self).screenshot.download(),
    {
        if !input_active || !device {
            return None;
        }
        self.screenshot.take_ready(ready)
    }
}

} // verus!
