//! The decisions of queueing one frame: a first attempt that may use
//! hardware planes, and one retry with full composition after the kernel
//! rejected the plane configuration.
use crate::outcome::RenderOutcome;
use crate::recovery::{failure, failure_of, plane_rejection, rejects_planes, Failure, FrameFailure};
use vstd::prelude::*;

verus! {

/// The error after a rejection when the forced full-composition repaint
/// produced no frame.
pub fn no_frame_message() -> (r: &'static str)
    ensures
        r@ == "forced composition repaint produced no frame"@,
{
    let m = "forced composition repaint produced no frame";
    proof {
        reveal_strlit("forced composition repaint produced no frame");
    }
    m
}

/// The error when the device went away before the composition retry.
pub fn inactive_message() -> (r: &'static str)
    ensures
        r@ == "DRM device became inactive"@,
{
    let m = "DRM device became inactive";
    proof {
        reveal_strlit("DRM device became inactive");
    }
    m
}

/// Progress of one frame submission.
pub struct Submission {
    attempt: u32,
    rejected: Option<String>,
}

impl Submission {
    /// 0 for the first attempt, 1 for the composition retry.
    pub closed spec fn attempt(&self) -> u32 {
        self.attempt
    }

    /// The rejection that caused the retry, if there was one.
    pub closed spec fn rejected(&self) -> Option<String> {
        self.rejected
    }

    pub closed spec fn wf(&self) -> bool {
        &&& self.attempt <= 1
        &&& (self.attempt == 1 <==> self.rejected is Some)
    }

    pub fn new() -> (s: Submission)
        ensures
            s.wf(),
            s.attempt() == 0,
            s.rejected() is None,
    {
        Submission { attempt: 0, rejected: None }
    }

    pub fn attempt_number(&self) -> (r: u32)
        ensures
            r == self.attempt(),
    {
        self.attempt
    }

    /// Only the first attempt may scan out on planes; the retry composes.
    pub fn allow_planes(&self) -> (r: bool)
        ensures
            r == (self.attempt() == 0),
    {
        self.attempt == 0
    }

    /// An error of this attempt, reported with the earlier rejection if any.
    pub fn fail<E>(&self, error: E) -> (r: Failure<E>)
        ensures
            failure_of(self.rejected(), error, r),
    {
        failure(&self.rejected, error)
    }

    /// Rendering produced no damage, so nothing is queued. After a rejection
    /// that is an error (`no_frame`, whose text is `no_frame_message`): the
    /// forced repaint must produce a frame.
    pub fn empty_frame<E>(&self, error: E) -> (r: Result<RenderOutcome, Failure<E>>)
        ensures
            self.rejected() is None ==> r == Ok::<RenderOutcome, Failure<E>>(RenderOutcome::idle()),
            self.rejected() is Some ==> (r matches Err(f) && failure_of(self.rejected(), error, f)),
    {
        match &self.rejected {
            Some(_) => Err(failure(&self.rejected, error)),
            None => Ok(RenderOutcome::default()),
        }
    }

    /// The frame was queued.
    pub fn queued(&self, primary_scanout: bool, hardware_cursor: bool) -> (r: RenderOutcome)
        ensures
            r == (RenderOutcome {
                queued: true,
                primary_scanout,
                hardware_cursor,
                recovered: self.rejected() is Some,
            }),
    {
        RenderOutcome {
            queued: true,
            primary_scanout,
            hardware_cursor,
            recovered: self.rejected.is_some(),
        }
    }

    /// The queue failed. Retry once, composed, when the first attempt used
    /// planes on an atomic device and the kernel rejected them; the caller
    /// then checks the device and starts the retry. Otherwise the error ends
    /// the submission.
    pub fn queue_failed(
        &mut self,
        used_planes: bool,
        atomic: bool,
        error: &FrameFailure,
        message: String,
    ) -> (retry: bool)
        requires
            old(self).wf(),
        ensures
            retry == (old(self).attempt() == 0 && used_planes && atomic && rejects_planes(*error)),
            retry ==> final(self).rejected() == Some(message) && final(self).attempt() == 0,
            !retry ==> final(self).rejected() == old(self).rejected() && final(self).attempt()
                == old(self).attempt() && final(self).wf(),
    {
        if self.attempt == 0 && used_planes && atomic && plane_rejection(error) {
            self.rejected = Some(message);
            true
        } else {
            false
        }
    }

    /// After `queue_failed` asked for a retry: the retry starts only while
    /// the device is still active (`active`) and, checked only then, the
    /// output still validates (`validated`). Otherwise the submission ends
    /// with the device's `inactive` error (whose text is `inactive_message`)
    /// or the validation error, reported together with the rejection.
    pub fn after_rejection<E>(&mut self, active: bool, validated: Result<(), E>, inactive: E) -> (r: Result<(), Failure<E>>)
        requires
            old(self).attempt() == 0,
            old(self).rejected() is Some,
        ensures
            final(self).rejected() == old(self).rejected(),
            active && validated is Ok ==> r is Ok && final(self).attempt() == 1 && final(self).wf(),
            !active ==> (r matches Err(f) && failure_of(old(self).rejected(), inactive, f)) && final(self).attempt() == 0,
            active && validated is Err ==> (r matches Err(f) && failure_of(old(self).rejected(), validated->Err_0, f))
                && final(self).attempt() == 0,
    {
        if !active {
            return Err(failure(&self.rejected, inactive));
        }
        match validated {
            Err(e) => Err(failure(&self.rejected, e)),
            Ok(()) => {
                self.retry();
                Ok(())
            },
        }
    }

    /// Start the composition retry after a rejection.
    fn retry(&mut self)
        requires
            old(self).attempt() == 0,
            old(self).rejected() is Some,
        ensures
            final(self).wf(),
            final(self).attempt() == 1,
            final(self).rejected() == old(self).rejected(),
    {
        self.attempt = 1;
    }
}

} // verus!
