//! Recognising a plane configuration that the kernel rejected, and reporting
//! a failed recovery together with the rejection that caused it.
use vstd::prelude::*;

verus! {

/// `libc::EINVAL`, which is 22 on Linux, the only target of this backend.
#[verifier::external_body]
fn errno_invalid() -> (r: i32)
    ensures
        r == 22,
{
    libc::EINVAL
}

/// `libc::ERANGE`, which is 34 on Linux.
#[verifier::external_body]
fn errno_range() -> (r: i32)
    ensures
        r == 34,
{
    libc::ERANGE
}

/// `libc::ENOSPC`, which is 28 on Linux.
#[verifier::external_body]
fn errno_no_space() -> (r: i32)
    ensures
        r == 28,
{
    libc::ENOSPC
}

/// What a failed frame queue reports, as far as recovery looks at it.
#[derive(Clone, Copy, Debug, PartialEq, Eq, Structural)]
pub enum FrameFailure {
    /// The DRM ioctl failed; the OS error code, if the error carries one.
    Access(Option<i32>),
    /// The plane configuration is not supported.
    UnsupportedPlaneConfiguration,
    /// The atomic test commit failed.
    TestFailed,
    /// Anything else: busy, device loss, inactivity, allocation or
    /// synchronisation failures.
    Other,
}

/// The error is evidence that the kernel rejected the plane assignment, so
/// one retry with full composition may succeed. EBUSY, EAGAIN, device loss
/// and the like are not.
pub open spec fn rejects_planes(error: FrameFailure) -> bool {
    match error {
        FrameFailure::Access(Some(code)) => code == 22 || code == 34 || code == 28,
        FrameFailure::Access(None) => false,
        FrameFailure::UnsupportedPlaneConfiguration => true,
        FrameFailure::TestFailed => true,
        FrameFailure::Other => false,
    }
}

/// Whether a failed queue was a plane rejection. A queue only submits when
/// no frame is pending, so a successful queue is never retried.
pub fn plane_rejection(error: &FrameFailure) -> (r: bool)
    ensures
        r == rejects_planes(*error),
{
    match error {
        FrameFailure::Access(Some(code)) => {
            *code == errno_invalid() || *code == errno_range() || *code == errno_no_space()
        },
        FrameFailure::Access(None) => false,
        FrameFailure::UnsupportedPlaneConfiguration => true,
        FrameFailure::TestFailed => true,
        FrameFailure::Other => false,
    }
}

/// The composition fallback failed after a plane submission was rejected.
pub struct RecoveryFailure<E> {
    pub rejection: String,
    pub fallback: E,
}

/// A submission error: the recovery failure, or the plain error when no
/// rejection preceded it.
pub enum Failure<E> {
    Recovery(RecoveryFailure<E>),
    Plain(E),
}

pub open spec fn failure_of<E>(earlier: Option<String>, error: E, r: Failure<E>) -> bool {
    match earlier {
        Some(rejection) => r matches Failure::Recovery(f) && f.rejection@ == rejection@ && f.fallback
            == error,
        None => r == Failure::Plain(error),
    }
}

/// Attach the earlier rejection, if any, to a later error.
pub fn failure<E>(earlier: &Option<String>, error: E) -> (r: Failure<E>)
    ensures
        failure_of(*earlier, error, r),
{
    match earlier {
        Some(rejection) => Failure::Recovery(
            RecoveryFailure { rejection: rejection.clone(), fallback: error },
        ),
        None => Failure::Plain(error),
    }
}

impl<E> RecoveryFailure<E> {
    /// The underlying cause is the failed fallback.
    pub fn source(&self) -> (r: &E)
        ensures
            *r == self.fallback,
    {
        &self.fallback
    }

    /// The report: both the rejection and the fallback's own description.
    pub fn message(&self, fallback: &str) -> (r: String)
        ensures
            r@ == "plane submission rejected: "@ + self.rejection@
                + "; composition recovery failed: "@ + fallback@,
    {
        let mut text = String::from_str("plane submission rejected: ");
        text.append(self.rejection.as_str());
        text.append("; composition recovery failed: ");
        text.append(fallback);
        text
    }
}

} // verus!
