use raven_render::outcome::RenderOutcome;
use raven_render::recovery::{failure, plane_rejection, Failure, FrameFailure};
use raven_render::submit::{inactive_message, no_frame_message, Submission};

#[test]
fn plane_rejections_are_invalid_range_and_no_space() {
    assert!(plane_rejection(&FrameFailure::Access(Some(libc::EINVAL))));
    assert!(plane_rejection(&FrameFailure::Access(Some(libc::ERANGE))));
    assert!(plane_rejection(&FrameFailure::Access(Some(libc::ENOSPC))));
    assert!(!plane_rejection(&FrameFailure::Access(Some(libc::EBUSY))));
    assert!(!plane_rejection(&FrameFailure::Access(Some(libc::EAGAIN))));
    assert!(!plane_rejection(&FrameFailure::Access(None)));
    assert!(plane_rejection(&FrameFailure::UnsupportedPlaneConfiguration));
    assert!(plane_rejection(&FrameFailure::TestFailed));
    assert!(!plane_rejection(&FrameFailure::Other));
}

#[test]
fn failure_keeps_the_rejection() {
    match failure(&Some("EINVAL".to_string()), 7) {
        Failure::Recovery(f) => {
            assert_eq!(f.rejection, "EINVAL");
            assert_eq!(*f.source(), 7);
            assert_eq!(
                f.message("no frame"),
                "plane submission rejected: EINVAL; composition recovery failed: no frame"
            );
        }
        Failure::Plain(_) => panic!("rejection lost"),
    }
    assert!(matches!(failure(&None, 7), Failure::Plain(7)));
}

#[test]
fn submission_retries_once_composed() {
    let mut s = Submission::new();
    assert!(s.allow_planes());
    assert!(s.queue_failed(true, true, &FrameFailure::TestFailed, "test failed".into()));
    assert!(s.after_rejection(true, Ok::<(), u32>(()), 9).is_ok());
    assert!(!s.allow_planes());
    assert_eq!(s.attempt_number(), 1);
    // The retry never retries again.
    assert!(!s.queue_failed(true, true, &FrameFailure::TestFailed, "again".into()));
    let outcome = s.queued(false, false);
    assert_eq!(
        outcome,
        RenderOutcome { queued: true, primary_scanout: false, hardware_cursor: false, recovered: true }
    );
    assert!(matches!(s.empty_frame(1), Err(Failure::Recovery(_))));
    assert!(matches!(s.fail(2), Failure::Recovery(f) if f.rejection == "test failed"));
}

#[test]
fn retry_needs_an_active_device_and_a_valid_output() {
    let mut s = Submission::new();
    assert!(s.queue_failed(true, true, &FrameFailure::Access(Some(22)), "EINVAL".into()));
    match s.after_rejection(false, Ok(()), 5) {
        Err(Failure::Recovery(f)) => assert_eq!((f.rejection.as_str(), f.fallback), ("EINVAL", 5)),
        _ => panic!("an inactive device must end the submission"),
    }
    assert!(s.allow_planes());
    match s.after_rejection(true, Err(6), 5) {
        Err(Failure::Recovery(f)) => assert_eq!(f.fallback, 6),
        _ => panic!("an invalid output must end the submission"),
    }
    assert_eq!(s.attempt_number(), 0);
    assert_eq!(no_frame_message(), "forced composition repaint produced no frame");
    assert_eq!(inactive_message(), "DRM device became inactive");
}

#[test]
fn submission_without_rejection_fails_plainly() {
    let mut s = Submission::new();
    // No planes were used, or the device is not atomic: no retry.
    assert!(!s.queue_failed(false, true, &FrameFailure::TestFailed, "x".into()));
    assert!(!s.queue_failed(true, false, &FrameFailure::TestFailed, "x".into()));
    assert!(!s.queue_failed(true, true, &FrameFailure::Other, "x".into()));
    assert_eq!(s.empty_frame(0).ok(), Some(RenderOutcome::default()));
    assert!(matches!(s.fail(3), Failure::Plain(3)));
    let outcome = s.queued(true, true);
    assert!(outcome.queued && outcome.primary_scanout && outcome.hardware_cursor && !outcome.recovered);
}
