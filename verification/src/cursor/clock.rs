//! When the cursor animation started and when its next frame is due.
//!
//! Times are nanoseconds on one monotonic clock chosen by the caller.
use cursor_icon::CursorIcon;
use vstd::prelude::*;

verus! {

/// A named cursor shape of the cursor-icon crate; opaque here.
#[verifier::external_type_specification]
#[verifier::external_body]
pub struct ExCursorIcon(CursorIcon);

/// `PartialEq::eq` of `CursorIcon`, which is derived on a field-less enum:
/// two icons compare equal exactly when they are the same icon.
#[verifier::external_body]
pub(crate) fn same_icon(a: &CursorIcon, b: &CursorIcon) -> (r: bool)
    ensures
        r == (*a == *b),
{
    *a == *b
}

/// The animated cursor: which icon at which image size is showing since
/// when, and when its current frame expires.
pub struct CursorClock {
    pub active: Option<(CursorIcon, u32, u64)>,
    pub deadline: Option<u64>,
}

/// The shown icon keeps animating: the status still names it.
pub open spec fn keeps(status: Option<CursorIcon>, active: Option<(CursorIcon, u32, u64)>) -> bool {
    match (status, active) {
        (Some(icon), Some((shown, _, _))) => icon == shown,
        _ => false,
    }
}

/// A deadline is set and has passed.
pub open spec fn expired(deadline: Option<u64>, now: u64) -> bool {
    match deadline {
        Some(d) => d <= now,
        None => false,
    }
}

/// The clock after a tick at `now`, and whether a wake was due.
pub open spec fn ticked(clock: CursorClock, status: Option<CursorIcon>, now: u64) -> (CursorClock, bool) {
    let kept = keeps(status, clock.active);
    let due = kept && expired(clock.deadline, now);
    (
        CursorClock {
            active: if kept {
                clock.active
            } else {
                None
            },
            deadline: if kept && !due {
                clock.deadline
            } else {
                None
            },
        },
        due,
    )
}

/// An expired wake is consumed exactly once: after a tick reported it, no
/// later tick reports one until a new frame is scheduled.
pub proof fn lemma_wake_consumed_once(
    clock: CursorClock,
    status: Option<CursorIcon>,
    now: u64,
    next_status: Option<CursorIcon>,
    later: u64,
)
    requires
        ticked(clock, status, now).1,
    ensures
        !ticked(ticked(clock, status, now).0, next_status, later).1,
        ticked(clock, status, now).0.deadline is None,
{
}

impl CursorClock {
    pub fn new() -> (r: CursorClock)
        ensures
            r.active is None,
            r.deadline is None,
    {
        CursorClock { active: None, deadline: None }
    }

    /// Forget the animation: nothing is showing, nothing is due.
    pub fn suspend(&mut self)
        ensures
            final(self).active is None,
            final(self).deadline is None,
    {
        self.active = None;
        self.deadline = None;
    }

    /// Consume an expired wake even if rendering is postponed: the pending
    /// redraw then owns progress, so a past deadline never wakes twice.
    /// Stops the animation when the status no longer names the shown icon.
    pub fn tick(&mut self, status: Option<CursorIcon>, now: u64) -> (due: bool)
        ensures
            (*final(self), due) == ticked(*old(self), status, now),
    {
        let kept = match (status, self.active) {
            (Some(icon), Some((shown, _, _))) => same_icon(&icon, &shown),
            _ => false,
        };
        if !kept {
            self.suspend();
        }
        match self.deadline {
            Some(deadline) => {
                if deadline <= now {
                    self.deadline = None;
                    true
                } else {
                    false
                }
            },
            None => false,
        }
    }

    pub fn deadline(&self) -> (r: Option<u64>)
        ensures
            r == self.deadline,
    {
        self.deadline
    }

    /// The start of the animation of `icon` at image size `target`: kept
    /// while the same icon at the same size keeps showing, restarted at
    /// `now` otherwise.
    pub fn start(&mut self, icon: CursorIcon, target: u32, now: u64) -> (start: u64)
        ensures
            final(self).deadline == old(self).deadline,
            match old(self).active {
                Some((shown, size, since)) if shown == icon && size == target => {
                    start == since && final(self).active == old(self).active
                },
                _ => start == now && final(self).active == Some((icon, target, now)),
            },
    {
        match self.active {
            Some((shown, size, since)) => {
                if same_icon(&shown, &icon) && size == target {
                    return since;
                }
            },
            None => {},
        }
        self.active = Some((icon, target, now));
        now
    }

    /// Arm the wake for the end of the current frame, if it ever ends.
    pub fn schedule(&mut self, now: u64, remaining: Option<u64>)
        requires
            remaining matches Some(d) ==> now + d <= u64::MAX,
        ensures
            final(self).active == old(self).active,
            final(self).deadline == (match remaining {
                Some(d) => Some((now + d) as u64),
                None => None,
            }),
    {
        self.deadline = match remaining {
            Some(d) => Some(now + d),
            None => None,
        };
    }
}

} // verus!
