//! The registry of running and waiting resize transitions, one per window
//! root surface, with the per-frame bookkeeping that keeps each entry's
//! queued sample and image in step with what was handed to the display.
use crate::animation::{capture_room, CapturePlan, Fate, Geometry, MAX_SNAPSHOT_BYTES, PENDING_LIFETIME};
use crate::geometry::Rect;
use crate::rounded::{increment, next_commit};
use vstd::prelude::*;

verus! {

/// One window's resize transition. `timeline` is none while the resize
/// still waits for the client; `rendered` is what the last draw used and
/// `last_queued` what the last queued frame showed.
pub struct Transition<T, S, I, P> {
    pub root: u64,
    /// The configure serial the transition waits for.
    pub serial: u32,
    /// The window geometry the transition starts from.
    pub from: Geometry,
    /// The content rectangle the start image shows, in output pixels.
    pub content_from: Rect,
    /// When the snapshot was taken, in nanoseconds.
    pub captured: u64,
    pub timeline: Option<T>,
    pub last_queued: S,
    pub rendered: S,
    pub last_queued_image: Option<I>,
    pub rendered_image: Option<I>,
    /// The frozen start image; none for a transition that draws live
    /// content directly.
    pub snapshot: Option<P>,
}

impl<T, S: Copy, I, P> Transition<T, S, I, P> {
    /// A transition captured at `captured` for window `root`, starting
    /// from `from` and waiting for the client's configure `serial`: no
    /// timeline yet, both samples at `start` (the start geometry at progress
    /// zero), no blended image yet, and the start image `snapshot` of the
    /// content rectangle `content_from` (whose pixels take
    /// `image_bytes(content_from)` bytes), or none for a transition that
    /// draws live content directly.
    pub fn fresh(
        root: u64,
        serial: u32,
        from: Geometry,
        content_from: Rect,
        captured: u64,
        start: S,
        snapshot: Option<P>,
    ) -> (t: Self)
        ensures
            t == (Transition::<T, S, I, P> {
                root,
                serial,
                from,
                content_from,
                captured,
                timeline: None,
                last_queued: start,
                rendered: start,
                last_queued_image: None,
                rendered_image: None,
                snapshot,
            }),
    {
        Transition {
            root,
            serial,
            from,
            content_from,
            captured,
            timeline: None,
            last_queued: start,
            rendered: start,
            last_queued_image: None,
            rendered_image: None,
            snapshot,
        }
    }
}

/// `e` after another configure `serial` arrived while it waits (see
/// `Animations::keep_pending`).
pub open spec fn kept_waiting<T, S, I, P>(e: Transition<T, S, I, P>, serial: u32, direct: bool) -> Transition<T, S, I, P> {
    if direct {
        Transition { serial, last_queued_image: None, rendered_image: None, snapshot: None, ..e }
    } else {
        Transition { serial, ..e }
    }
}

/// A blocked commit keeps a waiting transition's start: its geometry,
/// content rectangle, capture time, samples and timeline stay, and unless
/// it turns direct so do its start image and blended images.
pub proof fn lemma_blocked_commit_keeps_start<T, S, I, P>(e: Transition<T, S, I, P>, serial: u32, direct: bool)
    ensures
        kept_waiting(e, serial, direct).root == e.root,
        kept_waiting(e, serial, direct).serial == serial,
        kept_waiting(e, serial, direct).from == e.from,
        kept_waiting(e, serial, direct).content_from == e.content_from,
        kept_waiting(e, serial, direct).captured == e.captured,
        kept_waiting(e, serial, direct).timeline == e.timeline,
        kept_waiting(e, serial, direct).last_queued == e.last_queued,
        kept_waiting(e, serial, direct).rendered == e.rendered,
        !direct ==> kept_waiting(e, serial, direct).snapshot == e.snapshot
            && kept_waiting(e, serial, direct).last_queued_image == e.last_queued_image
            && kept_waiting(e, serial, direct).rendered_image == e.rendered_image,
{
}

/// `after` is `before` with `root`'s transition, if any, replaced by `f` of it.
pub open spec fn changed_at<T, S, I, P>(
    before: Seq<Transition<T, S, I, P>>,
    root: u64,
    after: Seq<Transition<T, S, I, P>>,
    f: spec_fn(Transition<T, S, I, P>) -> Transition<T, S, I, P>,
) -> bool {
    &&& (forall|k: int| 0 <= k < before.len() ==> (#[trigger] before[k]).root != root) ==> after == before
    &&& forall|k: int| 0 <= k < before.len() && (#[trigger] before[k]).root == root ==> after == before.update(k, f(before[k]))
}

/// `after` is `before` without `root`'s transition, if it had one.
pub open spec fn removed_at<T, S, I, P>(before: Seq<Transition<T, S, I, P>>, root: u64, after: Seq<Transition<T, S, I, P>>) -> bool {
    &&& (forall|k: int| 0 <= k < before.len() ==> (#[trigger] before[k]).root != root) ==> after == before
    &&& forall|k: int| 0 <= k < before.len() && (#[trigger] before[k]).root == root ==> after == before.remove(k)
}

/// What the caller does next when capturing a resize.
#[derive(Debug)]
pub enum CaptureStep {
    /// Nothing more: the capture is over with this result (true when a
    /// transition is recorded).
    Done(bool),
    /// Start a direct transition from `from`: capture the window's live
    /// content and `install` it with no snapshot.
    Direct { from: Geometry },
    /// Snapshot `bounds` of the window and `install` the transition with it.
    Snapshot { from: Geometry, bounds: Rect },
}

/// What drawing a window's transition into a frame starts with.
#[derive(Clone, Copy, Debug, PartialEq, Eq, Structural)]
pub enum AppendStep {
    /// Draw the window normally: it has no transition, or nothing to draw
    /// it with.
    Skip,
    /// Build the transition's blend frame within `available` bytes.
    Build { available: usize },
}

/// `s`, or nothing when `clear`.
pub open spec fn cleared_if<T, S, I, P>(s: Seq<Transition<T, S, I, P>>, clear: bool) -> Seq<Transition<T, S, I, P>> {
    if clear {
        Seq::empty()
    } else {
        s
    }
}

/// `s` holds a transition of `root`.
pub open spec fn knows<T, S, I, P>(s: Seq<Transition<T, S, I, P>>, root: Option<u64>) -> bool {
    root matches Some(x) && exists|k: int| 0 <= k < s.len() && (#[trigger] s[k]).root == x
}

/// `e` drawn with `sample` as `image`.
pub open spec fn drawn_with<T, S, I, P>(e: Transition<T, S, I, P>, sample: S, image: I) -> Transition<T, S, I, P> {
    Transition { rendered: sample, rendered_image: Some(image), ..e }
}

/// `after` is `before` with `root`'s transition, if any, drawn with
/// `sample` as `image`.
pub open spec fn drawn_at<T, S, I, P>(
    before: Seq<Transition<T, S, I, P>>,
    root: u64,
    after: Seq<Transition<T, S, I, P>>,
    sample: S,
    image: I,
) -> bool {
    changed_at(before, root, after, |e: Transition<T, S, I, P>| drawn_with(e, sample, image))
}

/// A transition that still waits for the client's resize.
pub open spec fn waiting<T, S, I, P>(e: Transition<T, S, I, P>) -> bool {
    e.timeline is None
}

/// All transitions, the commit counter of their drawn elements and the
/// time the current frame samples at.
pub struct Animations<T, S, I, P> {
    pub entries: Vec<Transition<T, S, I, P>>,
    pub commit: usize,
    pub now: Option<u64>,
    /// The output the transitions were captured on, as it then was.
    pub output: Option<OutputSignature>,
}

/// What identifies an output's geometry for the transitions on it: the
/// output, its area in the layout, the bits of its (positive) fractional
/// scale and its transform.
#[derive(Clone, Copy, Debug, PartialEq, Eq, Structural)]
pub struct OutputSignature {
    pub output: u64,
    pub area: Rect,
    pub scale_bits: u64,
    pub transform: u8,
}

/// How reconciliation proceeds.
#[derive(Clone, Copy, Debug, PartialEq, Eq, Structural)]
pub enum ReconcileStep {
    /// The output is not mapped: every transition was dropped; whether any
    /// existed.
    Done(bool),
    /// Settle each remaining transition by its fate (see `apply_fates`);
    /// `reset` tells whether transitions were already dropped.
    Settle { reset: bool },
}

/// No two entries share a root surface.
pub open spec fn distinct_roots<T, S, I, P>(s: Seq<Transition<T, S, I, P>>) -> bool {
    forall|i: int, j: int| 0 <= i < j < s.len() ==> (#[trigger] s[i]).root != (#[trigger] s[j]).root
}

/// `b` is `a` after a frame was queued: every entry's queued sample and
/// image become the rendered ones.
pub open spec fn queued_entry<T, S, I: Clone, P>(a: Transition<T, S, I, P>, b: Transition<T, S, I, P>) -> bool {
    &&& b.root == a.root
    &&& b.serial == a.serial
    &&& b.from == a.from
    &&& b.content_from == a.content_from
    &&& b.snapshot == a.snapshot
    &&& b.captured == a.captured
    &&& b.timeline == a.timeline
    &&& b.rendered == a.rendered
    &&& b.rendered_image == a.rendered_image
    &&& b.last_queued == a.rendered
    &&& match a.rendered_image {
        None => b.last_queued_image is None,
        Some(img) => b.last_queued_image matches Some(c) && cloned(img, c),
    }
}

/// The transitions of `s` that still wait for their client, in order.
pub open spec fn still_waiting<T, S, I, P>(s: Seq<Transition<T, S, I, P>>) -> Seq<Transition<T, S, I, P>> {
    s.filter(|e: Transition<T, S, I, P>| waiting(e))
}

/// `b` is `a` after a frame was queued, entry by entry.
pub open spec fn all_queued<T, S, I: Clone, P>(a: Seq<Transition<T, S, I, P>>, b: Seq<Transition<T, S, I, P>>) -> bool {
    &&& b.len() == a.len()
    &&& forall|i: int| 0 <= i < a.len() ==> queued_entry(#[trigger] a[i], b[i])
}

/// The transitions after reconciliation: entry `i` leaves when its fate is
/// to be dropped, takes `timelines[i]` when it starts, and stays as it is
/// when kept.
pub open spec fn settled<T, S, I, P>(
    entries: Seq<Transition<T, S, I, P>>,
    fates: Seq<Fate>,
    timelines: Seq<Option<T>>,
) -> Seq<Transition<T, S, I, P>>
    decreases entries.len(),
{
    if entries.len() == 0 {
        Seq::empty()
    } else {
        let rest = settled(entries.drop_last(), fates.drop_last(), timelines.drop_last());
        let e = entries.last();
        match fates.last() {
            Fate::Drop => rest,
            Fate::Keep => rest.push(e),
            Fate::Start(_) => rest.push(Transition { timeline: timelines.last(), ..e }),
        }
    }
}

/// Filtering keeps roots distinct.
proof fn lemma_filter_distinct<T, S, I, P>(s: Seq<Transition<T, S, I, P>>, p: spec_fn(Transition<T, S, I, P>) -> bool)
    requires
        distinct_roots(s),
    ensures
        distinct_roots(s.filter(p)),
    decreases s.len(),
{
    reveal(Seq::filter);
    if s.len() > 0 {
        let rest = s.drop_last();
        lemma_filter_distinct(rest, p);
        let f = rest.filter(p);
        if p(s.last()) {
            assert forall|k: int| 0 <= k < f.len() implies (#[trigger] f[k]).root != s.last().root by {
                assert(f.contains(f[k]));
                rest.lemma_filter_contains_rev(p, f[k]);
                let m = choose|m: int| 0 <= m < rest.len() && rest[m] == f[k];
                assert(s[m] == rest[m]);
            }
            let g = s.filter(p);
            assert(g == f.push(s.last()));
            assert forall|a: int, b: int| 0 <= a < b < g.len() implies (#[trigger] g[a]).root != (#[trigger] g[b]).root by {
                if b == g.len() - 1 {
                    assert(g[a] == f[a]);
                } else {
                    assert(g[a] == f[a] && g[b] == f[b]);
                }
            }
        }
    }
}

/// A frame that queued nothing leaves only transitions that wait for
/// their client, and keeps every one of those: no running transition
/// keeps asking for frames that show nothing.
pub proof fn lemma_unqueued_frame_keeps_waiting<T, S, I, P>(s: Seq<Transition<T, S, I, P>>)
    ensures
        forall|k: int| 0 <= k < still_waiting(s).len() ==> waiting(#[trigger] still_waiting(s)[k]),
        forall|k: int| 0 <= k < s.len() && waiting(#[trigger] s[k]) ==> still_waiting(s).contains(s[k]),
{
    let p = |e: Transition<T, S, I, P>| waiting(e);
    assert forall|k: int| 0 <= k < s.filter(p).len() implies waiting(#[trigger] s.filter(p)[k]) by {
        s.lemma_filter_pred(p, k);
    }
    assert forall|k: int| 0 <= k < s.len() && waiting(#[trigger] s[k]) implies s.filter(p).contains(s[k]) by {
        s.lemma_filter_contains(p, k);
    }
}

/// What a queued frame shows is what was drawn: after `root`'s transition
/// was drawn with a sample and an image and the frame was queued, its
/// queued sample is that sample and its queued image a clone of that image.
pub proof fn lemma_queued_shows_drawn<T, S, I: Clone, P>(
    before: Seq<Transition<T, S, I, P>>,
    after: Seq<Transition<T, S, I, P>>,
    k: int,
    sample: S,
    image: I,
)
    requires
        0 <= k < before.len(),
        all_queued(before.update(k, Transition { rendered: sample, rendered_image: Some(image), ..before[k] }), after),
    ensures
        after[k].last_queued == sample,
        after[k].last_queued_image matches Some(c) && cloned(image, c),
        after[k].root == before[k].root,
{
    let drawn = before.update(k, Transition { rendered: sample, rendered_image: Some(image), ..before[k] });
    assert(queued_entry(drawn[k], after[k]));
}

impl<T, S: Copy, I: Clone, P> Animations<T, S, I, P> {
    pub open spec fn wf(&self) -> bool {
        distinct_roots(self.entries@)
    }

    /// No transitions, no frame begun.
    pub fn new() -> (r: Self)
        ensures
            r.entries@.len() == 0,
            r.commit == 0,
            r.now is None,
            r.output is None,
            r.wf(),
    {
        Animations { entries: Vec::new(), commit: 0, now: None, output: None }
    }

    /// Drop every transition and forget the output they were on (the
    /// device's context changed or all resize animations were cancelled).
    pub fn clear(&mut self)
        ensures
            final(self).entries@.len() == 0,
            final(self).commit == old(self).commit,
            final(self).now == old(self).now,
            final(self).output is None,
            final(self).wf(),
    {
        self.entries.clear();
        self.output = None;
    }

    /// A new frame samples every timeline at `now` and draws with a fresh
    /// commit.
    pub fn begin_frame(&mut self, now: u64)
        ensures
            final(self).entries@ == old(self).entries@,
            final(self).now == Some(now),
            final(self).output == old(self).output,
            final(self).commit == next_commit(old(self).commit),
    {
        self.now = Some(now);
        self.commit = increment(self.commit);
    }

    /// Where `root`'s transition stands, if it has one.
    fn find(&self, root: u64) -> (r: Option<usize>)
        ensures
            r matches Some(k) ==> k < self.entries@.len() && self.entries@[k as int].root == root,
            r is None ==> forall|k: int| 0 <= k < self.entries@.len() ==> (#[trigger] self.entries@[k]).root != root,
    {
        let mut i: usize = 0;
        while i < self.entries.len()
            invariant
                i <= self.entries@.len(),
                forall|k: int| 0 <= k < i ==> (#[trigger] self.entries@[k]).root != root,
            decreases self.entries@.len() - i,
        {
            if self.entries[i].root == root {
                return Some(i);
            }
            i = i + 1;
        }
        None
    }

    /// Forget `root`'s transition, if it has one.
    pub fn remove(&mut self, root: u64)
        requires
            old(self).wf(),
        ensures
            final(self).wf(),
            (forall|k: int| 0 <= k < old(self).entries@.len() ==> (#[trigger] old(self).entries@[k]).root != root)
                ==> final(self).entries@ == old(self).entries@,
            forall|k: int| 0 <= k < old(self).entries@.len() && (#[trigger] old(self).entries@[k]).root == root
                ==> final(self).entries@ == old(self).entries@.remove(k),
            final(self).commit == old(self).commit,
            final(self).now == old(self).now,
            final(self).output == old(self).output,
    {
        match self.find(root) {
            None => {},
            Some(k) => {
                let ghost before = self.entries@;
                self.entries.remove(k);
                proof {
                    let after = self.entries@;
                    assert forall|a: int, b: int| 0 <= a < b < after.len() implies (#[trigger] after[a]).root != (#[trigger] after[b]).root by {
                        let a0 = if a < k { a } else { a + 1 };
                        let b0 = if b < k { b } else { b + 1 };
                        assert(after[a] == before[a0] && after[b] == before[b0]);
                        assert(before[a0].root != before[b0].root);
                    }
                }
            },
        }
    }

    /// `root`'s transition was drawn with `sample`, as `image`.
    pub fn drawn(&mut self, root: u64, sample: S, image: I)
        requires
            old(self).wf(),
        ensures
            final(self).wf(),
            (forall|k: int| 0 <= k < old(self).entries@.len() ==> (#[trigger] old(self).entries@[k]).root != root)
                ==> final(self).entries@ == old(self).entries@,
            forall|k: int| 0 <= k < old(self).entries@.len() && (#[trigger] old(self).entries@[k]).root == root
                ==> final(self).entries@ == old(self).entries@.update(k, Transition {
                    rendered: sample,
                    rendered_image: Some(image),
                    ..old(self).entries@[k]
                }),
            final(self).commit == old(self).commit,
            final(self).now == old(self).now,
            final(self).output == old(self).output,
    {
        match self.find(root) {
            None => {},
            Some(k) => {
                let ghost before = self.entries@;
                self.entries[k].rendered = sample;
                self.entries[k].rendered_image = Some(image);
                proof {
                    assert(self.entries@ =~= before.update(k as int, Transition {
                        rendered: sample,
                        rendered_image: Some(image),
                        ..before[k as int]
                    }));
                    assert forall|a: int, b: int| 0 <= a < b < self.entries@.len() implies
                        (#[trigger] self.entries@[a]).root != (#[trigger] self.entries@[b]).root by {
                        assert(self.entries@[a].root == before[a].root && self.entries@[b].root == before[b].root);
                    }
                }
            },
        }
    }

    /// Another configure arrived while `root`'s transition still waits for
    /// the client: it keeps its start geometry, content rectangle, capture
    /// time and samples, and waits for the newest serial. A direct
    /// transition draws live content, so it drops its snapshot and any
    /// blended image.
    pub fn keep_pending(&mut self, root: u64, serial: u32, direct: bool)
        requires
            old(self).wf(),
        ensures
            final(self).wf(),
            (forall|k: int| 0 <= k < old(self).entries@.len() ==> (#[trigger] old(self).entries@[k]).root != root)
                ==> final(self).entries@ == old(self).entries@,
            forall|k: int| 0 <= k < old(self).entries@.len() && (#[trigger] old(self).entries@[k]).root == root
                ==> final(self).entries@ == old(self).entries@.update(k, if direct {
                    Transition {
                        serial,
                        last_queued_image: None,
                        rendered_image: None,
                        snapshot: None,
                        ..old(self).entries@[k]
                    }
                } else {
                    Transition { serial, ..old(self).entries@[k] }
                }),
            final(self).commit == old(self).commit,
            final(self).now == old(self).now,
            final(self).output == old(self).output,
    {
        match self.find(root) {
            None => {},
            Some(k) => {
                let ghost before = self.entries@;
                self.entries[k].serial = serial;
                if direct {
                    self.entries[k].last_queued_image = None;
                    self.entries[k].rendered_image = None;
                    self.entries[k].snapshot = None;
                }
                proof {
                    assert forall|a: int, b: int| 0 <= a < b < self.entries@.len() implies
                        (#[trigger] self.entries@[a]).root != (#[trigger] self.entries@[b]).root by {
                        assert(self.entries@[a].root == before[a].root && self.entries@[b].root == before[b].root);
                    }
                }
            },
        }
    }

    /// Act on the plan for capturing a resize of `root` at configure
    /// `serial` (see `capture_plan`): nothing to animate ends the capture
    /// without a transition; a waiting transition keeps its start and
    /// tracks the newest serial, and the capture succeeds; over the budget
    /// drops `root`'s transition and the capture fails; starting a direct
    /// or snapshot transition is left to the caller.
    pub fn capture(&mut self, root: u64, serial: u32, plan: CapturePlan) -> (r: CaptureStep)
        requires
            old(self).wf(),
        ensures
            final(self).wf(),
            final(self).commit == old(self).commit,
            final(self).now == old(self).now,
            final(self).output == old(self).output,
            plan is Skip ==> (r == CaptureStep::Done(false) && final(self).entries@ == old(self).entries@),
            (plan matches CapturePlan::KeepPending { direct } ==> (r == CaptureStep::Done(true)
                && changed_at(old(self).entries@, root, final(self).entries@, |e: Transition<T, S, I, P>| kept_waiting(e, serial, direct)))),
            plan is Abandon ==> (r == CaptureStep::Done(false) && removed_at(old(self).entries@, root, final(self).entries@)),
            (plan matches CapturePlan::Direct { from } ==> (r == (CaptureStep::Direct { from }) && final(self).entries@ == old(self).entries@)),
            (plan matches CapturePlan::Snapshot { from, bounds } ==> (r == (CaptureStep::Snapshot { from, bounds })
                && final(self).entries@ == old(self).entries@)),
    {
        match plan {
            CapturePlan::Skip => CaptureStep::Done(false),
            CapturePlan::KeepPending { direct } => {
                self.keep_pending(root, serial, direct);
                CaptureStep::Done(true)
            },
            CapturePlan::Abandon => {
                self.remove(root);
                CaptureStep::Done(false)
            },
            CapturePlan::Direct { from } => CaptureStep::Direct { from },
            CapturePlan::Snapshot { from, bounds } => CaptureStep::Snapshot { from, bounds },
        }
    }

    /// Finish a direct or snapshot capture of `root`: with the start image
    /// (none for a direct transition) the fresh transition (see
    /// `Transition::fresh`) replaces any earlier one and the capture
    /// succeeds; when taking the snapshot failed, `root`'s transition is
    /// dropped and the error handed back.
    pub fn install<E>(
        &mut self,
        root: u64,
        serial: u32,
        from: Geometry,
        content_from: Rect,
        captured: u64,
        start: S,
        snapshot: Result<Option<P>, E>,
    ) -> (r: Result<bool, E>)
        requires
            old(self).wf(),
        ensures
            final(self).wf(),
            final(self).commit == old(self).commit,
            final(self).now == old(self).now,
            final(self).output == old(self).output,
            snapshot is Err ==> r == Err::<bool, E>(snapshot->Err_0) && removed_at(old(self).entries@, root, final(self).entries@),
            snapshot matches Ok(image) ==> r == Ok::<bool, E>(true) && ({
                let t = Transition::<T, S, I, P> {
                    root,
                    serial,
                    from,
                    content_from,
                    captured,
                    timeline: None,
                    last_queued: start,
                    rendered: start,
                    last_queued_image: None,
                    rendered_image: None,
                    snapshot: image,
                };
                &&& (forall|k: int| 0 <= k < old(self).entries@.len() ==> (#[trigger] old(self).entries@[k]).root != root)
                    ==> final(self).entries@ == old(self).entries@.push(t)
                &&& forall|k: int| 0 <= k < old(self).entries@.len() && (#[trigger] old(self).entries@[k]).root == root
                    ==> final(self).entries@ == old(self).entries@.update(k, t)
            }),
    {
        match snapshot {
            Err(e) => {
                self.remove(root);
                Err(e)
            },
            Ok(image) => {
                self.start(Transition::fresh(root, serial, from, content_from, captured, start, image));
                Ok(true)
            },
        }
    }

    /// The start of drawing window `root` (none when the window has no
    /// toplevel) into a frame. A changed GPU context drops every transition
    /// first. Without a transition or a compiled blend program the window is
    /// drawn normally; a transition whose window is off the output or
    /// entirely hidden by what lies in front is dropped; otherwise its blend
    /// frame is built within the snapshot budget left by the `retained`
    /// bytes.
    pub fn append(&mut self, context_changed: bool, root: Option<u64>, has_program: bool, visible: bool, retained: usize) -> (r: AppendStep)
        requires
            old(self).wf(),
        ensures
            final(self).wf(),
            final(self).commit == old(self).commit,
            final(self).now == old(self).now,
            final(self).output == (if context_changed { None } else { old(self).output }),
            !knows(cleared_if(old(self).entries@, context_changed), root) ==> r == AppendStep::Skip
                && final(self).entries@ == cleared_if(old(self).entries@, context_changed),
            knows(cleared_if(old(self).entries@, context_changed), root) && !has_program ==> r == AppendStep::Skip
                && final(self).entries@ == cleared_if(old(self).entries@, context_changed),
            knows(cleared_if(old(self).entries@, context_changed), root) && has_program && !visible ==> r == AppendStep::Skip
                && removed_at(cleared_if(old(self).entries@, context_changed), root->0, final(self).entries@),
            knows(cleared_if(old(self).entries@, context_changed), root) && has_program && visible ==> r
                == (AppendStep::Build { available: capture_room(retained) })
                && final(self).entries@ == cleared_if(old(self).entries@, context_changed),
    {
        if context_changed {
            self.clear();
            assert(self.entries@ =~= Seq::<Transition<T, S, I, P>>::empty());
        }
        let ghost start = self.entries@;
        assert(start == cleared_if(old(self).entries@, context_changed));
        let x = match root {
            None => {
                return AppendStep::Skip;
            },
            Some(x) => x,
        };
        let found = self.find(x);
        if let Some(k) = found {
            assert(self.entries@[k as int].root == x);
        }
        if found.is_none() || !has_program {
            return AppendStep::Skip;
        }
        if !visible {
            self.remove(x);
            assert(removed_at(start, x, self.entries@));
            return AppendStep::Skip;
        }
        let available = if retained >= MAX_SNAPSHOT_BYTES {
            0
        } else {
            MAX_SNAPSHOT_BYTES - retained
        };
        AppendStep::Build { available }
    }

    /// The blend frame of `root`'s transition was built for `sample`, or
    /// failed. A built image is handed back for drawing and a clone of it
    /// recorded as rendered with `sample`; a failure drops the transition.
    pub fn built<E>(&mut self, root: u64, sample: S, image: Result<I, E>) -> (r: Option<I>)
        requires
            old(self).wf(),
        ensures
            final(self).wf(),
            final(self).commit == old(self).commit,
            final(self).now == old(self).now,
            final(self).output == old(self).output,
            image is Err ==> r is None && removed_at(old(self).entries@, root, final(self).entries@),
            image matches Ok(img) ==> r == Some(img) && exists|c: I| cloned(img, c) && #[trigger] drawn_at(
                old(self).entries@,
                root,
                final(self).entries@,
                sample,
                c,
            ),
    {
        match image {
            Err(_) => {
                self.remove(root);
                None
            },
            Ok(img) => {
                let c = img.clone();
                self.drawn(root, sample, c);
                proof {
                    assert(drawn_at(old(self).entries@, root, self.entries@, sample, c));
                }
                Some(img)
            },
        }
    }

    /// Install `t` as its root's transition, replacing any earlier one.
    pub fn start(&mut self, t: Transition<T, S, I, P>)
        requires
            old(self).wf(),
        ensures
            final(self).wf(),
            (forall|k: int| 0 <= k < old(self).entries@.len() ==> (#[trigger] old(self).entries@[k]).root != t.root)
                ==> final(self).entries@ == old(self).entries@.push(t),
            forall|k: int| 0 <= k < old(self).entries@.len() && (#[trigger] old(self).entries@[k]).root == t.root
                ==> final(self).entries@ == old(self).entries@.update(k, t),
            final(self).commit == old(self).commit,
            final(self).now == old(self).now,
            final(self).output == old(self).output,
    {
        match self.find(t.root) {
            None => {
                self.entries.push(t);
            },
            Some(k) => {
                self.entries[k] = t;
            },
        }
    }

    /// Nothing was queued: every drawn transition was occluded. Running
    /// ones are dropped rather than asking for more empty frames; waiting
    /// ones stay.
    pub fn not_queued(&mut self)
        requires
            old(self).wf(),
        ensures
            final(self).entries@ == still_waiting(old(self).entries@),
            final(self).commit == old(self).commit,
            final(self).now == old(self).now,
            final(self).output == old(self).output,
            final(self).wf(),
    {
        let ghost before = self.entries@;
        let ghost p = |e: Transition<T, S, I, P>| waiting(e);
        let ghost mut j: int = 0;
        let mut i: usize = 0;
        while i < self.entries.len()
            invariant
                0 <= i <= j <= before.len(),
                self.entries@.len() == i + (before.len() - j),
                self.entries@.take(i as int) == before.take(j).filter(p),
                self.entries@.skip(i as int) == before.skip(j),
                self.commit == old(self).commit,
                self.now == old(self).now,
                self.output == old(self).output,
                p == (|e: Transition<T, S, I, P>| waiting(e)),
            decreases before.len() - j,
        {
            let ghost cur = self.entries@;
            proof {
                assert(cur[i as int] == cur.skip(i as int)[0]);
                assert(before.take(j + 1).drop_last() =~= before.take(j));
                assert(before.take(j + 1).last() == before[j]);
                assert(before[j] == before.skip(j)[0]);
                reveal(Seq::filter);
            }
            if self.entries[i].timeline.is_some() {
                self.entries.remove(i);
                proof {
                    assert(!p(before[j]));
                    assert(self.entries@.take(i as int) =~= cur.take(i as int));
                    assert forall|m: int| 0 <= m < before.len() - j - 1 implies
                        #[trigger] self.entries@.skip(i as int)[m] == before.skip(j + 1)[m] by {
                        assert(cur.skip(i as int)[m + 1] == before.skip(j)[m + 1]);
                    }
                    assert(self.entries@.skip(i as int) =~= before.skip(j + 1));
                    j = j + 1;
                }
            } else {
                proof {
                    assert(p(before[j]));
                    assert(self.entries@.take(i + 1) =~= cur.take(i as int).push(before[j]));
                    assert forall|m: int| 0 <= m < before.len() - j - 1 implies
                        #[trigger] self.entries@.skip(i + 1)[m] == before.skip(j + 1)[m] by {
                        assert(cur.skip(i as int)[m + 1] == before.skip(j)[m + 1]);
                    }
                    assert(self.entries@.skip(i + 1) =~= before.skip(j + 1));
                    j = j + 1;
                }
                i = i + 1;
            }
        }
        proof {
            assert(j == before.len());
            assert(before.take(j) =~= before);
            assert(self.entries@ =~= self.entries@.take(i as int));
            lemma_filter_distinct(before, p);
        }
    }

    /// The output went away or changed, or resize animations were turned
    /// off: every transition is cancelled. Whether there were any.
    pub fn reset(&mut self) -> (changed: bool)
        ensures
            changed == (old(self).entries@.len() > 0),
            final(self).entries@.len() == 0,
            final(self).commit == old(self).commit,
            final(self).now == old(self).now,
            final(self).output is None,
            final(self).wf(),
    {
        let changed = self.entries.len() > 0;
        self.clear();
        changed
    }

    /// Start reconciling the transitions with the output they are on.
    /// Without a mapped output (`signature` none) every transition is
    /// dropped and the output forgotten, and reconciliation ends: whether
    /// any transition existed. When the output's signature changed since
    /// the transitions were captured, or resize animations are turned off,
    /// every transition is dropped and the new signature kept before the
    /// fates are settled. Otherwise nothing changes yet.
    pub fn reconcile(&mut self, signature: Option<OutputSignature>, enabled: bool) -> (r: ReconcileStep)
        requires
            old(self).wf(),
        ensures
            final(self).wf(),
            final(self).commit == old(self).commit,
            final(self).now == old(self).now,
            signature is None ==> r == ReconcileStep::Done(old(self).entries@.len() > 0)
                && final(self).entries@.len() == 0 && final(self).output is None,
            (signature matches Some(s) ==> (if old(self).output != Some(s) || !enabled {
                &&& r == (ReconcileStep::Settle { reset: old(self).entries@.len() > 0 })
                &&& final(self).entries@.len() == 0
                &&& final(self).output == Some(s)
            } else {
                &&& r == (ReconcileStep::Settle { reset: false })
                &&& final(self).entries@ == old(self).entries@
                &&& final(self).output == old(self).output
            })),
    {
        match signature {
            None => {
                let changed = self.reset();
                ReconcileStep::Done(changed)
            },
            Some(s) => {
                let same = match self.output {
                    Some(o) => o == s,
                    None => false,
                };
                if !same || !enabled {
                    let changed = self.reset();
                    self.output = Some(s);
                    ReconcileStep::Settle { reset: changed }
                } else {
                    ReconcileStep::Settle { reset: false }
                }
            },
        }
    }

    /// Settle every transition by its fate (see `entry_fate`): dropped ones
    /// leave, started ones take the timeline built for them from their
    /// target, kept ones stay. Whether any transition changed.
    pub fn apply_fates(&mut self, fates: &Vec<Fate>, timelines: Vec<Option<T>>) -> (changed: bool)
        requires
            old(self).wf(),
            fates@.len() == old(self).entries@.len(),
            timelines@.len() == old(self).entries@.len(),
        ensures
            final(self).wf(),
            final(self).entries@ == settled(old(self).entries@, fates@, timelines@),
            changed == exists|i: int| 0 <= i < fates@.len() && #[trigger] fates@[i] != Fate::Keep,
            final(self).commit == old(self).commit,
            final(self).now == old(self).now,
            final(self).output == old(self).output,
    {
        let ghost before = self.entries@;
        let ghost lines = timelines@;
        let mut rest: Vec<Transition<T, S, I, P>> = Vec::new();
        std::mem::swap(&mut rest, &mut self.entries);
        let mut timelines = timelines;
        let mut kept: Vec<Transition<T, S, I, P>> = Vec::new();
        let mut changed = false;
        let mut j: usize = 0;
        while j < fates.len()
            invariant
                j <= fates@.len(),
                fates@.len() == before.len(),
                lines.len() == before.len(),
                distinct_roots(before),
                rest@ == before.skip(j as int),
                timelines@ == lines.skip(j as int),
                kept@ == settled(before.take(j as int), fates@.take(j as int), lines.take(j as int)),
                forall|k: int| 0 <= k < kept@.len() ==> exists|m: int| 0 <= m < j && #[trigger] kept@[k].root == before[m].root,
                distinct_roots(kept@),
                changed == exists|i: int| 0 <= i < j && #[trigger] fates@[i] != Fate::Keep,
                self.commit == old(self).commit,
                self.now == old(self).now,
                self.output == old(self).output,
            decreases fates@.len() - j,
        {
            let ghost kept0 = kept@;
            proof {
                assert(before.take(j + 1).drop_last() =~= before.take(j as int));
                assert(fates@.take(j + 1).drop_last() =~= fates@.take(j as int));
                assert(lines.take(j + 1).drop_last() =~= lines.take(j as int));
                assert(before.take(j + 1).last() == before[j as int]);
                assert(fates@.take(j + 1).last() == fates@[j as int]);
                assert(lines.take(j + 1).last() == lines[j as int]);
                assert(rest@[0] == before[j as int]);
                assert(timelines@[0] == lines[j as int]);
            }
            let mut entry = rest.remove(0);
            let timeline = timelines.remove(0);
            match fates[j] {
                Fate::Drop => {
                    changed = true;
                },
                Fate::Keep => {
                    kept.push(entry);
                },
                Fate::Start(_) => {
                    changed = true;
                    entry.timeline = timeline;
                    kept.push(entry);
                },
            }
            proof {
                assert(rest@ =~= before.skip(j + 1));
                assert(timelines@ =~= lines.skip(j + 1));
                assert forall|k: int| 0 <= k < kept@.len() implies exists|m: int| 0 <= m < j + 1 && #[trigger] kept@[k].root == before[m].root by {
                    if k < kept0.len() {
                        assert(kept@[k] == kept0[k]);
                        let m = choose|m: int| 0 <= m < j && kept0[k].root == before[m].root;
                        assert(kept@[k].root == before[m].root);
                    } else {
                        assert(kept@[k].root == before[j as int].root);
                    }
                }
                assert forall|a: int, b: int| 0 <= a < b < kept@.len() implies (#[trigger] kept@[a]).root != (#[trigger] kept@[b]).root by {
                    if b < kept0.len() {
                        assert(kept@[a] == kept0[a] && kept@[b] == kept0[b]);
                    } else {
                        assert(kept@[a] == kept0[a]);
                        let m = choose|m: int| 0 <= m < j && kept0[a].root == before[m].root;
                        assert(before[m].root != before[j as int].root);
                    }
                }
            }
            j = j + 1;
        }
        proof {
            assert(before.take(j as int) =~= before);
            assert(fates@.take(j as int) =~= fates@);
            assert(lines.take(j as int) =~= lines);
        }
        self.entries = kept;
        changed
    }

    /// When the earliest waiting transition expires: `PENDING_LIFETIME`
    /// after its capture; none while nothing waits.
    pub fn deadline(&self) -> (r: Option<u64>)
        requires
            forall|i: int| 0 <= i < self.entries@.len() ==> #[trigger] self.entries@[i].captured + PENDING_LIFETIME <= u64::MAX,
        ensures
            r is None <==> (forall|i: int| 0 <= i < self.entries@.len() ==> !waiting(#[trigger] self.entries@[i])),
            r matches Some(d) ==> (exists|i: int| 0 <= i < self.entries@.len() && waiting(#[trigger] self.entries@[i])
                && d == self.entries@[i].captured + PENDING_LIFETIME),
            r matches Some(d) ==> (forall|i: int| 0 <= i < self.entries@.len() && waiting(#[trigger] self.entries@[i])
                ==> d <= self.entries@[i].captured + PENDING_LIFETIME),
    {
        let mut best: Option<u64> = None;
        let mut i: usize = 0;
        while i < self.entries.len()
            invariant
                i <= self.entries@.len(),
                forall|k: int| 0 <= k < self.entries@.len() ==> #[trigger] self.entries@[k].captured + PENDING_LIFETIME <= u64::MAX,
                best is None <==> (forall|k: int| 0 <= k < i ==> !waiting(#[trigger] self.entries@[k])),
                best matches Some(d) ==> (exists|k: int| 0 <= k < i && waiting(#[trigger] self.entries@[k])
                    && d == self.entries@[k].captured + PENDING_LIFETIME),
                best matches Some(d) ==> (forall|k: int| 0 <= k < i && waiting(#[trigger] self.entries@[k])
                    ==> d <= self.entries@[k].captured + PENDING_LIFETIME),
            decreases self.entries@.len() - i,
        {
            if self.entries[i].timeline.is_none() {
                let due = self.entries[i].captured + PENDING_LIFETIME;
                best = match best {
                    Some(d) => if due < d { Some(due) } else { Some(d) },
                    None => Some(due),
                };
            }
            i = i + 1;
        }
        best
    }

    /// The frame was queued: what it drew is now what is displayed.
    pub fn queued(&mut self)
        ensures
            all_queued(old(self).entries@, final(self).entries@),
            final(self).commit == old(self).commit,
            final(self).now == old(self).now,
            final(self).output == old(self).output,
            old(self).wf() ==> final(self).wf(),
    {
        let ghost before = self.entries@;
        let mut i: usize = 0;
        while i < self.entries.len()
            invariant
                i <= self.entries@.len(),
                self.entries@.len() == before.len(),
                forall|k: int| 0 <= k < i ==> queued_entry(#[trigger] before[k], self.entries@[k]),
                forall|k: int| i <= k < before.len() ==> #[trigger] self.entries@[k] == before[k],
                self.commit == old(self).commit,
                self.now == old(self).now,
                self.output == old(self).output,
                before == old(self).entries@,
            decreases before.len() - i,
        {
            let rendered = self.entries[i].rendered;
            let image = self.entries[i].rendered_image.clone();
            self.entries[i].last_queued = rendered;
            self.entries[i].last_queued_image = image;
            i = i + 1;
        }
        proof {
            assert forall|a: int, b: int| 0 <= a < b < self.entries@.len() && distinct_roots(before)
                implies (#[trigger] self.entries@[a]).root != (#[trigger] self.entries@[b]).root by {
                assert(queued_entry(before[a], self.entries@[a]));
                assert(queued_entry(before[b], self.entries@[b]));
            }
        }
    }
}

} // verus!
