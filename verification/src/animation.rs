//! Resize animations: memory budgets of the snapshots, the fate of each
//! pending or running transition, which pixels stay opaque while two
//! images blend, and where an interactively resized surface is drawn.
use crate::geometry::{clamp_i32, extremities, min_i32, sat_add, sat_sub, shifted_back, Point, Rect, Size};
use vstd::prelude::*;

verus! {

/// Snapshots of all transitions together may retain at most 128 MiB.
pub const MAX_SNAPSHOT_BYTES: usize = 134217728;

/// A transition whose client never applies the resize is dropped after
/// two seconds (in nanoseconds).
pub const PENDING_LIFETIME: u64 = 2000000000;

/// Bytes of a 4-byte-per-pixel image of `bounds`, if that fits `usize`.
/// Extents are taken as `usize` the way a cast does it.
pub open spec fn image_bytes(bounds: Rect) -> Option<usize> {
    let w = bounds.size.w as usize;
    let h = bounds.size.h as usize;
    if w * h > usize::MAX || w * h * 4 > usize::MAX {
        None
    } else {
        Some((w * h * 4) as usize)
    }
}

pub fn snapshot_bytes(bounds: Rect) -> (r: Option<usize>)
    ensures
        r == image_bytes(bounds),
{
    let w = bounds.size.w as usize;
    let h = bounds.size.h as usize;
    match w.checked_mul(h) {
        Some(n) => n.checked_mul(4),
        None => None,
    }
}

/// An image of `bounds` fits into `available` bytes.
pub open spec fn fits(bounds: Rect, available: usize) -> bool {
    match image_bytes(bounds) {
        Some(b) => b <= available,
        None => false,
    }
}

pub fn snapshot_fits(bounds: Rect, available: usize) -> (r: bool)
    ensures
        r == fits(bounds, available),
{
    match snapshot_bytes(bounds) {
        Some(b) => b <= available,
        None => false,
    }
}

/// What a new snapshot may still use when `retained` bytes are held.
pub open spec fn capture_room(retained: usize) -> usize {
    if retained >= MAX_SNAPSHOT_BYTES {
        0
    } else {
        (MAX_SNAPSHOT_BYTES - retained) as usize
    }
}

/// The outcome of sizing a new snapshot of `bounds`.
#[derive(Clone, Copy, Debug, PartialEq, Eq, Structural)]
pub enum CaptureBudget {
    /// Nothing to capture.
    Empty,
    /// Over the shared budget: the transition is abandoned.
    TooLarge,
    Fits,
}

/// Whether a snapshot of `bounds` may be captured while `retained` bytes
/// are held by other snapshots.
pub fn capture_budget(bounds: Rect, retained: usize) -> (r: CaptureBudget)
    ensures
        r == (if bounds.empty() {
            CaptureBudget::Empty
        } else if fits(bounds, capture_room(retained)) {
            CaptureBudget::Fits
        } else {
            CaptureBudget::TooLarge
        }),
{
    if bounds.is_empty() {
        return CaptureBudget::Empty;
    }
    let room = if retained >= MAX_SNAPSHOT_BYTES {
        0
    } else {
        MAX_SNAPSHOT_BYTES - retained
    };
    if snapshot_fits(bounds, room) {
        CaptureBudget::Fits
    } else {
        CaptureBudget::TooLarge
    }
}

/// The snapshots stay within their shared budget: a capture that fits adds
/// an image that keeps the total at or below `MAX_SNAPSHOT_BYTES`.
pub proof fn lemma_budget_bounds_total(bounds: Rect, retained: usize)
    requires
        retained <= MAX_SNAPSHOT_BYTES,
        !bounds.empty() && fits(bounds, capture_room(retained)),
    ensures
        retained + image_bytes(bounds)->0 <= MAX_SNAPSHOT_BYTES,
{
}

/// Whether the live image of a running blend may be captured into
/// `available` bytes: it must have area and fit both that and the cap.
pub fn live_image_fits(bounds: Rect, available: usize) -> (r: bool)
    ensures
        r == (!bounds.empty() && fits(
            bounds,
            if available <= MAX_SNAPSHOT_BYTES {
                available
            } else {
                MAX_SNAPSHOT_BYTES
            },
        )),
{
    let cap = if available <= MAX_SNAPSHOT_BYTES {
        available
    } else {
        MAX_SNAPSHOT_BYTES
    };
    !bounds.is_empty() && snapshot_fits(bounds, cap)
}

/// Where a blend is between its two images.
#[derive(Clone, Copy, Debug, PartialEq, Eq, Structural)]
pub enum BlendPhase {
    /// Progress at or below zero: only the old image shows.
    Start,
    /// Strictly between: both images mix.
    Between,
    /// Progress at or above one: only the new image shows.
    End,
}

/// Pairwise overlaps of `olds` with `currents`, old-major.
pub open spec fn overlaps_of(olds: Seq<Rect>, currents: Seq<Rect>) -> Seq<Rect>
    decreases olds.len(),
{
    if olds.len() == 0 {
        Seq::empty()
    } else {
        overlaps_of(olds.drop_last(), currents) + meets_with(olds.last(), currents)
    }
}

/// The overlaps of `old` with each of `currents`, in order.
pub open spec fn meets_with(old: Rect, currents: Seq<Rect>) -> Seq<Rect>
    decreases currents.len(),
{
    if currents.len() == 0 {
        Seq::empty()
    } else {
        match old.meet(currents.last()) {
            Some(m) => meets_with(old, currents.drop_last()).push(m),
            None => meets_with(old, currents.drop_last()),
        }
    }
}

fn meets_into(out: &mut Vec<Rect>, earlier: Rect, currents: &Vec<Rect>)
    ensures
        final(out)@ == old(out)@ + meets_with(earlier, currents@),
{
    let ghost start = out@;
    let mut j: usize = 0;
    while j < currents.len()
        invariant
            j <= currents@.len(),
            out@ == start + meets_with(earlier, currents@.subrange(0, j as int)),
        decreases currents@.len() - j,
    {
        assert(currents@.subrange(0, j + 1).drop_last() == currents@.subrange(0, j as int));
        match earlier.intersection(&currents[j]) {
            Some(m) => {
                out.push(m);
            },
            None => {},
        }
        j = j + 1;
    }
    assert(currents@.subrange(0, currents@.len() as int) == currents@);
}

/// The regions of a blend that are opaque: those of the image that alone
/// shows, or, while both mix, only where both images are opaque.
pub fn blend_opaque(olds: Vec<Rect>, currents: Vec<Rect>, phase: BlendPhase) -> (r: Vec<Rect>)
    ensures
        r@ == (match phase {
            BlendPhase::Start => olds@,
            BlendPhase::End => currents@,
            BlendPhase::Between => overlaps_of(olds@, currents@),
        }),
{
    match phase {
        BlendPhase::Start => olds,
        BlendPhase::End => currents,
        BlendPhase::Between => {
            let mut out: Vec<Rect> = Vec::new();
            let mut i: usize = 0;
            while i < olds.len()
                invariant
                    i <= olds@.len(),
                    out@ == overlaps_of(olds@.subrange(0, i as int), currents@),
                decreases olds@.len() - i,
            {
                assert(olds@.subrange(0, i + 1).drop_last() == olds@.subrange(0, i as int));
                meets_into(&mut out, olds[i], &currents);
                i = i + 1;
            }
            assert(olds@.subrange(0, olds@.len() as int) == olds@);
            out
        },
    }
}

/// What building one blend frame of a transition needs, before anything
/// is drawn.
#[derive(Clone, Copy, Debug, PartialEq, Eq, Structural)]
pub enum BlendPlan {
    /// The transition has no start image to blend from.
    NoSnapshot,
    /// The window has no visible content rectangle.
    NoContent,
    /// The live image would not fit the memory left for it.
    TooLarge,
    /// At or before the start: the start image also serves as the current
    /// one, and no live content is sampled.
    ReuseStart,
    /// Capture the window's live content into the frame's `bounds`.
    CaptureLive,
}

/// A blend frame past its start always shows the live content when it can
/// (a start image, visible content and a live image that fits); the start
/// image serves as the current one exactly at the start.
pub proof fn lemma_blend_shows_live_content_past_start(has_snapshot: bool, has_content: bool, phase: BlendPhase, bounds: Rect, available: usize)
    ensures
        (blend_plan_of(has_snapshot, has_content, phase, bounds, available) == BlendPlan::ReuseStart)
            <==> (has_snapshot && has_content && phase == BlendPhase::Start),
        has_snapshot && has_content && phase != BlendPhase::Start && !bounds.empty() && image_bytes(bounds) is Some
            && image_bytes(bounds)->0 <= available && image_bytes(bounds)->0 <= MAX_SNAPSHOT_BYTES
            ==> blend_plan_of(has_snapshot, has_content, phase, bounds, available) == BlendPlan::CaptureLive,
        blend_plan_of(has_snapshot, has_content, phase, bounds, available) == BlendPlan::CaptureLive ==> phase
            != BlendPhase::Start && has_snapshot && has_content,
{
}

pub open spec fn blend_plan_of(has_snapshot: bool, has_content: bool, phase: BlendPhase, bounds: Rect, available: usize) -> BlendPlan {
    if !has_snapshot {
        BlendPlan::NoSnapshot
    } else if !has_content {
        BlendPlan::NoContent
    } else if phase is Start {
        BlendPlan::ReuseStart
    } else if !(!bounds.empty() && fits(bounds, if available <= MAX_SNAPSHOT_BYTES { available } else { MAX_SNAPSHOT_BYTES })) {
        BlendPlan::TooLarge
    } else {
        BlendPlan::CaptureLive
    }
}

/// The plan of one blend frame: a transition without a start image or a
/// window without content cannot blend; at or before the start the start
/// image is reused; later the live content of the interpolated `bounds` is
/// captured, if it fits `available` bytes and the shared cap.
pub fn blend_plan(has_snapshot: bool, has_content: bool, phase: BlendPhase, bounds: Rect, available: usize) -> (r: BlendPlan)
    ensures
        r == blend_plan_of(has_snapshot, has_content, phase, bounds, available),
{
    if !has_snapshot {
        return BlendPlan::NoSnapshot;
    }
    if !has_content {
        return BlendPlan::NoContent;
    }
    if let BlendPhase::Start = phase {
        return BlendPlan::ReuseStart;
    }
    if live_image_fits(bounds, available) {
        BlendPlan::CaptureLive
    } else {
        BlendPlan::TooLarge
    }
}

/// One blend frame: the start image, the current image, where they are
/// drawn, the commit they are drawn under, the live regions sampled into
/// the current image and the opaque regions of the mix.
pub struct BlendFrame<P, L> {
    pub old: P,
    pub current: P,
    pub bounds: Rect,
    pub commit: usize,
    pub live: Vec<L>,
    pub opaque: Vec<Rect>,
}

/// Assemble a blend frame from the transition's start image `snapshot`
/// and, past the start, the `captured` live image with its live regions;
/// at the start the start image also serves as the current one and no
/// live region is sampled. The opaque regions are those of `blend_opaque`
/// over the two images' opaque regions scaled to `bounds`.
pub fn blend_frame<P: Clone, L>(
    snapshot: &P,
    bounds: Rect,
    commit: usize,
    phase: BlendPhase,
    captured: Option<(P, Vec<L>)>,
    old_opaque: Vec<Rect>,
    current_opaque: Vec<Rect>,
) -> (r: BlendFrame<P, L>)
    ensures
        cloned(*snapshot, r.old),
        r.bounds == bounds,
        r.commit == commit,
        match captured {
            None => cloned(*snapshot, r.current) && r.live@.len() == 0,
            Some((image, live)) => r.current == image && r.live@ == live@,
        },
        r.opaque@ == (match phase {
            BlendPhase::Start => old_opaque@,
            BlendPhase::End => current_opaque@,
            BlendPhase::Between => overlaps_of(old_opaque@, current_opaque@),
        }),
{
    let (current, live) = match captured {
        Some((image, live)) => (image, live),
        None => (snapshot.clone(), Vec::new()),
    };
    let opaque = blend_opaque(old_opaque, current_opaque, phase);
    BlendFrame { old: snapshot.clone(), current, bounds, commit, live, opaque }
}

/// Where an interactively resized surface is drawn. The main surface keeps
/// its natural size when it is undersized (`small`), else fills `target`;
/// other surfaces keep their offset from the window and their size. Either
/// is squeezed only where it overflows the target's right or bottom edge.
pub open spec fn destination_of(source: Rect, window: Rect, target: Rect, main: bool, small: bool) -> Rect {
    let placed = if main {
        Rect { loc: target.loc, size: if small { source.size } else { target.size } }
    } else {
        Rect {
            loc: Point {
                x: clamp_i32(target.loc.x + clamp_i32(source.loc.x - window.loc.x)),
                y: clamp_i32(target.loc.y + clamp_i32(source.loc.y - window.loc.y)),
            },
            size: source.size,
        }
    };
    let room_w = target.loc.x + target.size.w - placed.loc.x;
    let room_h = target.loc.y + target.size.h - placed.loc.y;
    Rect {
        loc: placed.loc,
        size: Size {
            w: if placed.size.w <= room_w { placed.size.w } else { room_w as i32 },
            h: if placed.size.h <= room_h { placed.size.h } else { room_h as i32 },
        },
    }
}

/// The room arithmetic of `destination` stays within `i32`.
pub open spec fn destination_fits(source: Rect, window: Rect, target: Rect, main: bool) -> bool {
    let loc = if main {
        target.loc
    } else {
        Point {
            x: clamp_i32(target.loc.x + clamp_i32(source.loc.x - window.loc.x)),
            y: clamp_i32(target.loc.y + clamp_i32(source.loc.y - window.loc.y)),
        }
    };
    &&& i32::MIN <= target.loc.x + target.size.w <= i32::MAX
    &&& i32::MIN <= target.loc.y + target.size.h <= i32::MAX
    &&& i32::MIN <= target.loc.x + target.size.w - loc.x <= i32::MAX
    &&& i32::MIN <= target.loc.y + target.size.h - loc.y <= i32::MAX
}

/// An interactively resized surface never reaches past its allocation's
/// right or bottom edge, and is squeezed only there: its extent is the one
/// it asks for (the allocation's for a full-size main surface, its own
/// otherwise), cut to the room left between its corner and the allocation's
/// far edges, and kept whole when it fits.
pub proof fn lemma_destination_squeezes_only_overflow(source: Rect, window: Rect, target: Rect, main: bool, small: bool)
    requires
        destination_fits(source, window, target, main),
    ensures
        ({
            let r = destination_of(source, window, target, main, small);
            let want_w = if main && !small { target.size.w } else { source.size.w };
            let want_h = if main && !small { target.size.h } else { source.size.h };
            let room_w = target.loc.x + target.size.w - r.loc.x;
            let room_h = target.loc.y + target.size.h - r.loc.y;
            &&& r.size.w <= want_w && r.size.w <= room_w
            &&& r.size.h <= want_h && r.size.h <= room_h
            &&& (r.size.w == want_w || r.size.w == room_w)
            &&& (r.size.h == want_h || r.size.h == room_h)
            &&& r.loc.x + r.size.w <= target.loc.x + target.size.w
            &&& r.loc.y + r.size.h <= target.loc.y + target.size.h
            &&& (main ==> r.loc == target.loc)
        }),
{
}

pub fn destination(source: Rect, window: Rect, target: Rect, main: bool, small: bool) -> (r: Rect)
    requires
        destination_fits(source, window, target, main),
    ensures
        r == destination_of(source, window, target, main, small),
{
    let placed = if main {
        Rect { loc: target.loc, size: if small { source.size } else { target.size } }
    } else {
        Rect {
            loc: Point {
                x: sat_add(target.loc.x, sat_sub(source.loc.x, window.loc.x)),
                y: sat_add(target.loc.y, sat_sub(source.loc.y, window.loc.y)),
            },
            size: source.size,
        }
    };
    let w = min_i32(placed.size.w, target.loc.x + target.size.w - placed.loc.x);
    let h = min_i32(placed.size.h, target.loc.y + target.size.h - placed.loc.y);
    Rect { loc: placed.loc, size: Size { w, h } }
}

/// Opaque coverage carried into a scaled element, once its edges were
/// rounded inward to `lo` and `hi`: none when the rounding leaves nothing
/// or the region misses `element`, else the part inside `element`,
/// relative to it.
pub fn projected_opaque(lo: Point, hi: Point, element: Rect) -> (r: Option<Rect>)
    ensures
        r == (if hi.x <= lo.x || hi.y <= lo.y {
            None
        } else {
            match extremities(lo, hi).meet(element) {
                Some(m) => Some(shifted_back(m, element.loc)),
                None => None,
            }
        }),
{
    if hi.x <= lo.x || hi.y <= lo.y {
        return None;
    }
    match Rect::from_extremities(lo, hi).intersection(&element) {
        Some(m) => Some(
            Rect { loc: Point { x: sat_sub(m.loc.x, element.loc.x), y: sat_sub(m.loc.y, element.loc.y) }, size: m.size },
        ),
        None => None,
    }
}

/// A window's frame and client rectangles.
#[derive(Clone, Copy, Debug, PartialEq, Eq, Structural)]
pub struct Geometry {
    pub frame: Rect,
    pub client: Rect,
}

/// What reconciliation learns about one transition.
#[derive(Clone, Copy, Debug)]
pub struct EntryFacts {
    /// The root surface still exists.
    pub alive: bool,
    /// Its window is visible, with this geometry if it has one.
    pub visible: bool,
    pub target: Option<Geometry>,
    /// The geometry a running timeline heads to; none while pending.
    pub timeline_target: Option<Geometry>,
    /// The last queued frame reached the end of the timeline.
    pub finished: bool,
    /// The client applied the configure that the transition waits for.
    pub applied: bool,
    /// A layout transaction still pins the displayed frame.
    pub pinned: bool,
    /// The geometry the transition starts from.
    pub from: Geometry,
    /// Nanoseconds since the snapshot was captured.
    pub elapsed: u64,
}

/// What becomes of a transition.
#[derive(Clone, Copy, Debug, PartialEq, Eq, Structural)]
pub enum Fate {
    /// Cancelled, finished or expired: dropped, and the scene changed.
    Drop,
    /// Left as it is.
    Keep,
    /// The resize was applied: a timeline from `from` to the target starts.
    Start(Geometry),
}

pub open spec fn fate_of(f: EntryFacts) -> Fate {
    if !f.alive || !f.visible {
        Fate::Drop
    } else {
        match f.target {
            None => Fate::Drop,
            Some(target) => match f.timeline_target {
                Some(heading) => if f.finished || target != heading {
                    Fate::Drop
                } else {
                    Fate::Keep
                },
                None => if f.applied && !f.pinned {
                    if target == f.from {
                        Fate::Drop
                    } else {
                        Fate::Start(target)
                    }
                } else if f.elapsed >= PENDING_LIFETIME {
                    Fate::Drop
                } else {
                    Fate::Keep
                },
            },
        }
    }
}

/// The fate of one transition. A running timeline ends when its last
/// frame was queued or its window's target moved; a pending one starts
/// once the client applied the resize and no transaction pins the frame
/// (unless nothing moves), and expires after `PENDING_LIFETIME`.
pub fn entry_fate(f: &EntryFacts) -> (r: Fate)
    ensures
        r == fate_of(*f),
{
    if !f.alive || !f.visible {
        return Fate::Drop;
    }
    let target = match f.target {
        None => {
            return Fate::Drop;
        },
        Some(t) => t,
    };
    match f.timeline_target {
        Some(heading) => {
            if f.finished || target != heading {
                Fate::Drop
            } else {
                Fate::Keep
            }
        },
        None => {
            if f.applied && !f.pinned {
                if target == f.from {
                    Fate::Drop
                } else {
                    Fate::Start(target)
                }
            } else if f.elapsed >= PENDING_LIFETIME {
                Fate::Drop
            } else {
                Fate::Keep
            }
        },
    }
}

/// The fates of all transitions, and whether any of them changes the scene.
pub fn reconcile(entries: &Vec<EntryFacts>) -> (r: (Vec<Fate>, bool))
    ensures
        r.0@.len() == entries@.len(),
        forall|i: int| 0 <= i < entries@.len() ==> r.0@[i] == fate_of(#[trigger] entries@[i]),
        r.1 == exists|i: int| 0 <= i < entries@.len() && fate_of(#[trigger] entries@[i]) != Fate::Keep,
{
    let mut fates: Vec<Fate> = Vec::new();
    let mut changed = false;
    let mut i: usize = 0;
    while i < entries.len()
        invariant
            i <= entries@.len(),
            fates@.len() == i,
            forall|j: int| 0 <= j < i ==> fates@[j] == fate_of(#[trigger] entries@[j]),
            changed == exists|j: int| 0 <= j < i && fate_of(#[trigger] entries@[j]) != Fate::Keep,
        decreases entries@.len() - i,
    {
        let fate = entry_fate(&entries[i]);
        if fate != Fate::Keep {
            changed = true;
        }
        fates.push(fate);
        i = i + 1;
    }
    (fates, changed)
}

/// What capturing a resize learns about an existing transition of the
/// same window.
#[derive(Clone, Copy, Debug)]
pub struct Existing {
    /// No timeline runs yet: the resize is still waiting for the client.
    pub pending: bool,
    /// The geometry of the last queued frame.
    pub queued_geometry: Geometry,
    /// The content rectangle of the last queued blend, if one was queued.
    pub queued_image: Option<Rect>,
    /// The content rectangle the transition started from.
    pub content_from: Rect,
}

/// What capturing a resize learns about the window and its output.
#[derive(Clone, Copy, Debug)]
pub struct CaptureFacts {
    /// The output is mapped in the space.
    pub on_output: bool,
    /// The resized root belongs to a visible window.
    pub window: bool,
    /// The window's current geometry, if it has one.
    pub current: Option<Geometry>,
    /// Live content is drawn directly instead of blending snapshots.
    pub direct: bool,
    /// The transition already recorded for this window, if any.
    pub existing: Option<Existing>,
    /// The window's current content rectangle on the output, if any.
    pub content: Option<Rect>,
    /// Bytes held by all snapshots.
    pub retained: usize,
}

/// What to do with a resize that is about to be committed.
#[derive(Clone, Copy, Debug, PartialEq, Eq, Structural)]
pub enum CapturePlan {
    /// Nothing to animate.
    Skip,
    /// A transition is already waiting: keep its start geometry and image,
    /// only track the newest serial; a direct one also refreshes its content.
    KeepPending { direct: bool },
    /// Start a direct transition from this geometry.
    Direct { from: Geometry },
    /// Over the snapshot budget: drop any transition of this window.
    Abandon,
    /// Snapshot `bounds` and start from `from`: the queued blend is reused
    /// when there is one, else the last queued frame is rebuilt, else the
    /// window's content is drawn.
    Snapshot { from: Geometry, bounds: Rect },
}

pub open spec fn capture_plan_of(f: CaptureFacts) -> CapturePlan {
    if !f.on_output || !f.window || f.current is None {
        CapturePlan::Skip
    } else if f.existing matches Some(e) && e.pending {
        CapturePlan::KeepPending { direct: f.direct }
    } else {
        let from = match f.existing {
            Some(e) => e.queued_geometry,
            None => f.current->0,
        };
        if f.direct {
            CapturePlan::Direct { from }
        } else if f.content is None {
            CapturePlan::Skip
        } else {
            // Interrupted transitions restart from the exact content that
            // was queued, independently of the frame animation around it.
            let bounds = match f.existing {
                Some(e) => match e.queued_image {
                    Some(b) => b,
                    None => e.content_from,
                },
                None => f.content->0,
            };
            if bounds.empty() {
                CapturePlan::Skip
            } else if !fits(bounds, capture_room(f.retained)) {
                CapturePlan::Abandon
            } else {
                CapturePlan::Snapshot { from, bounds }
            }
        }
    }
}

/// A transition that starts (direct or from a snapshot) starts where the
/// window last showed: from the last queued frame of the transition it
/// interrupts, else from the window's current geometry. A live (direct)
/// window never snapshots, and a waiting transition is never restarted.
pub proof fn lemma_capture_starts_where_shown(f: CaptureFacts)
    ensures
        capture_plan_of(f) matches CapturePlan::Direct { from } ==> from == (match f.existing {
            Some(e) => e.queued_geometry,
            None => f.current->0,
        }) && f.direct,
        capture_plan_of(f) matches CapturePlan::Snapshot { from, bounds } ==> from == (match f.existing {
            Some(e) => e.queued_geometry,
            None => f.current->0,
        }) && !f.direct && !bounds.empty() && bounds == (match f.existing {
            Some(e) => match e.queued_image {
                Some(b) => b,
                None => e.content_from,
            },
            None => f.content->0,
        }) && fits(bounds, capture_room(f.retained)),
        capture_plan_of(f) is Abandon ==> !f.direct && f.content is Some,
        (f.existing matches Some(e) && e.pending && f.on_output && f.window && f.current is Some) ==> capture_plan_of(f)
            == (CapturePlan::KeepPending { direct: f.direct }),
        (f.on_output && f.window && f.current is Some && f.direct && !(f.existing matches Some(e) && e.pending))
            ==> capture_plan_of(f) is Direct,
{
}

/// The decisions of capturing a resize animation before the client's new
/// state is installed.
pub fn capture_plan(f: &CaptureFacts) -> (r: CapturePlan)
    ensures
        r == capture_plan_of(*f),
{
    if !f.on_output || !f.window {
        return CapturePlan::Skip;
    }
    let current = match f.current {
        None => {
            return CapturePlan::Skip;
        },
        Some(c) => c,
    };
    if let Some(e) = f.existing {
        if e.pending {
            return CapturePlan::KeepPending { direct: f.direct };
        }
    }
    let from = match f.existing {
        Some(e) => e.queued_geometry,
        None => current,
    };
    if f.direct {
        return CapturePlan::Direct { from };
    }
    let content = match f.content {
        None => {
            return CapturePlan::Skip;
        },
        Some(c) => c,
    };
    let bounds = match f.existing {
        Some(e) => match e.queued_image {
            Some(b) => b,
            None => e.content_from,
        },
        None => content,
    };
    match capture_budget(bounds, f.retained) {
        CaptureBudget::Empty => CapturePlan::Skip,
        CaptureBudget::TooLarge => CapturePlan::Abandon,
        CaptureBudget::Fits => CapturePlan::Snapshot { from, bounds },
    }
}

} // verus!
