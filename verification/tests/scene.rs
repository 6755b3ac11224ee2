use raven_render::animation::{
    blend_frame, blend_opaque, blend_plan, capture_budget, capture_plan, BlendPlan, destination, projected_opaque, entry_fate, live_image_fits,
    reconcile, snapshot_bytes, BlendPhase, CaptureBudget, CaptureFacts,
    CapturePlan, EntryFacts, Existing, Fate, Geometry, MAX_SNAPSHOT_BYTES, PENDING_LIFETIME,
};
use raven_render::borders::{border_stripes, stripes};
use raven_render::geometry::{Point, Rect, Size};
use raven_render::rounded::{
    masked_damage, opaque_regions, ColorBits, Damage, Layer, MaskCache, MaskKey, MaskedSurface, RingCommit,
    RingKey, RoundedLayer,
};
use raven_render::outcome::RenderOutcome;
use raven_render::program::source;
use raven_render::retention::{retained_bytes, Held};
use raven_render::scene::{Pass, PassStep, RenderAction, RenderStep, Scene};
use raven_render::transitions::{
    AppendStep, Animations, CaptureStep, OutputSignature, ReconcileStep, Transition,
};
use raven_render::screenshot::{
    band_clips, dim_regions, element_damage, notice_box, Overlay, outline_regions, AfterFrame, Capture, Handles, Phase,
};

fn rect(x: i32, y: i32, w: i32, h: i32) -> Rect {
    Rect::new(x, y, w, h)
}

fn contains_any(regions: &[Rect], x: i32, y: i32) -> bool {
    regions.iter().any(|r| r.contains(Point { x, y }))
}

#[test]
fn stable_masks_keep_commits_and_corner_cutouts_are_not_opaque() {
    let mut source = 0usize;
    let bounds = rect(10, 20, 100, 80);
    let shape = MaskKey { bounds, radius_bits: 16.0f32.to_bits() };
    let mut surface = MaskedSurface::new(source, shape);
    let first = surface.update(source, shape);
    assert_eq!(first, surface.update(source, shape));
    source += 1;
    let second = surface.update(source, shape);
    assert_ne!(first, second);
    let moved = MaskKey { bounds: rect(11, 20, bounds.size.w, bounds.size.h), radius_bits: 16.0f32.to_bits() };
    assert_ne!(second, surface.update(source, moved));
    let opaque = opaque_regions(&vec![rect(0, 0, bounds.size.w, bounds.size.h)], bounds.loc, bounds, 16);
    assert!(!contains_any(&opaque, 0, 0));
    assert!(contains_any(&opaque, 50, 40));
}

#[test]
fn content_only_changes_keep_inner_damage() {
    let shape = MaskKey { bounds: rect(0, 0, 10, 10), radius_bits: 0 };
    let mut s = MaskedSurface::new(5, shape);
    assert_eq!(s.update(5, shape), (0, None));
    assert_eq!(s.update(6, shape), (1, Some((0, 5))));
    assert_eq!(masked_damage(1, Some((0, 5)), Some(1)), Damage::Nothing);
    assert_eq!(masked_damage(1, Some((0, 5)), Some(0)), Damage::Inner(5));
    assert_eq!(masked_damage(1, Some((0, 5)), None), Damage::Full);
    let other = MaskKey { bounds: rect(0, 0, 12, 10), radius_bits: 0 };
    assert_eq!(s.update(6, other), (2, None));
    assert_eq!(masked_damage(2, None, Some(1)), Damage::Full);
    // Commits wrap like the compositor's commit counter.
    let mut w = MaskedSurface { source: 0, mask: shape, commit: usize::MAX, previous: None };
    assert_eq!(w.update(1, shape), (0, Some((usize::MAX, 0))));
}

#[test]
fn ring_commit_changes_only_with_its_look() {
    let a = MaskKey { bounds: rect(0, 0, 10, 10), radius_bits: 1 };
    let c = ColorBits { r: 1, g: 2, b: 3, a: 4 };
    let key = RingKey { outer: a, color: c, inner: a };
    let mut ring = RingCommit::new(key);
    assert_eq!(ring.update(key), 0);
    let darker = RingKey { color: ColorBits { a: 5, ..c }, ..key };
    assert_eq!(ring.update(darker), 1);
    assert_eq!(ring.update(darker), 1);
}

#[test]
fn border_stripes_own_corners_and_clip() {
    let frame = rect(0, 0, 100, 80);
    let client = rect(10, 10, 80, 60);
    let out = stripes(frame, client, rect(0, 0, 1000, 1000));
    assert_eq!(
        out,
        vec![
            (0, rect(0, 0, 100, 10)),
            (1, rect(0, 70, 100, 10)),
            (2, rect(0, 10, 10, 60)),
            (3, rect(90, 10, 10, 60)),
        ]
    );
    // Clipped by the output: the left stripe disappears.
    let out = stripes(frame, client, rect(20, 0, 1000, 1000));
    assert_eq!(
        out,
        vec![(0, rect(20, 0, 80, 10)), (1, rect(20, 70, 80, 10)), (3, rect(90, 10, 10, 60))]
    );
}

#[test]
fn snapshot_budget() {
    assert_eq!(snapshot_bytes(rect(0, 0, 10, 20)), Some(800));
    assert_eq!(snapshot_bytes(rect(0, 0, -1, 2)), None);
    assert_eq!(capture_budget(rect(0, 0, 0, 5), 0), CaptureBudget::Empty);
    assert_eq!(capture_budget(rect(0, 0, 4096, 8192), 0), CaptureBudget::Fits);
    assert_eq!(capture_budget(rect(0, 0, 4096, 8192), 1), CaptureBudget::TooLarge);
    assert_eq!(capture_budget(rect(0, 0, 1, 1), MAX_SNAPSHOT_BYTES + 5), CaptureBudget::TooLarge);
    assert!(live_image_fits(rect(0, 0, 2, 2), 16));
    assert!(!live_image_fits(rect(0, 0, 2, 2), 15));
    assert!(!live_image_fits(rect(0, 0, 0, 2), 16));
    assert!(!live_image_fits(rect(0, 0, 4096, 8193), usize::MAX));
}

#[test]
fn blend_opaque_regions() {
    let olds = vec![rect(0, 0, 10, 10), rect(20, 0, 10, 10)];
    let currents = vec![rect(5, 5, 20, 20)];
    assert_eq!(blend_opaque(olds.clone(), currents.clone(), BlendPhase::Start), olds);
    assert_eq!(blend_opaque(olds.clone(), currents.clone(), BlendPhase::End), currents);
    assert_eq!(
        blend_opaque(olds, currents, BlendPhase::Between),
        vec![rect(5, 5, 5, 5), rect(20, 5, 5, 5)]
    );
}

#[test]
fn floating_destination_squeezes_only_overflow() {
    let target = rect(100, 100, 50, 40);
    let window = rect(0, 0, 60, 60);
    // The main surface fills the target unless undersized.
    assert_eq!(destination(rect(0, 0, 60, 60), window, target, true, false), target);
    assert_eq!(destination(rect(0, 0, 30, 20), window, target, true, true), rect(100, 100, 30, 20));
    // A child keeps its offset and size, squeezed at the right edge.
    assert_eq!(destination(rect(40, 10, 20, 10), window, target, false, false), rect(140, 110, 10, 10));
}

fn geometry(w: i32) -> Geometry {
    Geometry { frame: rect(0, 0, w, 10), client: rect(1, 1, w - 2, 8) }
}

fn facts() -> EntryFacts {
    EntryFacts {
        alive: true,
        visible: true,
        target: Some(geometry(20)),
        timeline_target: None,
        finished: false,
        applied: false,
        pinned: false,
        from: geometry(10),
        elapsed: 0,
    }
}

#[test]
fn transition_fates() {
    assert_eq!(entry_fate(&facts()), Fate::Keep);
    assert_eq!(entry_fate(&EntryFacts { alive: false, ..facts() }), Fate::Drop);
    assert_eq!(entry_fate(&EntryFacts { target: None, ..facts() }), Fate::Drop);
    assert_eq!(entry_fate(&EntryFacts { applied: true, ..facts() }), Fate::Start(geometry(20)));
    assert_eq!(entry_fate(&EntryFacts { applied: true, pinned: true, ..facts() }), Fate::Keep);
    assert_eq!(
        entry_fate(&EntryFacts { applied: true, target: Some(geometry(10)), ..facts() }),
        Fate::Drop
    );
    assert_eq!(entry_fate(&EntryFacts { elapsed: PENDING_LIFETIME, ..facts() }), Fate::Drop);
    let running = EntryFacts { timeline_target: Some(geometry(20)), ..facts() };
    assert_eq!(entry_fate(&running), Fate::Keep);
    assert_eq!(entry_fate(&EntryFacts { finished: true, ..running }), Fate::Drop);
    assert_eq!(entry_fate(&EntryFacts { target: Some(geometry(30)), ..running }), Fate::Drop);
    let (fates, changed) = reconcile(&vec![facts(), running]);
    assert_eq!(fates, vec![Fate::Keep, Fate::Keep]);
    assert!(!changed);
    let (_, changed) = reconcile(&vec![facts(), EntryFacts { visible: false, ..running }]);
    assert!(changed);
}

fn transition(root: u64, captured: u64, running: bool) -> Transition<(), u32, &'static str, u16> {
    let mut t = Transition::fresh(root, 0, geometry(20), rect(0, 0, 20, 10), captured, 0, Some(1));
    if running {
        t.timeline = Some(());
    }
    t
}

#[test]
fn earliest_pending_deadline() {
    let mut animations: Animations<(), u32, &'static str, u16> = Animations::new();
    assert_eq!(animations.deadline(), None);
    animations.start(transition(1, 5, true));
    assert_eq!(animations.deadline(), None);
    animations.start(transition(2, 9, false));
    animations.start(transition(3, 3, false));
    assert_eq!(animations.deadline(), Some(3 + PENDING_LIFETIME));
}

#[test]
fn transition_registry() {
    let mut animations: Animations<(), u32, &'static str, u16> = Animations::new();
    animations.start(transition(1, 5, true));
    animations.start(transition(2, 6, false));
    animations.start(transition(1, 7, false));
    assert_eq!(animations.entries.len(), 2);
    assert_eq!(animations.entries[0].captured, 7);
    animations.remove(9);
    assert_eq!(animations.entries.len(), 2);
    animations.remove(1);
    assert_eq!(animations.entries.len(), 1);
    assert_eq!(animations.entries[0].root, 2);
    animations.start(Transition { last_queued_image: Some("old"), rendered_image: Some("new"), ..transition(3, 0, false) });
    animations.keep_pending(3, 42, false);
    assert_eq!(animations.entries[1].serial, 42);
    assert_eq!(animations.entries[1].rendered_image, Some("new"));
    animations.keep_pending(3, 43, true);
    assert_eq!(animations.entries[1].serial, 43);
    assert_eq!(animations.entries[1].rendered_image, None);
    assert_eq!(animations.entries[1].last_queued_image, None);
    assert_eq!(animations.entries[1].snapshot, None);
    assert_eq!((animations.entries[1].from, animations.entries[1].content_from), (geometry(20), rect(0, 0, 20, 10)));
    animations.clear();
    assert!(animations.entries.is_empty());
}

#[test]
fn frame_bookkeeping() {
    let mut scene: Scene<(), (), u32, &'static str, u16, Gpu> = Scene::new(());
    scene.animations.start(transition(1, 0, true));
    scene.animations.start(transition(2, 0, false));
    scene.animations.drawn(1, 5, "blend");
    scene.animations.drawn(9, 7, "nothing");
    match scene.render::<()>(RenderStep::Begin { now: 100 }) {
        RenderAction::Draw { commit } => assert_eq!(commit, 1),
        other => panic!("unexpected {:?}", other),
    }
    assert_eq!(scene.animations.now, Some(100));
    let queued = RenderOutcome { queued: true, primary_scanout: false, hardware_cursor: false, recovered: false };
    match scene.render::<()>(RenderStep::Drawn(Ok(queued))) {
        RenderAction::Done(r) => assert_eq!(r, Ok(queued)),
        other => panic!("unexpected {:?}", other),
    }
    assert_eq!(scene.animations.entries[0].last_queued, 5);
    assert_eq!(scene.animations.entries[0].last_queued_image, Some("blend"));
    match scene.render::<&str>(RenderStep::Drawn(Err("lost"))) {
        RenderAction::Done(r) => assert_eq!(r, Err("lost")),
        other => panic!("unexpected {:?}", other),
    }
    assert_eq!(scene.animations.entries.len(), 2);
    let idle = RenderOutcome { queued: false, ..queued };
    scene.render::<()>(RenderStep::Drawn(Ok(idle)));
    assert_eq!(scene.animations.entries.len(), 1);
    assert_eq!(scene.animations.entries[0].root, 2);
    scene.cancel_resize_surface(2);
    assert!(scene.animations.entries.is_empty());
    scene.animations.start(transition(4, 0, false));
    scene.cancel_resize_animations();
    assert!(scene.animations.entries.is_empty());
}

#[test]
fn screenshot_overlay_never_covers_the_selection() {
    let size = Size { w: 960, h: 540 };
    assert_eq!(dim_regions(size, None), vec![rect(0, 0, 960, 540)]);
    let selection = rect(160, 100, 400, 420);
    let dim = dim_regions(size, Some(selection));
    assert_eq!(
        dim,
        vec![
            rect(0, 0, 960, 100),
            rect(0, 520, 960, 20),
            rect(0, 100, 160, 420),
            rect(560, 100, 400, 420),
        ]
    );
    let outline = outline_regions(size, Some(selection), 2);
    assert_eq!(outline.len(), 4);
    for r in dim.iter().chain(outline.iter()) {
        assert!(r.intersection(&selection).is_none());
    }
    // The outline sits just outside the selection's corner.
    assert!(contains_any(&outline, 158, 98));
    assert!(outline_regions(size, None, 2).is_empty());
    assert!(outline_regions(size, Some(rect(0, 0, 960, 540)), 2).is_empty());
    assert_eq!(
        band_clips(&vec![rect(0, 0, 50, 50), rect(500, 500, 5, 5)], rect(10, 20, 100, 100)),
        vec![rect(0, 0, 40, 30)]
    );
}

#[test]
fn screenshot_notice_placement() {
    assert_eq!(notice_box(Size { w: 960, h: 540 }), (360, 64, 600, 456));
    assert_eq!(notice_box(Size { w: 100, h: 30 }), (84, 30, 16, 0));
    assert_eq!(notice_box(Size { w: 0, h: 0 }), (1, 1, -1, 0));
}

struct Gpu;
impl Handles for Gpu {
    type Image = &'static str;
    type Download = u32;
    type ViewId = u8;
}

#[test]
fn screenshot_life_cycle() {
    let mut scene: Scene<(), (), u32, u8, u16, Gpu> = Scene::new(());
    let capture: &mut Capture<Gpu> = &mut scene.screenshot;
    assert_eq!(capture.after_frame(Phase::Requested, 1), AfterFrame::Capture);
    capture.captured("frozen", 1, 7);
    let selecting = Phase::Selecting { outlined: false, rect: rect(1, 2, 3, 4) };
    assert_eq!(capture.view_selection(1, selecting), Some(None));
    assert_eq!(capture.view_selection(2, selecting), None);
    let export = Phase::Exporting(rect(1, 2, 3, 4));
    assert_eq!(capture.view_selection(1, export), Some(Some(rect(1, 2, 3, 4))));
    assert_eq!(capture.after_frame(export, 1), AfterFrame::Download(rect(1, 2, 3, 4)));
    capture.download_started(42);
    assert_eq!(capture.after_frame(export, 1), AfterFrame::Idle);
    assert_eq!(scene.poll_screenshot(false, true, true), None);
    assert_eq!(scene.poll_screenshot(true, false, true), None);
    assert_eq!(scene.poll_screenshot(true, true, false), None);
    assert_eq!(scene.poll_screenshot(true, true, true), Some((1, 42)));
    assert_eq!(scene.poll_screenshot(true, true, true), None);
    scene.screenshot.settle(false);
    assert_eq!(scene.screenshot.after_frame(export, 1), AfterFrame::Unavailable);
    scene.clear_screenshot();
    assert!(scene.screenshot.frozen().is_none());
    assert!(!scene.screenshot.has_view_id());
}

fn capture_facts() -> CaptureFacts {
    CaptureFacts {
        on_output: true,
        window: true,
        current: Some(geometry(40)),
        direct: false,
        existing: None,
        content: Some(rect(5, 5, 30, 20)),
        retained: 0,
    }
}

#[test]
fn resize_capture_plans() {
    let f = capture_facts();
    assert_eq!(capture_plan(&f), CapturePlan::Snapshot { from: geometry(40), bounds: rect(5, 5, 30, 20) });
    assert_eq!(capture_plan(&CaptureFacts { on_output: false, ..f }), CapturePlan::Skip);
    assert_eq!(capture_plan(&CaptureFacts { current: None, ..f }), CapturePlan::Skip);
    assert_eq!(capture_plan(&CaptureFacts { content: None, ..f }), CapturePlan::Skip);
    assert_eq!(capture_plan(&CaptureFacts { content: Some(rect(5, 5, 0, 20)), ..f }), CapturePlan::Skip);
    assert_eq!(capture_plan(&CaptureFacts { direct: true, ..f }), CapturePlan::Direct { from: geometry(40) });
    assert_eq!(capture_plan(&CaptureFacts { retained: MAX_SNAPSHOT_BYTES, ..f }), CapturePlan::Abandon);
    let waiting = Existing {
        pending: true,
        queued_geometry: geometry(20),
        queued_image: Some(rect(1, 1, 8, 8)),
        content_from: rect(2, 2, 6, 6),
    };
    assert_eq!(
        capture_plan(&CaptureFacts { existing: Some(waiting), direct: true, ..f }),
        CapturePlan::KeepPending { direct: true }
    );
    let running = Existing { pending: false, ..waiting };
    assert_eq!(
        capture_plan(&CaptureFacts { existing: Some(running), ..f }),
        CapturePlan::Snapshot { from: geometry(20), bounds: rect(1, 1, 8, 8) }
    );
    assert_eq!(
        capture_plan(&CaptureFacts { existing: Some(Existing { queued_image: None, ..running }), ..f }),
        CapturePlan::Snapshot { from: geometry(20), bounds: rect(2, 2, 6, 6) }
    );
}

#[test]
fn overlay_damage_is_local_to_the_element() {
    let output = Size { w: 100, h: 50 };
    assert_eq!(element_damage(output, rect(90, 40, 20, 20)), Some(rect(0, 0, 10, 10)));
    assert_eq!(element_damage(output, rect(-5, 10, 20, 5)), Some(rect(5, 0, 15, 5)));
    assert_eq!(element_damage(output, rect(100, 0, 5, 5)), None);
}

#[test]
fn shader_source_splices_the_mask() {
    assert_eq!(source("a //_CORNERS b //_CORNERS", "mask()"), "a mask() b mask()");
    assert_eq!(source("no marker here", "mask()"), "no marker here");
    assert_eq!(source("//_CORNER", "x"), "//_CORNER");
}

#[test]
fn opaque_projection_keeps_the_inside() {
    let element = rect(10, 10, 20, 20);
    assert_eq!(projected_opaque(Point { x: 5, y: 12 }, Point { x: 15, y: 40 }, element), Some(rect(0, 2, 5, 18)));
    assert_eq!(projected_opaque(Point { x: 5, y: 5 }, Point { x: 5, y: 40 }, element), None);
    assert_eq!(projected_opaque(Point { x: 40, y: 40 }, Point { x: 50, y: 50 }, element), None);
}

fn held(bytes: usize, fence_reached: bool, inputs: Vec<usize>) -> Held {
    Held { bytes, fence_reached, inputs }
}

#[test]
fn shared_snapshots_count_once() {
    let mut nodes = vec![
        held(10, false, vec![]),
        held(20, false, vec![0]),
        held(40, true, vec![0, 1]),
        held(80, false, vec![0]),
    ];
    assert_eq!(retained_bytes(&mut nodes, &vec![2, 1, 1]), 70);
    assert!(nodes[2].inputs.is_empty());
    assert_eq!(nodes[1].inputs, vec![0]);
    assert_eq!(nodes[3].inputs, vec![0]);
    assert_eq!(retained_bytes(&mut nodes, &vec![2, 1]), 70);
    let mut chain = vec![held(1, false, vec![]), held(2, false, vec![0, 0]), held(4, false, vec![1, 0])];
    assert_eq!(retained_bytes(&mut chain, &vec![2, 2]), 7);
    assert_eq!(retained_bytes(&mut chain, &vec![]), 0);
}

#[test]
fn reconciliation_settles_every_transition() {
    let mut animations: Animations<u8, u32, &'static str, u16> = Animations::new();
    for root in 1..=3 {
        animations.start(Transition::fresh(root, 0, geometry(10), rect(0, 0, 10, 10), 0, 0, None));
    }
    let changed = animations.apply_fates(&vec![Fate::Keep, Fate::Keep, Fate::Keep], vec![None, None, None]);
    assert!(!changed);
    assert_eq!(animations.entries.len(), 3);
    let changed = animations.apply_fates(
        &vec![Fate::Drop, Fate::Start(geometry(30)), Fate::Keep],
        vec![None, Some(7), Some(9)],
    );
    assert!(changed);
    assert_eq!(animations.entries.len(), 2);
    assert_eq!((animations.entries[0].root, animations.entries[0].timeline), (2, Some(7)));
    assert_eq!((animations.entries[1].root, animations.entries[1].timeline), (3, None));
    assert!(animations.reset());
    assert!(!animations.reset());
}

#[test]
fn capturing_a_resize_records_a_fresh_transition() {
    let mut animations: Animations<(), u32, &'static str, u16> = Animations::new();
    let step = animations.capture(5, 1, CapturePlan::Snapshot { from: geometry(30), bounds: rect(1, 2, 3, 4) });
    let (from, bounds) = match step {
        CaptureStep::Snapshot { from, bounds } => (from, bounds),
        other => panic!("unexpected {:?}", other),
    };
    assert_eq!(animations.install::<()>(5, 1, from, bounds, 77, 9, Ok(Some(3))), Ok(true));
    let t = &animations.entries[0];
    assert_eq!((t.root, t.serial, t.from, t.content_from, t.captured), (5, 1, geometry(30), rect(1, 2, 3, 4), 77));
    assert_eq!((t.timeline, t.last_queued, t.rendered, t.snapshot), (None, 9, 9, Some(3)));
    assert!(t.last_queued_image.is_none() && t.rendered_image.is_none());
    assert!(matches!(animations.capture(5, 2, CapturePlan::KeepPending { direct: false }), CaptureStep::Done(true)));
    assert_eq!((animations.entries[0].serial, animations.entries[0].from), (2, geometry(30)));
    assert!(matches!(animations.capture(5, 3, CapturePlan::Skip), CaptureStep::Done(false)));
    assert_eq!(animations.entries.len(), 1);
    assert_eq!(animations.install(6, 1, from, bounds, 0, 0, Err("copy failed")), Err("copy failed"));
    assert!(matches!(animations.capture(5, 3, CapturePlan::Abandon), CaptureStep::Done(false)));
    assert!(animations.entries.is_empty());
}

#[test]
fn blend_frames_reuse_the_start_image_until_progress() {
    let b = rect(0, 0, 10, 10);
    assert_eq!(blend_plan(false, true, BlendPhase::Between, b, 1000), BlendPlan::NoSnapshot);
    assert_eq!(blend_plan(true, false, BlendPhase::Between, b, 1000), BlendPlan::NoContent);
    assert_eq!(blend_plan(true, true, BlendPhase::Start, rect(0, 0, 0, 0), 0), BlendPlan::ReuseStart);
    assert_eq!(blend_plan(true, true, BlendPhase::Between, b, 400), BlendPlan::CaptureLive);
    assert_eq!(blend_plan(true, true, BlendPhase::End, b, 399), BlendPlan::TooLarge);
    assert_eq!(blend_plan(true, true, BlendPhase::End, rect(0, 0, 0, 10), 1000), BlendPlan::TooLarge);
    let start = blend_frame::<u8, u16>(&1, b, 4, BlendPhase::Start, None, vec![rect(0, 0, 5, 5)], vec![]);
    assert_eq!((start.old, start.current, start.bounds, start.commit), (1, 1, b, 4));
    assert!(start.live.is_empty());
    assert_eq!(start.opaque, vec![rect(0, 0, 5, 5)]);
    let mid = blend_frame(&1u8, b, 5, BlendPhase::Between, Some((2, vec![7u16])), vec![rect(0, 0, 5, 5)], vec![rect(2, 2, 5, 5)]);
    assert_eq!((mid.old, mid.current, mid.live), (1, 2, vec![7]));
    assert_eq!(mid.opaque, vec![rect(2, 2, 3, 3)]);
}

#[test]
fn the_notice_shows_only_outside_an_active_screenshot() {
    let mut scene: Scene<(), (), u32, u8, u16, Gpu> = Scene::new(());
    let capture = &mut scene.screenshot;
    let selecting = Phase::Selecting { outlined: false, rect: rect(1, 2, 3, 4) };
    assert_eq!(capture.append(true, true, true, selecting, 0), Overlay { notice: false, view: None });
    capture.captured("frozen", 3, 1);
    assert_eq!(capture.append(true, true, true, selecting, 3), Overlay { notice: false, view: Some(None) });
    assert_eq!(capture.append(true, true, false, selecting, 3), Overlay { notice: false, view: None });
    assert_eq!(capture.append(false, true, true, Phase::Requested, 3), Overlay { notice: false, view: None });
    assert!(capture.frozen().is_none());
    assert_eq!(capture.append(false, true, true, Phase::Other, 3), Overlay { notice: true, view: None });
    assert_eq!(capture.append(false, false, true, Phase::Other, 3), Overlay { notice: false, view: None });
}

#[test]
fn drawing_a_transition_builds_or_drops_it() {
    let mut animations: Animations<(), u32, &'static str, u16> = Animations::new();
    animations.start(transition(1, 0, true));
    animations.start(transition(2, 0, true));
    assert_eq!(animations.append(false, None, true, true, 0), AppendStep::Skip);
    assert_eq!(animations.append(false, Some(9), true, true, 0), AppendStep::Skip);
    assert_eq!(animations.append(false, Some(1), false, true, 0), AppendStep::Skip);
    assert_eq!(animations.entries.len(), 2);
    assert_eq!(animations.append(false, Some(1), true, true, 100), AppendStep::Build { available: MAX_SNAPSHOT_BYTES - 100 });
    assert_eq!(animations.built::<()>(1, 6, Ok("blend")), Some("blend"));
    assert_eq!((animations.entries[0].rendered, animations.entries[0].rendered_image), (6, Some("blend")));
    assert_eq!(animations.built(1, 7, Err("lost")), None);
    assert_eq!(animations.entries.len(), 1);
    assert_eq!(animations.append(false, Some(2), true, false, 0), AppendStep::Skip);
    assert!(animations.entries.is_empty());
    animations.start(transition(3, 0, true));
    assert_eq!(animations.append(true, Some(3), true, true, 0), AppendStep::Skip);
    assert!(animations.entries.is_empty());
}

fn mask(w: i32) -> MaskKey {
    MaskKey { bounds: rect(0, 0, w, 10), radius_bits: 4 }
}

fn ring_key(w: i32) -> RingKey {
    RingKey { outer: mask(w), color: ColorBits { r: 1, g: 2, b: 3, a: 4 }, inner: mask(w - 2) }
}

#[test]
fn rounding_a_window_masks_its_surfaces() {
    let mut cache = MaskCache::new();
    let (frame, client) = (rect(0, 0, 20, 10), rect(1, 1, 18, 8));
    let body = vec![
        Layer::Border,
        Layer::Surface { id: 7, source: 3, element: 'a' },
        Layer::Blend('b'),
        Layer::Surface { id: 8, source: 1, element: 'c' },
    ];
    let out = match cache.round_window(false, frame, client, ring_key(20), mask(18), body) {
        Ok(out) => out,
        Err(_) => panic!("a tiled window is rounded"),
    };
    assert_eq!(out.len(), 4);
    assert!(matches!(out[0], RoundedLayer::Ring { commit: 0 }));
    assert!(matches!(out[1], RoundedLayer::Masked { id: 7, element: 'a', commit: 0, previous: None }));
    assert!(matches!(out[2], RoundedLayer::Blend('b')));
    assert!(matches!(out[3], RoundedLayer::Masked { id: 8, element: 'c', commit: 0, previous: None }));
    // The content of 7 changed; 8 left the window.
    let body = vec![Layer::Surface { id: 7, source: 4, element: 'a' }];
    let out = match cache.round_window(false, frame, rect(0, 1, 18, 8), ring_key(20), mask(18), body) {
        Ok(out) => out,
        Err(_) => panic!("a tiled window is rounded"),
    };
    assert_eq!(out.len(), 1);
    assert!(matches!(out[0], RoundedLayer::Masked { id: 7, commit: 1, previous: Some((0, 3)), .. }));
    assert_eq!(cache.surfaces.len(), 1);
    assert_eq!(cache.surfaces[0].0, 7);
    assert!(cache.round_window(true, frame, client, ring_key(20), mask(18), vec![Layer::Blend('x')]).is_err());
    let out = match cache.round_window::<char>(false, frame, client, ring_key(30), mask(18), vec![]) {
        Ok(out) => out,
        Err(_) => panic!("a tiled window is rounded"),
    };
    assert!(matches!(out[0], RoundedLayer::Ring { commit: 1 }));
}

#[test]
fn borderless_or_transparent_windows_draw_no_stripes() {
    let (frame, client, clip) = (rect(0, 0, 20, 10), rect(1, 1, 18, 8), rect(0, 0, 100, 100));
    assert!(border_stripes(frame, frame, false, frame, client, clip).is_empty());
    assert!(border_stripes(frame, client, true, frame, client, clip).is_empty());
    assert_eq!(border_stripes(frame, client, false, frame, client, clip), stripes(frame, client, clip));
}

fn signature(scale_bits: u64) -> OutputSignature {
    OutputSignature { output: 1, area: rect(0, 0, 800, 600), scale_bits, transform: 0 }
}

#[test]
fn reconciliation_resets_on_a_new_output() {
    let mut animations: Animations<(), u32, &'static str, u16> = Animations::new();
    animations.start(transition(1, 0, false));
    assert_eq!(animations.reconcile(Some(signature(8)), true), ReconcileStep::Settle { reset: true });
    assert!(animations.entries.is_empty());
    assert_eq!(animations.output, Some(signature(8)));
    animations.start(transition(1, 0, false));
    assert_eq!(animations.reconcile(Some(signature(8)), true), ReconcileStep::Settle { reset: false });
    assert_eq!(animations.entries.len(), 1);
    assert_eq!(animations.reconcile(Some(signature(8)), false), ReconcileStep::Settle { reset: true });
    assert!(animations.entries.is_empty());
    animations.start(transition(2, 0, false));
    assert_eq!(animations.reconcile(Some(signature(9)), true), ReconcileStep::Settle { reset: true });
    assert_eq!(animations.output, Some(signature(9)));
    animations.start(transition(2, 0, false));
    assert_eq!(animations.reconcile(None, true), ReconcileStep::Done(true));
    assert_eq!(animations.output, None);
    assert_eq!(animations.reconcile(None, true), ReconcileStep::Done(false));
}

#[test]
fn frame_passes_run_front_to_back_and_stop_on_error() {
    type S = Scene<(), (), u32, u8, u16, Gpu>;
    let mut done = None;
    let mut order = Vec::new();
    while let PassStep::Run(pass) = S::render_into(done, true) {
        order.push(pass);
        done = Some(pass);
    }
    assert_eq!(
        order,
        vec![Pass::Pointer, Pass::Screenshot, Pass::Switcher, Pass::Desktop, Pass::Accounting, Pass::Submit, Pass::AfterFrame]
    );
    assert_eq!(S::render_into(Some(Pass::Submit), false), PassStep::Stop);
    assert_eq!(S::render_into(Some(Pass::AfterFrame), true), PassStep::Finish);
}

#[test]
fn shader_source_matches_str_replace() {
    let texts = ["", "abc", "aaaa", "//_CORNERS//_CORNERS", "x//_CORNER//_CORNERSy", "é//_CORNERSü"];
    for text in texts {
        for mask in ["", "m", "//_CORNERS"] {
            assert_eq!(source(text, mask), text.replace("//_CORNERS", mask));
        }
    }
}

#[test]
fn notice_fits_the_smallest_outputs() {
    assert_eq!(notice_box(Size { w: i32::MIN + 16, h: i32::MIN + 21 }), (1, 1, i32::MIN + 15, 0));
}
