//! The frozen screenshot: its capture and export life cycle, the selection
//! overlay drawn over the frozen image, and the placement of the notice.
use crate::geometry::{
    clip_damage, clips_of, keep_nonempty, nonempty_regions, rect_spec, Rect, Size,
};
use vstd::prelude::*;

verus! {

/// The screenshot tool's phase, as far as the scene reads it.
#[derive(Clone, Copy, Debug, PartialEq, Eq, Structural)]
pub enum Phase {
    /// A capture of the next frame was asked for.
    Requested,
    /// The user is choosing an area; `outlined` once dragging started.
    Selecting { outlined: bool, rect: Rect },
    /// The chosen area is being exported.
    Exporting(Rect),
    /// Anything else, including no screenshot at all.
    Other,
}

/// The GPU-side handles a capture holds: a frozen image, a pending readback
/// and the identity of the view element.
pub trait Handles {
    type Image;
    type Download;
    type ViewId;
}

/// The frozen image of one screenshot generation and its export.
pub struct Capture<H: Handles> {
    image: Option<H::Image>,
    generation: u64,
    view_id: Option<H::ViewId>,
    download: Option<(u64, H::Download)>,
}

/// What to do after a frame was rendered.
#[derive(Clone, Copy, Debug, PartialEq, Eq, Structural)]
pub enum AfterFrame {
    /// Freeze the frame just rendered.
    Capture,
    /// Start reading back this area of the frozen image.
    Download(Rect),
    /// An export was asked for but no frozen image exists: a failure.
    Unavailable,
    /// Nothing to do.
    Idle,
}

/// What the screenshot adds to a frame: the notice, and the frozen view
/// with the selection it shows.
#[derive(Clone, Copy, Debug, PartialEq, Eq, Structural)]
pub struct Overlay {
    pub notice: bool,
    pub view: Option<Option<Rect>>,
}

/// The selection the view shows: the rectangle while outlined or exporting,
/// nothing while selection has not started; no view in other phases.
pub open spec fn selection_of(phase: Phase) -> Option<Option<Rect>> {
    match phase {
        Phase::Selecting { outlined, rect } => Some(
            if outlined {
                Some(rect)
            } else {
                None
            },
        ),
        Phase::Exporting(r) => Some(Some(r)),
        _ => None,
    }
}

impl<H: Handles> Capture<H> {
    pub closed spec fn image(&self) -> Option<H::Image> {
        self.image
    }

    pub closed spec fn generation(&self) -> u64 {
        self.generation
    }

    pub closed spec fn view_id(&self) -> Option<H::ViewId> {
        self.view_id
    }

    pub closed spec fn download(&self) -> Option<(u64, H::Download)> {
        self.download
    }

    /// No image, no export, generation zero.
    pub open spec fn is_fresh(&self) -> bool {
        &&& self.image() is None
        &&& self.generation() == 0
        &&& self.view_id() is None
        &&& self.download() is None
    }

    pub fn new() -> (c: Capture<H>)
        ensures
            c.is_fresh(),
    {
        Capture { image: None, generation: 0, view_id: None, download: None }
    }

    pub fn frozen(&self) -> (r: Option<&H::Image>)
        ensures
            r == (match self.image() {
                Some(i) => Some(&i),
                None => None::<&H::Image>,
            }),
    {
        self.image.as_ref()
    }

    /// A screenshot that is no longer active keeps neither image nor export.
    pub fn settle(&mut self, active: bool)
        ensures
            final(self).generation() == old(self).generation(),
            final(self).view_id() == old(self).view_id(),
            active ==> final(self).image() == old(self).image() && final(self).download()
                == old(self).download(),
            !active ==> final(self).image() is None && final(self).download() is None,
    {
        if !active {
            self.image = None;
            self.download = None;
        }
    }

    /// The selection to show over the frozen image of `generation`, if a
    /// view is shown at all.
    pub fn view_selection(&self, generation: u64, phase: Phase) -> (r: Option<Option<Rect>>)
        ensures
            r == (if self.generation() == generation && self.image() is Some {
                selection_of(phase)
            } else {
                None
            }),
    {
        if self.generation != generation || self.image.is_none() {
            return None;
        }
        match phase {
            Phase::Selecting { outlined, rect } => Some(
                if outlined {
                    Some(rect)
                } else {
                    None
                },
            ),
            Phase::Exporting(r) => Some(Some(r)),
            _ => None,
        }
    }

    /// The screenshot's part of a frame on an output (`on_output` false when
    /// the output is not mapped). An inactive screenshot first lets go of
    /// its image and export. The notice (when there is one) shows only while
    /// the screenshot is inactive and no capture is requested; the frozen
    /// view shows over the image of the current `generation` while a
    /// selection is made or exported. A shown view without an identity gets
    /// one from the caller (`set_view_id`).
    pub fn append(&mut self, active: bool, has_notice: bool, on_output: bool, phase: Phase, generation: u64) -> (r: Overlay)
        ensures
            final(self).generation() == old(self).generation(),
            final(self).view_id() == old(self).view_id(),
            active ==> final(self).image() == old(self).image() && final(self).download() == old(self).download(),
            !active ==> final(self).image() is None && final(self).download() is None,
            r.notice == (on_output && !active && has_notice && !(phase is Requested)),
            r.view == (if on_output && final(self).generation() == generation && final(self).image() is Some {
                selection_of(phase)
            } else {
                None
            }),
    {
        self.settle(active);
        if !on_output {
            return Overlay { notice: false, view: None };
        }
        let requested = match phase {
            Phase::Requested => true,
            _ => false,
        };
        let notice = !active && has_notice && !requested;
        let view = self.view_selection(generation, phase);
        Overlay { notice, view }
    }

    /// The view keeps one identity per frozen image.
    pub fn has_view_id(&self) -> (r: bool)
        ensures
            r == self.view_id() is Some,
    {
        self.view_id.is_some()
    }

    pub fn set_view_id(&mut self, id: H::ViewId)
        requires
            old(self).view_id() is None,
        ensures
            final(self).view_id() == Some(id),
            final(self).image() == old(self).image(),
            final(self).generation() == old(self).generation(),
            final(self).download() == old(self).download(),
    {
        self.view_id = Some(id);
    }

    pub fn view(&self) -> (r: Option<&H::ViewId>)
        ensures
            r == (match self.view_id() {
                Some(i) => Some(&i),
                None => None::<&H::ViewId>,
            }),
    {
        self.view_id.as_ref()
    }

    /// The step after a rendered frame of the screenshot's `generation`.
    pub fn after_frame(&self, phase: Phase, generation: u64) -> (r: AfterFrame)
        ensures
            r == (match phase {
                Phase::Requested => AfterFrame::Capture,
                Phase::Exporting(rect) => if self.download() is None && self.generation()
                    == generation {
                    if self.image() is Some {
                        AfterFrame::Download(rect)
                    } else {
                        AfterFrame::Unavailable
                    }
                } else {
                    AfterFrame::Idle
                },
                _ => AfterFrame::Idle,
            }),
    {
        match phase {
            Phase::Requested => AfterFrame::Capture,
            Phase::Exporting(rect) => {
                if self.download.is_none() && self.generation == generation {
                    if self.image.is_some() {
                        AfterFrame::Download(rect)
                    } else {
                        AfterFrame::Unavailable
                    }
                } else {
                    AfterFrame::Idle
                }
            },
            _ => AfterFrame::Idle,
        }
    }

    /// The frame was frozen for `generation`; the view gets a new identity.
    pub fn captured(&mut self, image: H::Image, generation: u64, view: H::ViewId)
        ensures
            final(self).image() == Some(image),
            final(self).generation() == generation,
            final(self).view_id() == Some(view),
            final(self).download() == old(self).download(),
    {
        self.image = Some(image);
        self.generation = generation;
        self.view_id = Some(view);
    }

    /// The readback of the frozen image started.
    pub fn download_started(&mut self, download: H::Download)
        ensures
            final(self).download() == Some((old(self).generation(), download)),
            final(self).image() == old(self).image(),
            final(self).generation() == old(self).generation(),
            final(self).view_id() == old(self).view_id(),
    {
        self.download = Some((self.generation, download));
    }

    /// A step failed: the screenshot is cancelled.
    pub fn failed(&mut self)
        ensures
            final(self).image() is None,
            final(self).download() is None,
            final(self).generation() == old(self).generation(),
            final(self).view_id() == old(self).view_id(),
    {
        self.image = None;
        self.download = None;
    }

    /// Hand out a finished readback, with the generation it belongs to.
    pub fn take_ready(&mut self, ready: bool) -> (r: Option<(u64, H::Download)>)
        ensures
            final(self).image() == old(self).image(),
            final(self).generation() == old(self).generation(),
            final(self).view_id() == old(self).view_id(),
            (ready && old(self).download() is Some) ==> r == old(self).download() && final(self).download() is None,
            !(ready && old(self).download() is Some) ==> r is None && final(self).download()
                == old(self).download(),
    {
        if !ready || self.download.is_none() {
            return None;
        }
        self.download.take()
    }

    pub fn has_download(&self) -> (r: bool)
        ensures
            r == self.download() is Some,
    {
        self.download.is_some()
    }
}

/// The four dimmed bands around the selection `r` of an image of `size`:
/// above, below, left and right of it.
pub open spec fn dim_bands(size: Size, r: Rect) -> Seq<Rect> {
    seq![
        rect_spec(0, 0, size.w, r.loc.y),
        rect_spec(0, (r.loc.y + r.size.h) as i32, size.w, (size.h - r.loc.y - r.size.h) as i32),
        rect_spec(0, r.loc.y, r.loc.x, r.size.h),
        rect_spec((r.loc.x + r.size.w) as i32, r.loc.y, (size.w - r.loc.x - r.size.w) as i32, r.size.h),
    ]
}

/// The outline of thickness `t` just outside the selection `r`; top and
/// bottom include the corners.
pub open spec fn outline_bands(r: Rect, t: i32) -> Seq<Rect> {
    seq![
        rect_spec((r.loc.x - t) as i32, (r.loc.y - t) as i32, (r.size.w + 2 * t) as i32, t),
        rect_spec((r.loc.x - t) as i32, (r.loc.y + r.size.h) as i32, (r.size.w + 2 * t) as i32, t),
        rect_spec((r.loc.x - t) as i32, r.loc.y, t, r.size.h),
        rect_spec((r.loc.x + r.size.w) as i32, r.loc.y, t, r.size.h),
    ]
}

pub open spec fn zero_rect() -> Rect {
    rect_spec(0, 0, 0, 0)
}

/// The arithmetic of the bands stays within `i32`.
pub open spec fn bands_fit(size: Size, r: Rect, t: i32) -> bool {
    &&& i32::MIN <= r.loc.y + r.size.h <= i32::MAX
    &&& i32::MIN <= size.h - r.loc.y <= i32::MAX
    &&& i32::MIN <= size.h - r.loc.y - r.size.h <= i32::MAX
    &&& i32::MIN <= r.loc.x + r.size.w <= i32::MAX
    &&& i32::MIN <= size.w - r.loc.x <= i32::MAX
    &&& i32::MIN <= size.w - r.loc.x - r.size.w <= i32::MAX
    &&& i32::MIN <= r.loc.x - t && i32::MIN <= r.loc.y - t
    &&& 2 * t <= i32::MAX
    &&& r.size.w + 2 * t <= i32::MAX
}

/// While the user drags out a selection, the view shows exactly that
/// rectangle; before the drag starts it shows none, and while exporting it
/// shows the exported area. Outside a selection or export there is no view.
pub proof fn lemma_view_shows_the_selection(rect: Rect, phase: Phase)
    ensures
        selection_of(Phase::Selecting { outlined: true, rect }) == Some(Some(rect)),
        selection_of(Phase::Selecting { outlined: false, rect }) == Some(None::<Rect>),
        selection_of(Phase::Exporting(rect)) == Some(Some(rect)),
        selection_of(phase) is Some <==> (phase is Selecting || phase is Exporting),
        selection_of(phase) matches Some(Some(shown)) ==> (phase == Phase::Exporting(shown)
            || phase == (Phase::Selecting { outlined: true, rect: shown })),
{
}

/// The overlay never obscures the selected area: no dimmed band and no
/// outline band overlaps the selection.
pub proof fn lemma_overlay_spares_selection(size: Size, sel: Rect, t: i32, k: int)
    requires
        bands_fit(size, sel, t),
        sel.size.w >= 0 && sel.size.h >= 0,
        t >= 1,
        0 <= k < 4,
    ensures
        !dim_bands(size, sel)[k].overlaps_spec(sel),
        !outline_bands(sel, t)[k].overlaps_spec(sel),
{
}

/// The dimmed regions drawn over the frozen image: the non-empty bands
/// around the selection, or the whole image when nothing is selected.
pub fn dim_regions(size: Size, selection: Option<Rect>) -> (r: Vec<Rect>)
    requires
        bands_fit(
            size,
            match selection {
                Some(s) => s,
                None => zero_rect(),
            },
            0,
        ),
    ensures
        r@ == keep_nonempty(
            dim_bands(
                size,
                match selection {
                    Some(s) => s,
                    None => zero_rect(),
                },
            ),
        ),
{
    let r = match selection {
        Some(s) => s,
        None => Rect::new(0, 0, 0, 0),
    };
    let above = Rect::new(0, 0, size.w, r.loc.y);
    let below = Rect::new(0, r.loc.y + r.size.h, size.w, size.h - r.loc.y - r.size.h);
    let left = Rect::new(0, r.loc.y, r.loc.x, r.size.h);
    let right = Rect::new(r.loc.x + r.size.w, r.loc.y, size.w - r.loc.x - r.size.w, r.size.h);
    let bands = vec![above, below, left, right];
    assert(bands@ == dim_bands(size, r));
    nonempty_regions(bands)
}

/// The selection outline, `t` pixels wide, drawn while a selection other
/// than the whole image is shown.
pub fn outline_regions(size: Size, selection: Option<Rect>, t: i32) -> (r: Vec<Rect>)
    requires
        t >= 1,
        selection matches Some(s) ==> bands_fit(size, s, t),
    ensures
        match selection {
            None => r@ == Seq::<Rect>::empty(),
            Some(s) => if s == rect_spec(0, 0, size.w, size.h) {
                r@ == Seq::<Rect>::empty()
            } else {
                r@ == keep_nonempty(outline_bands(s, t))
            },
        },
{
    let s = match selection {
        None => {
            return Vec::new();
        },
        Some(s) => s,
    };
    if s == Rect::new(0, 0, size.w, size.h) {
        return Vec::new();
    }
    let top = Rect::new(s.loc.x - t, s.loc.y - t, s.size.w + 2 * t, t);
    let bottom = Rect::new(s.loc.x - t, s.loc.y + s.size.h, s.size.w + 2 * t, t);
    let left = Rect::new(s.loc.x - t, s.loc.y, t, s.size.h);
    let right = Rect::new(s.loc.x + s.size.w, s.loc.y, t, s.size.h);
    let bands = vec![top, bottom, left, right];
    assert(bands@ == outline_bands(s, t));
    nonempty_regions(bands)
}

/// The damage of a solid band, clipped to it and relative to it.
pub fn band_clips(damage: &Vec<Rect>, band: Rect) -> (r: Vec<Rect>)
    ensures
        r@ == clips_of(damage@, band),
{
    clip_damage(damage, band)
}

/// The part of an element at `geometry` that a capture of an output of
/// `size` redraws, relative to the element; none when it is off the output.
pub fn element_damage(size: Size, geometry: Rect) -> (r: Option<Rect>)
    ensures
        r == (match rect_spec(0, 0, size.w, size.h).meet(geometry) {
            Some(m) => Some(crate::geometry::shifted_back(m, geometry.loc)),
            None => None,
        }),
{
    let output = Rect::new(0, 0, size.w, size.h);
    match output.intersection(&geometry) {
        Some(m) => Some(
            Rect {
                loc: crate::geometry::Point {
                    x: crate::geometry::sat_sub(m.loc.x, geometry.loc.x),
                    y: crate::geometry::sat_sub(m.loc.y, geometry.loc.y),
                },
                size: m.size,
            },
        ),
        None => None,
    }
}

/// Placement of the screenshot notice on an output of `area`: its width
/// and height, the horizontal room beside it (centred: half on each side),
/// and its top edge, 20 pixels above the bottom when it fits.
pub fn notice_box(area: Size) -> (r: (i32, i32, i32, i32))
    requires
        area.w >= i32::MIN + 16,
        area.h >= i32::MIN + 21,
    ensures
        ({
            let w = if 360 <= (if area.w - 16 >= 1 {
                area.w - 16
            } else {
                1
            }) {
                360
            } else if area.w - 16 >= 1 {
                area.w - 16
            } else {
                1
            };
            let h = if 64 <= (if area.h >= 1 {
                area.h
            } else {
                1
            }) {
                64
            } else if area.h >= 1 {
                area.h
            } else {
                1
            };
            &&& r.0 == w
            &&& r.1 == h
            &&& r.2 == area.w - w
            &&& r.3 == (if area.h - h - 20 >= 0 {
                area.h - h - 20
            } else {
                0
            })
        }),
{
    let avail_w = if area.w - 16 >= 1 {
        area.w - 16
    } else {
        1
    };
    let width = if 360 <= avail_w {
        360
    } else {
        avail_w
    };
    let avail_h = if area.h >= 1 {
        area.h
    } else {
        1
    };
    let height = if 64 <= avail_h {
        64
    } else {
        avail_h
    };
    let top = if area.h - height - 20 >= 0 {
        area.h - height - 20
    } else {
        0
    };
    (width, height, area.w - width, top)
}

} // verus!
