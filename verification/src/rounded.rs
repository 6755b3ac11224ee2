//! Rounded window corners: which opaque regions survive the corner cutouts,
//! when a masked surface counts as changed, and what damage it reports.
use crate::geometry::{clamp_i32, Point, Rect, rect_spec, sat_add, sat_sub};
use vstd::prelude::*;

verus! {

/// The two corner-free bands of a rounded rectangle `b` whose corner
/// radius rounds up to `r` pixels: the full height between the corner
/// columns, and the full width between the corner rows.
pub open spec fn safe_bands(b: Rect, r: i32) -> (Rect, Rect) {
    let w = b.size.w - 2 * r;
    let h = b.size.h - 2 * r;
    (
        rect_spec((b.loc.x + r) as i32, b.loc.y, (if w >= 0 { w } else { 0 }) as i32, b.size.h),
        rect_spec(b.loc.x, (b.loc.y + r) as i32, b.size.w, (if h >= 0 { h } else { 0 }) as i32),
    )
}

pub open spec fn shift(r: Rect, by: Point) -> Rect {
    Rect { loc: Point { x: clamp_i32(r.loc.x + by.x), y: clamp_i32(r.loc.y + by.y) }, size: r.size }
}

pub open spec fn unshift(r: Rect, by: Point) -> Rect {
    Rect { loc: Point { x: clamp_i32(r.loc.x - by.x), y: clamp_i32(r.loc.y - by.y) }, size: r.size }
}

/// The pieces of one element-relative region that stay opaque.
pub open spec fn cut_region(region: Rect, at: Point, b: Rect, r: i32) -> Seq<Rect> {
    let moved = shift(region, at);
    let (first, second) = safe_bands(b, r);
    let a = match moved.meet(first) {
        Some(m) => seq![unshift(m, at)],
        None => Seq::empty(),
    };
    let c = match moved.meet(second) {
        Some(m) => seq![unshift(m, at)],
        None => Seq::empty(),
    };
    a + c
}

pub open spec fn cut_regions(regions: Seq<Rect>, at: Point, b: Rect, r: i32) -> Seq<Rect>
    decreases regions.len(),
{
    if regions.len() == 0 {
        Seq::empty()
    } else {
        cut_regions(regions.drop_last(), at, b, r) + cut_region(regions.last(), at, b, r)
    }
}

/// The band arithmetic stays within `i32`.
pub open spec fn bands_fit(b: Rect, r: i32) -> bool {
    &&& 0 <= r
    &&& 2 * r <= i32::MAX
    &&& b.loc.x + r <= i32::MAX
    &&& b.loc.y + r <= i32::MAX
    &&& i32::MIN <= b.size.w - 2 * r
    &&& i32::MIN <= b.size.h - 2 * r
}

/// The opaque regions of a masked element, relative to the element at
/// `at`: each region is kept only where it lies inside one of the two
/// corner-free bands of the mask `bounds`, whose radius rounds up to
/// `radius` pixels. Corner cutouts are therefore never opaque.
pub fn opaque_regions(regions: &Vec<Rect>, at: Point, bounds: Rect, radius: i32) -> (r: Vec<Rect>)
    requires
        bands_fit(bounds, radius),
    ensures
        r@ == cut_regions(regions@, at, bounds, radius),
{
    let w = bounds.size.w - 2 * radius;
    let h = bounds.size.h - 2 * radius;
    let first = Rect::new(bounds.loc.x + radius, bounds.loc.y, if w >= 0 { w } else { 0 }, bounds.size.h);
    let second = Rect::new(bounds.loc.x, bounds.loc.y + radius, bounds.size.w, if h >= 0 { h } else { 0 });
    assert((first, second) == safe_bands(bounds, radius));
    let mut r: Vec<Rect> = Vec::new();
    let mut i: usize = 0;
    while i < regions.len()
        invariant
            i <= regions@.len(),
            (first, second) == safe_bands(bounds, radius),
            r@ == cut_regions(regions@.subrange(0, i as int), at, bounds, radius),
        decreases regions@.len() - i,
    {
        assert(regions@.subrange(0, i + 1).drop_last() == regions@.subrange(0, i as int));
        let region = regions[i];
        let moved = Rect {
            loc: Point { x: sat_add(region.loc.x, at.x), y: sat_add(region.loc.y, at.y) },
            size: region.size,
        };
        let ghost before = r@;
        match moved.intersection(&first) {
            Some(m) => {
                r.push(Rect { loc: Point { x: sat_sub(m.loc.x, at.x), y: sat_sub(m.loc.y, at.y) }, size: m.size });
            },
            None => {},
        }
        match moved.intersection(&second) {
            Some(m) => {
                r.push(Rect { loc: Point { x: sat_sub(m.loc.x, at.x), y: sat_sub(m.loc.y, at.y) }, size: m.size });
            },
            None => {},
        }
        assert(r@ == before + cut_region(region, at, bounds, radius));
        i = i + 1;
    }
    assert(regions@.subrange(0, regions@.len() as int) == regions@);
    r
}

/// Point `p` lies in one of the four corner squares of the rounded
/// rectangle `b`, whose radius rounds up to `r`.
pub open spec fn in_corner(b: Rect, r: i32, p: Point) -> bool {
    &&& b.loc.x <= p.x < b.loc.x + b.size.w
    &&& b.loc.y <= p.y < b.loc.y + b.size.h
    &&& (p.x < b.loc.x + r || p.x >= b.loc.x + b.size.w - r)
    &&& (p.y < b.loc.y + r || p.y >= b.loc.y + b.size.h - r)
}

/// `m` lies inside `band`.
pub open spec fn within(m: Rect, band: Rect) -> bool {
    &&& band.loc.x <= m.loc.x && m.loc.x + m.size.w <= band.loc.x + band.size.w
    &&& band.loc.y <= m.loc.y && m.loc.y + m.size.h <= band.loc.y + band.size.h
}

/// A mask whose extents and edges fit `i32`, placed so that no coordinate
/// of its bands saturates when taken relative to the element at `at`.
pub open spec fn placed(b: Rect, r: i32, at: Point) -> bool {
    &&& b.size.w >= 0 && b.size.h >= 0
    &&& bands_fit(b, r)
    &&& b.loc.x + b.size.w <= i32::MAX && b.loc.y + b.size.h <= i32::MAX
    &&& i32::MIN <= b.loc.x - at.x && b.loc.x + b.size.w - at.x <= i32::MAX && b.loc.x + r - at.x <= i32::MAX
    &&& i32::MIN <= b.loc.y - at.y && b.loc.y + b.size.h - at.y <= i32::MAX && b.loc.y + r - at.y <= i32::MAX
}

proof fn lemma_meet_within(a: Rect, band: Rect)
    requires
        a.meet(band) is Some,
        band.size.w >= 0 && band.size.h >= 0,
        band.loc.x + band.size.w <= i32::MAX,
        band.loc.y + band.size.h <= i32::MAX,
    ensures
        within(a.meet(band)->0, band),
{
    assert(band.right() == band.loc.x + band.size.w);
    assert(band.bottom() == band.loc.y + band.size.h);
    let m = a.meet(band)->0;
    let left = if a.loc.x >= band.loc.x { a.loc.x } else { band.loc.x };
    let right = if a.right() <= band.right() { a.right() } else { band.right() };
    let top = if a.loc.y >= band.loc.y { a.loc.y } else { band.loc.y };
    let bottom = if a.bottom() <= band.bottom() { a.bottom() } else { band.bottom() };
    assert(m.loc.x == left && m.loc.y == top);
    assert(left <= band.right() && top <= band.bottom());
}

/// A piece that survives the mask lies in a corner-free band.
pub open spec fn piece_ok(q: Rect, at: Point, b: Rect, r: i32) -> bool {
    within(shift(q, at), safe_bands(b, r).0) || within(shift(q, at), safe_bands(b, r).1)
}

proof fn lemma_cut_region_ok(region: Rect, at: Point, b: Rect, r: i32)
    requires
        placed(b, r, at),
    ensures
        forall|i: int| 0 <= i < cut_region(region, at, b, r).len() ==> piece_ok(
            #[trigger] cut_region(region, at, b, r)[i],
            at,
            b,
            r,
        ),
{
    let moved = shift(region, at);
    let (first, second) = safe_bands(b, r);
    if moved.meet(first) is Some {
        lemma_meet_within(moved, first);
    }
    if moved.meet(second) is Some {
        lemma_meet_within(moved, second);
    }
}

proof fn lemma_cut_regions_ok(regions: Seq<Rect>, at: Point, b: Rect, r: i32)
    requires
        placed(b, r, at),
    ensures
        forall|i: int| 0 <= i < cut_regions(regions, at, b, r).len() ==> piece_ok(
            #[trigger] cut_regions(regions, at, b, r)[i],
            at,
            b,
            r,
        ),
    decreases regions.len(),
{
    if regions.len() > 0 {
        lemma_cut_regions_ok(regions.drop_last(), at, b, r);
        lemma_cut_region_ok(regions.last(), at, b, r);
        let front = cut_regions(regions.drop_last(), at, b, r);
        let back = cut_region(regions.last(), at, b, r);
        assert forall|i: int| 0 <= i < (front + back).len() implies piece_ok(
            #[trigger] (front + back)[i],
            at,
            b,
            r,
        ) by {
            if i < front.len() {
                assert((front + back)[i] == front[i]);
            } else {
                assert((front + back)[i] == back[i - front.len()]);
            }
        }
    }
}

/// Corner cutouts are never opaque: no point of a surviving region, placed
/// at `at`, lies in a corner square of the mask.
pub proof fn lemma_corners_not_opaque(regions: Seq<Rect>, at: Point, b: Rect, r: i32, i: int, p: Point)
    requires
        placed(b, r, at),
        0 <= i < cut_regions(regions, at, b, r).len(),
        shift(cut_regions(regions, at, b, r)[i], at).has_point(p),
    ensures
        !in_corner(b, r, p),
{
    lemma_cut_regions_ok(regions, at, b, r);
    assert(piece_ok(cut_regions(regions, at, b, r)[i], at, b, r));
}

/// A mask's identity for change detection: its bounds and the bit pattern
/// of its (non-negative, zero-normalised) radius.
#[derive(Clone, Copy, Debug, PartialEq, Eq, Structural)]
pub struct MaskKey {
    pub bounds: Rect,
    pub radius_bits: u32,
}

/// `CommitCounter::increment`: wrapping.
pub open spec fn next_commit(c: usize) -> usize {
    if c == usize::MAX {
        0
    } else {
        (c + 1) as usize
    }
}

pub(crate) fn increment(c: usize) -> (r: usize)
    ensures
        r == next_commit(c),
{
    if c == usize::MAX {
        0
    } else {
        c + 1
    }
}

/// The commit state of one masked surface. Its commit changes whenever the
/// surface's own commit or its mask changes. When only the content changed,
/// `previous` pairs the masked commit before with the surface commit it
/// wrapped, so damage can still be asked of the surface itself.
#[derive(Clone, Copy, Debug)]
pub struct MaskedSurface {
    pub source: usize,
    pub mask: MaskKey,
    pub commit: usize,
    pub previous: Option<(usize, usize)>,
}

impl MaskedSurface {
    /// First sight of a surface: masked commit zero.
    pub fn new(source: usize, mask: MaskKey) -> (s: MaskedSurface)
        ensures
            s == (MaskedSurface { source, mask, commit: 0, previous: None }),
    {
        MaskedSurface { source, mask, commit: 0, previous: None }
    }

    /// Record the surface's current commit and mask; return the masked
    /// commit and the content-only predecessor, if any.
    pub fn update(&mut self, source: usize, mask: MaskKey) -> (r: (usize, Option<(usize, usize)>))
        ensures
            old(self).source == source && old(self).mask == mask ==> *final(self) == *old(self),
            !(old(self).source == source && old(self).mask == mask) ==> *final(self) == (MaskedSurface {
                source,
                mask,
                commit: next_commit(old(self).commit),
                previous: if old(self).mask == mask {
                    Some((old(self).commit, old(self).source))
                } else {
                    None
                },
            }),
            r == (final(self).commit, final(self).previous),
    {
        if self.source != source || self.mask != mask {
            self.previous = if self.mask == mask {
                Some((self.commit, self.source))
            } else {
                None
            };
            self.source = source;
            self.mask = mask;
            self.commit = increment(self.commit);
        }
        (self.commit, self.previous)
    }
}

/// The bit patterns of a premultiplied RGBA colour.
#[derive(Clone, Copy, Debug, PartialEq, Eq, Structural)]
pub struct ColorBits {
    pub r: u32,
    pub g: u32,
    pub b: u32,
    pub a: u32,
}

/// A border ring's identity: outer mask, colour, inner mask.
#[derive(Clone, Copy, Debug, PartialEq, Eq, Structural)]
pub struct RingKey {
    pub outer: MaskKey,
    pub color: ColorBits,
    pub inner: MaskKey,
}

/// The commit state of a window's border ring.
#[derive(Clone, Copy, Debug)]
pub struct RingCommit {
    pub key: RingKey,
    pub commit: usize,
}

impl RingCommit {
    pub fn new(key: RingKey) -> (s: RingCommit)
        ensures
            s == (RingCommit { key, commit: 0 }),
    {
        RingCommit { key, commit: 0 }
    }

    /// Record the ring's current look; its commit changes exactly when the
    /// look changed.
    pub fn update(&mut self, key: RingKey) -> (commit: usize)
        ensures
            final(self).key == key,
            final(self).commit == (if old(self).key == key {
                old(self).commit
            } else {
                next_commit(old(self).commit)
            }),
            commit == final(self).commit,
    {
        if self.key != key {
            self.key = key;
            self.commit = increment(self.commit);
        }
        self.commit
    }
}

/// The damage a masked element reports since an earlier commit.
#[derive(Clone, Copy, Debug, PartialEq, Eq, Structural)]
pub enum Damage {
    /// Unchanged since then.
    Nothing,
    /// Only the content changed: ask the wrapped element since this commit.
    Inner(usize),
    /// Everything.
    Full,
}

/// Damage of a masked element at `commit` with content-only predecessor
/// `previous`, since the commit `since` (none when never drawn).
pub fn masked_damage(commit: usize, previous: Option<(usize, usize)>, since: Option<usize>) -> (r: Damage)
    ensures
        r == (if since == Some(commit) {
            Damage::Nothing
        } else {
            match previous {
                Some((before, source)) => if since == Some(before) {
                    Damage::Inner(source)
                } else {
                    Damage::Full
                },
                None => Damage::Full,
            }
        }),
{
    match since {
        Some(c) => {
            if c == commit {
                return Damage::Nothing;
            }
            match previous {
                Some((before, source)) => {
                    if c == before {
                        Damage::Inner(source)
                    } else {
                        Damage::Full
                    }
                },
                None => Damage::Full,
            }
        },
        None => Damage::Full,
    }
}

/// What `MaskedSurface::update` makes of a surface's state.
pub open spec fn updated(m: MaskedSurface, source: usize, mask: MaskKey) -> MaskedSurface {
    if m.source == source && m.mask == mask {
        m
    } else {
        MaskedSurface {
            source,
            mask,
            commit: next_commit(m.commit),
            previous: if m.mask == mask { Some((m.commit, m.source)) } else { None },
        }
    }
}

/// No surface id is cached twice.
pub open spec fn distinct_ids(s: Seq<(u64, MaskedSurface)>) -> bool {
    forall|i: int, j: int| 0 <= i < j < s.len() ==> (#[trigger] s[i]).0 != (#[trigger] s[j]).0
}

/// The cache after recording surface `id` at commit `source` under
/// `mask`, and the surface's state.
pub open spec fn touch(s: Seq<(u64, MaskedSurface)>, id: u64, source: usize, mask: MaskKey) -> (Seq<(u64, MaskedSurface)>, MaskedSurface) {
    if exists|k: int| 0 <= k < s.len() && (#[trigger] s[k]).0 == id {
        let k = choose|k: int| 0 <= k < s.len() && (#[trigger] s[k]).0 == id;
        let m = updated(s[k].1, source, mask);
        (s.update(k, (id, m)), m)
    } else {
        let m = MaskedSurface { source, mask, commit: 0, previous: None };
        (s.push((id, m)), m)
    }
}

/// One element of a window's body, as masking sees it.
pub enum Layer<E> {
    /// A flat border stripe: the rounded ring replaces it.
    Border,
    /// A resize blend, which masks itself with the inner corners.
    Blend(E),
    /// Any other element: surface `id` at its own commit `source`.
    Surface { id: u64, source: usize, element: E },
}

/// One element of a rounded window.
pub enum RoundedLayer<E> {
    /// The border ring, at this commit.
    Ring { commit: usize },
    /// A resize blend, drawn with the inner mask as its corners.
    Blend(E),
    /// A surface drawn through the inner mask, with its masked commit and
    /// content-only predecessor.
    Masked { id: u64, element: E, commit: usize, previous: Option<(usize, usize)> },
}

/// The rounded body and the surface cache after it, for the first
/// layers of `body`.
pub open spec fn rounded_body<E>(body: Seq<Layer<E>>, mask: MaskKey, cache: Seq<(u64, MaskedSurface)>) -> (Seq<RoundedLayer<E>>, Seq<(u64, MaskedSurface)>)
    decreases body.len(),
{
    if body.len() == 0 {
        (Seq::empty(), cache)
    } else {
        let (out, s) = rounded_body(body.drop_last(), mask, cache);
        match body.last() {
            Layer::Border => (out, s),
            Layer::Blend(e) => (out.push(RoundedLayer::Blend(e)), s),
            Layer::Surface { id, source, element } => {
                let (s2, m) = touch(s, id, source, mask);
                (out.push(RoundedLayer::Masked { id, element, commit: m.commit, previous: m.previous }), s2)
            },
        }
    }
}

/// `body` has a surface `id` to mask.
pub open spec fn wraps<E>(body: Seq<Layer<E>>, id: u64) -> bool {
    exists|k: int| 0 <= k < body.len() && (#[trigger] body[k] matches Layer::Surface { id: x, .. } && x == id)
}

/// The ring after a window's look is recorded as `key`.
pub open spec fn ring_after(ring: Option<RingCommit>, key: RingKey) -> RingCommit {
    match ring {
        None => RingCommit { key, commit: 0 },
        Some(r) => RingCommit { key, commit: if r.key == key { r.commit } else { next_commit(r.commit) } },
    }
}

/// What a window's masks last looked like.
pub struct MaskCache {
    pub surfaces: Vec<(u64, MaskedSurface)>,
    pub ring: Option<RingCommit>,
}

impl MaskCache {
    pub fn new() -> (c: MaskCache)
        ensures
            c.surfaces@.len() == 0,
            c.ring is None,
    {
        MaskCache { surfaces: Vec::new(), ring: None }
    }

    fn touch(&mut self, id: u64, source: usize, mask: MaskKey) -> (m: MaskedSurface)
        requires
            distinct_ids(old(self).surfaces@),
        ensures
            (final(self).surfaces@, m) == touch(old(self).surfaces@, id, source, mask),
            distinct_ids(final(self).surfaces@),
            final(self).ring == old(self).ring,
    {
        let ghost before = self.surfaces@;
        let mut i: usize = 0;
        while i < self.surfaces.len()
            invariant
                i <= self.surfaces@.len(),
                self.surfaces@ == before,
                before == old(self).surfaces@,
                distinct_ids(before),
                self.ring == old(self).ring,
                forall|k: int| 0 <= k < i ==> (#[trigger] before[k]).0 != id,
            decreases self.surfaces@.len() - i,
        {
            if self.surfaces[i].0 == id {
                let mut m = self.surfaces[i].1;
                let ghost m0 = m;
                m.update(source, mask);
                assert(m == updated(m0, source, mask));
                self.surfaces.set(i, (id, m));
                proof {
                    assert(before == old(self).surfaces@);
                    assert(before[i as int].0 == id);
                    assert(exists|k: int| 0 <= k < before.len() && (#[trigger] before[k]).0 == id);
                    assert(m0 == before[i as int].1);
                    assert(self.surfaces@ == before.update(i as int, (id, m)));
                    let k = choose|k: int| 0 <= k < before.len() && (#[trigger] before[k]).0 == id;
                    assert(k == i as int) by {
                        if k < i as int {
                            assert(before[k].0 != before[i as int].0);
                        } else if k > i as int {
                            assert(before[i as int].0 != before[k].0);
                        }
                    }
                    assert(touch(before, id, source, mask) == (before.update(i as int, (id, m)), m));
                    assert forall|a: int, b: int| 0 <= a < b < self.surfaces@.len() implies (#[trigger] self.surfaces@[a]).0
                        != (#[trigger] self.surfaces@[b]).0 by {
                        assert(self.surfaces@[a].0 == before[a].0 && self.surfaces@[b].0 == before[b].0);
                    }
                }
                return m;
            }
            i = i + 1;
        }
        let m = MaskedSurface::new(source, mask);
        self.surfaces.push((id, m));
        proof {
            assert forall|a: int, b: int| 0 <= a < b < self.surfaces@.len() implies (#[trigger] self.surfaces@[a]).0
                != (#[trigger] self.surfaces@[b]).0 by {
                if b == before.len() {
                    assert(self.surfaces@[a] == before[a]);
                } else {
                    assert(self.surfaces@[a] == before[a] && self.surfaces@[b] == before[b]);
                }
            }
        }
        m
    }

    /// Round a window's body (see `Layer`). A window in a fullscreen
    /// allocation keeps square corners: its body comes back as it was and
    /// nothing is recorded. Otherwise the border ring comes first, exactly
    /// when the client area starts right of the frame (there is a border),
    /// recorded under `ring`; border stripes are dropped; blends are kept,
    /// to be masked with the `inner` corners; every other surface is drawn
    /// through the `inner` mask under the commit its cached state gives.
    /// The cache then keeps exactly the surfaces this body masked.
    pub fn round_window<E>(&mut self, fullscreen: bool, frame: Rect, client: Rect, ring: RingKey, inner: MaskKey, body: Vec<Layer<E>>) -> (r: Result<Vec<RoundedLayer<E>>, Vec<Layer<E>>>)
        requires
            distinct_ids(old(self).surfaces@),
        ensures
            distinct_ids(final(self).surfaces@),
            fullscreen ==> r == Err::<Vec<RoundedLayer<E>>, Vec<Layer<E>>>(body) && final(self).surfaces@ == old(self).surfaces@
                && final(self).ring == old(self).ring,
            !fullscreen ==> (r matches Ok(out) && out@ == (if client.loc.x > frame.loc.x {
                seq![RoundedLayer::<E>::Ring { commit: ring_after(old(self).ring, ring).commit }]
            } else {
                Seq::<RoundedLayer<E>>::empty()
            }) + rounded_body(body@, inner, old(self).surfaces@).0),
            !fullscreen ==> final(self).ring == (if client.loc.x > frame.loc.x {
                Some(ring_after(old(self).ring, ring))
            } else {
                old(self).ring
            }),
            !fullscreen ==> forall|p: (u64, MaskedSurface)| #[trigger] final(self).surfaces@.contains(p) <==> (rounded_body(
                body@,
                inner,
                old(self).surfaces@,
            ).1.contains(p) && wraps(body@, p.0)),
    {
        if fullscreen {
            return Err(body);
        }
        let ghost body0 = body@;
        let ghost s0 = self.surfaces@;
        let mut out: Vec<RoundedLayer<E>> = Vec::new();
        if client.loc.x > frame.loc.x {
            let mut r = match self.ring {
                None => RingCommit::new(ring),
                Some(r) => r,
            };
            let commit = r.update(ring);
            self.ring = Some(r);
            out.push(RoundedLayer::Ring { commit });
        }
        let ghost head = out@;
        let mut body = body;
        let total = body.len();
        assert(body0.len() == total);
        let mut ids: Vec<u64> = Vec::new();
        let mut j: usize = 0;
        while body.len() > 0
            invariant
                j + body@.len() == body0.len(),
                body0.len() <= usize::MAX,
                body@ == body0.skip(j as int),
                out@ == head + rounded_body(body0.take(j as int), inner, s0).0,
                self.surfaces@ == rounded_body(body0.take(j as int), inner, s0).1,
                distinct_ids(self.surfaces@),
                forall|x: u64| #[trigger] ids@.contains(x) <==> wraps(body0.take(j as int), x),
                self.ring == (if client.loc.x > frame.loc.x { Some(ring_after(old(self).ring, ring)) } else { old(self).ring }),
            decreases body@.len(),
        {
            let ghost pre = body0.take(j as int);
            let ghost next = body0.take(j + 1);
            proof {
                assert(next.drop_last() =~= pre);
                assert(body@[0] == body0[j as int]);
                assert(next.last() == body0[j as int]);
                reveal_with_fuel(rounded_body, 2);
            }
            let ghost ids0 = ids@;
            let layer = body.remove(0);
            match layer {
                Layer::Border => {},
                Layer::Blend(e) => {
                    out.push(RoundedLayer::Blend(e));
                },
                Layer::Surface { id, source, element } => {
                    let m = self.touch(id, source, inner);
                    out.push(RoundedLayer::Masked { id, element, commit: m.commit, previous: m.previous });
                    ids.push(id);
                },
            }
            proof {
                match next.last() {
                    Layer::Surface { id, .. } => {
                        assert(ids@ == ids0.push(id));
                    },
                    _ => {
                        assert(ids@ == ids0);
                    },
                }
            }
            proof {
                assert(body@ =~= body0.skip(j + 1));
                assert forall|x: u64| #[trigger] ids@.contains(x) <==> wraps(next, x) by {
                    if ids@.contains(x) && !ids0.contains(x) {
                        let q = choose|q: int| 0 <= q < ids@.len() && ids@[q] == x;
                        if q < ids0.len() {
                            assert(ids0[q] == x);
                        }
                        assert(next[pre.len() as int] == next.last());
                    }
                    if ids0.contains(x) {
                        let q = choose|q: int| 0 <= q < ids0.len() && ids0[q] == x;
                        assert(ids@[q] == x);
                    }
                    if wraps(next, x) {
                        let k = choose|k: int| 0 <= k < next.len() && (#[trigger] next[k] matches Layer::Surface { id: y, .. } && y == x);
                        if k < pre.len() {
                            assert(pre[k] == next[k]);
                            assert(wraps(pre, x));
                        }
                    }
                    if wraps(pre, x) {
                        let k = choose|k: int| 0 <= k < pre.len() && (#[trigger] pre[k] matches Layer::Surface { id: y, .. } && y == x);
                        assert(next[k] == pre[k]);
                    }
                    if next.last() matches Layer::Surface { id: y, .. } && y == x {
                        assert(next[pre.len() as int] == next.last());
                        assert(ids@[ids@.len() - 1] == x);
                    }
                }
            }
            j = j + 1;
        }
        proof {
            assert(body0.take(j as int) =~= body0);
        }
        let ghost full = self.surfaces@;
        let mut kept: Vec<(u64, MaskedSurface)> = Vec::new();
        let mut i: usize = 0;
        while i < self.surfaces.len()
            invariant
                i <= full.len(),
                self.surfaces@ == full,
                distinct_ids(full),
                forall|x: u64| #[trigger] ids@.contains(x) <==> wraps(body0, x),
                forall|p: (u64, MaskedSurface)| #[trigger] kept@.contains(p) <==> (full.take(i as int).contains(p) && wraps(body0, p.0)),
                forall|k: int| 0 <= k < kept@.len() ==> exists|m: int| 0 <= m < i && #[trigger] kept@[k].0 == full[m].0,
                distinct_ids(kept@),
            decreases full.len() - i,
        {
            let p = self.surfaces[i];
            let ghost kept0 = kept@;
            let mut found = false;
            let mut n: usize = 0;
            while n < ids.len()
                invariant
                    n <= ids@.len(),
                    found == exists|q: int| 0 <= q < n && ids@[q] == p.0,
                decreases ids@.len() - n,
            {
                if ids[n] == p.0 {
                    found = true;
                }
                n = n + 1;
            }
            assert(found == ids@.contains(p.0));
            if found {
                kept.push(p);
            }
            assert(found ==> kept@ == kept0.push(p));
            assert(!found ==> kept@ == kept0);
            assert(p == full[i as int]);
            proof {
                assert(full.take(i + 1) =~= full.take(i as int).push(p));
                assert forall|q: (u64, MaskedSurface)| #[trigger] kept@.contains(q) <==> (full.take(i + 1).contains(q) && wraps(body0, q.0)) by {
                    if kept@.contains(q) {
                        let k = choose|k: int| 0 <= k < kept@.len() && kept@[k] == q;
                        if k < kept0.len() {
                            assert(kept0[k] == q);
                            assert(kept0.contains(q));
                            let t = choose|t: int| 0 <= t < full.take(i as int).len() && full.take(i as int)[t] == q;
                            assert(full.take(i + 1)[t] == q);
                        } else {
                            assert(q == p);
                            assert(full.take(i + 1)[i as int] == p);
                        }
                    }
                    if full.take(i + 1).contains(q) && wraps(body0, q.0) {
                        let upto = full.take(i + 1);
                        let k = choose|k: int| 0 <= k < upto.len() && #[trigger] upto[k] == q;
                        if k < i {
                            assert(full.take(i as int)[k] == upto[k]);
                            assert(full.take(i as int).contains(q));
                            assert(kept0.contains(q));
                            let t = choose|t: int| 0 <= t < kept0.len() && kept0[t] == q;
                            assert(kept@[t] == q);
                        } else {
                            assert(kept@[kept@.len() - 1] == q);
                        }
                    }
                }
                assert forall|k: int| 0 <= k < kept@.len() implies exists|m: int| 0 <= m < i + 1 && #[trigger] kept@[k].0 == full[m].0 by {
                    if k < kept0.len() {
                        assert(kept@[k] == kept0[k]);
                        let m = choose|m: int| 0 <= m < i && kept0[k].0 == full[m].0;
                        assert(kept@[k].0 == full[m].0);
                    } else {
                        assert(kept@[k].0 == full[i as int].0);
                    }
                }
                assert forall|a: int, b: int| 0 <= a < b < kept@.len() implies (#[trigger] kept@[a]).0 != (#[trigger] kept@[b]).0 by {
                    if b < kept0.len() {
                        assert(kept@[a] == kept0[a] && kept@[b] == kept0[b]);
                    } else {
                        assert(kept@[a] == kept0[a]);
                        let m = choose|m: int| 0 <= m < i && kept0[a].0 == full[m].0;
                        assert(full[m].0 != full[i as int].0);
                    }
                }
            }
            i = i + 1;
        }
        proof {
            assert(full.take(i as int) =~= full);
        }
        self.surfaces = kept;
        Ok(out)
    }
}

} // verus!
