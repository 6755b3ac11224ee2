//! Integer rectangles in output pixels, with the saturating edge arithmetic
//! that the compositor's rectangle type uses.
use vstd::prelude::*;

verus! {

/// Clamp a mathematical integer into the `i32` range.
pub open spec fn clamp_i32(v: int) -> i32 {
    if v < i32::MIN {
        i32::MIN
    } else if v > i32::MAX {
        i32::MAX
    } else {
        v as i32
    }
}

/// `a + b`, saturating at the bounds of `i32`.
pub fn sat_add(a: i32, b: i32) -> (r: i32)
    ensures
        r == clamp_i32(a + b),
{
    let s: i64 = a as i64 + b as i64;
    if s < i32::MIN as i64 {
        i32::MIN
    } else if s > i32::MAX as i64 {
        i32::MAX
    } else {
        s as i32
    }
}

/// `a - b`, saturating at the bounds of `i32`.
pub fn sat_sub(a: i32, b: i32) -> (r: i32)
    ensures
        r == clamp_i32(a - b),
{
    let s: i64 = a as i64 - b as i64;
    if s < i32::MIN as i64 {
        i32::MIN
    } else if s > i32::MAX as i64 {
        i32::MAX
    } else {
        s as i32
    }
}

pub fn min_i32(a: i32, b: i32) -> (r: i32)
    ensures
        r == (if a <= b { a } else { b }),
{
    if a <= b {
        a
    } else {
        b
    }
}

pub fn max_i32(a: i32, b: i32) -> (r: i32)
    ensures
        r == (if a >= b { a } else { b }),
{
    if a >= b {
        a
    } else {
        b
    }
}

#[derive(Clone, Copy, Debug, PartialEq, Eq, Structural)]
pub struct Point {
    pub x: i32,
    pub y: i32,
}

#[derive(Clone, Copy, Debug, PartialEq, Eq, Structural)]
pub struct Size {
    pub w: i32,
    pub h: i32,
}

/// A rectangle: its top-left corner and its extent.
#[derive(Clone, Copy, Debug, PartialEq, Eq, Structural)]
pub struct Rect {
    pub loc: Point,
    pub size: Size,
}

pub open spec fn rect_spec(x: i32, y: i32, w: i32, h: i32) -> Rect {
    Rect { loc: Point { x, y }, size: Size { w, h } }
}

/// The rectangle spanned by a top-left and a bottom-right corner.
pub open spec fn extremities(tl: Point, br: Point) -> Rect {
    Rect { loc: tl, size: Size { w: clamp_i32(br.x - tl.x), h: clamp_i32(br.y - tl.y) } }
}

impl Rect {
    /// Right edge (exclusive), saturating.
    pub open spec fn right(self) -> i32 {
        clamp_i32(self.loc.x + self.size.w)
    }

    /// Bottom edge (exclusive), saturating.
    pub open spec fn bottom(self) -> i32 {
        clamp_i32(self.loc.y + self.size.h)
    }

    /// One of the extents is zero.
    pub open spec fn empty(self) -> bool {
        self.size.w == 0 || self.size.h == 0
    }

    pub open spec fn has_point(self, p: Point) -> bool {
        self.loc.x <= p.x < self.right() && self.loc.y <= p.y < self.bottom()
    }

    /// The two rectangles share an interior point (strict overlap).
    pub open spec fn overlaps_spec(self, other: Rect) -> bool {
        &&& self.loc.x < other.right()
        &&& other.loc.x < self.right()
        &&& self.loc.y < other.bottom()
        &&& other.loc.y < self.bottom()
    }

    /// The overlap of two rectangles, if they overlap.
    pub open spec fn meet(self, other: Rect) -> Option<Rect> {
        if !self.overlaps_spec(other) {
            None
        } else {
            let tl = Point {
                x: if self.loc.x >= other.loc.x { self.loc.x } else { other.loc.x },
                y: if self.loc.y >= other.loc.y { self.loc.y } else { other.loc.y },
            };
            let br = Point {
                x: if self.right() <= other.right() { self.right() } else { other.right() },
                y: if self.bottom() <= other.bottom() { self.bottom() } else { other.bottom() },
            };
            Some(extremities(tl, br))
        }
    }

    pub fn new(x: i32, y: i32, w: i32, h: i32) -> (r: Rect)
        ensures
            r == rect_spec(x, y, w, h),
    {
        Rect { loc: Point { x, y }, size: Size { w, h } }
    }

    pub fn from_extremities(tl: Point, br: Point) -> (r: Rect)
        ensures
            r == extremities(tl, br),
    {
        Rect { loc: tl, size: Size { w: sat_sub(br.x, tl.x), h: sat_sub(br.y, tl.y) } }
    }

    pub fn right_edge(&self) -> (r: i32)
        ensures
            r == self.right(),
    {
        sat_add(self.loc.x, self.size.w)
    }

    pub fn bottom_edge(&self) -> (r: i32)
        ensures
            r == self.bottom(),
    {
        sat_add(self.loc.y, self.size.h)
    }

    pub fn is_empty(&self) -> (r: bool)
        ensures
            r == self.empty(),
    {
        self.size.w == 0 || self.size.h == 0
    }

    pub fn contains(&self, p: Point) -> (r: bool)
        ensures
            r == self.has_point(p),
    {
        p.x >= self.loc.x && p.x < self.right_edge() && p.y >= self.loc.y && p.y
            < self.bottom_edge()
    }

    pub fn overlaps(&self, other: &Rect) -> (r: bool)
        ensures
            r == self.overlaps_spec(*other),
    {
        self.loc.x < other.right_edge() && other.loc.x < self.right_edge() && self.loc.y
            < other.bottom_edge() && other.loc.y < self.bottom_edge()
    }

    pub fn intersection(&self, other: &Rect) -> (r: Option<Rect>)
        ensures
            r == self.meet(*other),
    {
        if !self.overlaps(other) {
            return None;
        }
        let tl = Point { x: max_i32(self.loc.x, other.loc.x), y: max_i32(self.loc.y, other.loc.y) };
        let br = Point {
            x: min_i32(self.right_edge(), other.right_edge()),
            y: min_i32(self.bottom_edge(), other.bottom_edge()),
        };
        Some(Rect::from_extremities(tl, br))
    }
}

/// The non-empty rectangles of `s`, in order.
pub open spec fn keep_nonempty(s: Seq<Rect>) -> Seq<Rect>
    decreases s.len(),
{
    if s.len() == 0 {
        Seq::empty()
    } else if s.last().empty() {
        keep_nonempty(s.drop_last())
    } else {
        keep_nonempty(s.drop_last()).push(s.last())
    }
}

/// Drop the empty rectangles, keeping the order of the others.
pub fn nonempty_regions(v: Vec<Rect>) -> (r: Vec<Rect>)
    ensures
        r@ == keep_nonempty(v@),
{
    let mut r: Vec<Rect> = Vec::new();
    let mut i: usize = 0;
    while i < v.len()
        invariant
            i <= v@.len(),
            r@ == keep_nonempty(v@.subrange(0, i as int)),
        decreases v@.len() - i,
    {
        assert(v@.subrange(0, i + 1).drop_last() == v@.subrange(0, i as int));
        if !v[i].is_empty() {
            r.push(v[i]);
        }
        i = i + 1;
    }
    assert(v@.subrange(0, v@.len() as int) == v@);
    r
}

/// `r` moved by `-by`, saturating.
pub open spec fn shifted_back(r: Rect, by: Point) -> Rect {
    Rect { loc: Point { x: clamp_i32(r.loc.x - by.x), y: clamp_i32(r.loc.y - by.y) }, size: r.size }
}

/// The parts of `damage` inside `rect`, relative to `rect`'s corner.
pub open spec fn clips_of(damage: Seq<Rect>, rect: Rect) -> Seq<Rect>
    decreases damage.len(),
{
    if damage.len() == 0 {
        Seq::empty()
    } else {
        match damage.last().meet(rect) {
            Some(m) => clips_of(damage.drop_last(), rect).push(shifted_back(m, rect.loc)),
            None => clips_of(damage.drop_last(), rect),
        }
    }
}

/// Clip each damage rectangle to `rect` and express it relative to `rect`.
pub fn clip_damage(damage: &Vec<Rect>, rect: Rect) -> (r: Vec<Rect>)
    ensures
        r@ == clips_of(damage@, rect),
{
    let mut r: Vec<Rect> = Vec::new();
    let mut i: usize = 0;
    while i < damage.len()
        invariant
            i <= damage@.len(),
            r@ == clips_of(damage@.subrange(0, i as int), rect),
        decreases damage@.len() - i,
    {
        assert(damage@.subrange(0, i + 1).drop_last() == damage@.subrange(0, i as int));
        match damage[i].intersection(&rect) {
            Some(m) => {
                r.push(
                    Rect {
                        loc: Point { x: sat_sub(m.loc.x, rect.loc.x), y: sat_sub(m.loc.y, rect.loc.y) },
                        size: m.size,
                    },
                );
            },
            None => {},
        }
        i = i + 1;
    }
    assert(damage@.subrange(0, damage@.len() as int) == damage@);
    r
}

} // verus!
