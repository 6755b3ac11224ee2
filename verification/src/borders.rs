//! The flat window border: the frame minus the client area, as four
//! stripes clipped to the output.
use crate::geometry::{extremities, Point, Rect};
use vstd::prelude::*;

verus! {

/// Stripe `k` of the border between `frame` and `client`: top and bottom
/// span the whole frame width and own the corners, so translucent edges
/// never blend twice; left and right fill the client's height.
pub open spec fn stripe(frame: Rect, client: Rect, k: int) -> Rect {
    let end = Point { x: frame.right(), y: frame.bottom() };
    let inner_end = Point { x: client.right(), y: client.bottom() };
    if k == 0 {
        extremities(frame.loc, Point { x: end.x, y: client.loc.y })
    } else if k == 1 {
        extremities(Point { x: frame.loc.x, y: inner_end.y }, end)
    } else if k == 2 {
        extremities(Point { x: frame.loc.x, y: client.loc.y }, Point { x: client.loc.x, y: inner_end.y })
    } else {
        extremities(Point { x: inner_end.x, y: client.loc.y }, Point { x: end.x, y: inner_end.y })
    }
}

/// The visible part of stripe `k`, if it has area on the output.
pub open spec fn visible_stripe(frame: Rect, client: Rect, clip: Rect, k: int) -> Option<Rect> {
    match stripe(frame, client, k).meet(clip) {
        Some(g) => if g.size.w > 0 && g.size.h > 0 {
            Some(g)
        } else {
            None
        },
        None => None,
    }
}

/// The visible stripes among the first `n`, each with its slot.
pub open spec fn visible_stripes(frame: Rect, client: Rect, clip: Rect, n: int) -> Seq<(usize, Rect)>
    decreases n,
{
    if n <= 0 {
        Seq::empty()
    } else {
        let rest = visible_stripes(frame, client, clip, n - 1);
        match visible_stripe(frame, client, clip, n - 1) {
            Some(g) => rest.push(((n - 1) as usize, g)),
            None => rest,
        }
    }
}

/// The border stripes to draw, in slot order (top, bottom, left, right),
/// each clipped to the output and only where it has area. All rectangles
/// are in output pixels, already rounded at shared edges.
pub fn stripes(frame: Rect, client: Rect, clip: Rect) -> (r: Vec<(usize, Rect)>)
    ensures
        r@ == visible_stripes(frame, client, clip, 4),
{
    let end = Point { x: frame.right_edge(), y: frame.bottom_edge() };
    let inner_end = Point { x: client.right_edge(), y: client.bottom_edge() };
    let top = Rect::from_extremities(frame.loc, Point { x: end.x, y: client.loc.y });
    let bottom = Rect::from_extremities(Point { x: frame.loc.x, y: inner_end.y }, end);
    let left = Rect::from_extremities(
        Point { x: frame.loc.x, y: client.loc.y },
        Point { x: client.loc.x, y: inner_end.y },
    );
    let right = Rect::from_extremities(
        Point { x: inner_end.x, y: client.loc.y },
        Point { x: end.x, y: inner_end.y },
    );
    let all = [top, bottom, left, right];
    let mut r: Vec<(usize, Rect)> = Vec::new();
    let mut k: usize = 0;
    while k < 4
        invariant
            k <= 4,
            all@ == seq![
                stripe(frame, client, 0),
                stripe(frame, client, 1),
                stripe(frame, client, 2),
                stripe(frame, client, 3),
            ],
            r@ == visible_stripes(frame, client, clip, k as int),
        decreases 4 - k,
    {
        let s = all[k];
        assert(s == stripe(frame, client, k as int));
        match s.intersection(&clip) {
            Some(g) => {
                if g.size.w > 0 && g.size.h > 0 {
                    r.push((k, g));
                }
            },
            None => {},
        }
        k = k + 1;
    }
    r
}

/// The border of a window whose layout frame and client rectangles are
/// `layout_frame` and `layout_client`, drawn with `frame`, `client` and
/// `clip` in output pixels: nothing when the window has no border (the two
/// layout rectangles agree) or the border is fully transparent, else the
/// visible `stripes`.
pub fn border_stripes(layout_frame: Rect, layout_client: Rect, transparent: bool, frame: Rect, client: Rect, clip: Rect) -> (r: Vec<(usize, Rect)>)
    ensures
        r@ == (if layout_frame == layout_client || transparent {
            Seq::empty()
        } else {
            visible_stripes(frame, client, clip, 4)
        }),
{
    if layout_frame == layout_client || transparent {
        return Vec::new();
    }
    stripes(frame, client, clip)
}

/// `client` lies inside `frame`, with non-negative extents and edges that
/// fit `i32`.
pub open spec fn nested(frame: Rect, client: Rect) -> bool {
    &&& frame.size.w >= 0 && frame.size.h >= 0 && client.size.w >= 0 && client.size.h >= 0
    &&& frame.loc.x + frame.size.w <= i32::MAX && frame.loc.y + frame.size.h <= i32::MAX
    &&& client.loc.x + client.size.w <= i32::MAX && client.loc.y + client.size.h <= i32::MAX
    &&& frame.loc.x <= client.loc.x && client.loc.x + client.size.w <= frame.loc.x + frame.size.w
    &&& frame.loc.y <= client.loc.y && client.loc.y + client.size.h <= frame.loc.y + frame.size.h
}

/// The border never blends twice: no two stripes overlap, and none
/// overlaps the client area.
pub proof fn lemma_stripes_disjoint(frame: Rect, client: Rect, k: int, l: int)
    requires
        nested(frame, client),
        0 <= k < 4,
        0 <= l < 4,
        k != l,
    ensures
        !stripe(frame, client, k).overlaps_spec(stripe(frame, client, l)),
        !stripe(frame, client, k).overlaps_spec(client),
{
}

/// The stripes cover the whole border: every point of the frame outside
/// the client area lies in one of them.
pub proof fn lemma_stripes_cover(frame: Rect, client: Rect, p: Point)
    requires
        nested(frame, client),
        frame.has_point(p),
        !client.has_point(p),
    ensures
        exists|k: int| 0 <= k < 4 && #[trigger] stripe(frame, client, k).has_point(p),
{
    if p.y < client.loc.y {
        assert(stripe(frame, client, 0).has_point(p));
    } else if p.y >= client.loc.y + client.size.h {
        assert(stripe(frame, client, 1).has_point(p));
    } else if p.x < client.loc.x {
        assert(stripe(frame, client, 2).has_point(p));
    } else {
        assert(stripe(frame, client, 3).has_point(p));
    }
}

} // verus!
