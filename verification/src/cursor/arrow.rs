//! The built-in arrow cursor, drawn when no theme cursor is available.
use vstd::prelude::*;

verus! {

/// Width of the arrow image in pixels.
pub const WIDTH: usize = 24;

/// Height of the arrow image in pixels.
pub const HEIGHT: usize = 32;

/// The arrow's shape in image coordinates, which include a two-pixel margin:
/// an arrowhead over rows 0..=21 of the shape, then a slanted stem over rows
/// 15..=27 whose left edge moves right by one pixel every second row.
pub open spec fn arrow_at(x: int, y: int) -> bool {
    let (x, y) = (x - 2, y - 2);
    (0 <= y <= 21 && x >= 0 && x <= y / 2 && (y <= 15 || x <= 5)) || (15 <= y <= 27 && x - (y
        - 15) / 2 >= 4 && x - (y - 15) / 2 <= 8)
}

/// An arrow pixel with a 4-neighbour outside the arrow is part of its outline.
pub open spec fn edge_at(x: int, y: int) -> bool {
    !arrow_at(x - 1, y) || !arrow_at(x + 1, y) || !arrow_at(x, y - 1) || !arrow_at(x, y + 1)
}

/// Dark outline, light body.
pub open spec fn shade_at(x: int, y: int) -> u8 {
    if edge_at(x, y) {
        24
    } else {
        245
    }
}

/// Byte `c` (0..4) of pixel (x, y): opaque grey B, G, R, A for arrow pixels,
/// transparent zero elsewhere.
pub open spec fn pixel_byte(x: int, y: int, c: int) -> u8 {
    if !arrow_at(x, y) {
        0
    } else if c == 3 {
        255
    } else {
        shade_at(x, y)
    }
}

/// The whole row-major image, four bytes per pixel.
pub open spec fn arrow_image() -> Seq<u8> {
    Seq::new(
        (WIDTH * HEIGHT * 4) as nat,
        |i: int| pixel_byte((i / 4) % (WIDTH as int), (i / 4) / (WIDTH as int), i % 4),
    )
}

/// Whether image pixel (x, y) belongs to the arrow. Defined wherever the
/// arrow's coordinates, shifted by the margin and along the stem, fit `i32`.
pub fn arrow_pixel(x: i32, y: i32) -> (r: bool)
    requires
        x >= i32::MIN + 2,
        y >= i32::MIN + 2,
        17 <= y <= 29 ==> x - 2 - (y - 17) / 2 >= i32::MIN,
    ensures
        r == arrow_at(x as int, y as int),
{
    let x = x - 2;
    let y = y - 2;
    (0 <= y && y <= 21 && x >= 0 && x <= y / 2 && (y <= 15 || x <= 5)) || (15 <= y && y <= 27 && (x
        - (y - 15) / 2 >= 4) && (x - (y - 15) / 2 <= 8))
}

proof fn lemma_offset(x: int, y: int, c: int)
    requires
        0 <= x < 24,
        0 <= y < 32,
        0 <= c < 4,
    ensures
        ((y * 24 + x) * 4 + c) / 4 == y * 24 + x,
        ((y * 24 + x) * 4 + c) % 4 == c,
        (y * 24 + x) % 24 == x,
        (y * 24 + x) / 24 == y,
{
    assert(((y * 24 + x) * 4 + c) / 4 == y * 24 + x) by (nonlinear_arith)
        requires
            0 <= x < 24,
            0 <= y < 32,
            0 <= c < 4,
    ;
    assert(((y * 24 + x) * 4 + c) % 4 == c) by (nonlinear_arith)
        requires
            0 <= x < 24,
            0 <= y < 32,
            0 <= c < 4,
    ;
    assert((y * 24 + x) % 24 == x) by (nonlinear_arith)
        requires
            0 <= x < 24,
            0 <= y < 32,
    ;
    assert((y * 24 + x) / 24 == y) by (nonlinear_arith)
        requires
            0 <= x < 24,
            0 <= y < 32,
    ;
}

/// The arrow's pixels: BGRA bytes (native little-endian ARGB words) with
/// equal colour channels, so the grey has no channel-order ambiguity.
pub fn default_arrow_pixels() -> (pixels: Vec<u8>)
    ensures
        pixels@ == arrow_image(),
{
    let mut pixels: Vec<u8> = Vec::new();
    let mut y: i32 = 0;
    while y < HEIGHT as i32
        invariant
            0 <= y <= 32,
            pixels@.len() == y * 24 * 4,
            forall|i: int| 0 <= i < pixels@.len() ==> pixels@[i] == arrow_image()[i],
        decreases 32 - y,
    {
        let mut x: i32 = 0;
        while x < WIDTH as i32
            invariant
                0 <= y < 32,
                0 <= x <= 24,
                pixels@.len() == (y * 24 + x) * 4,
                forall|i: int| 0 <= i < pixels@.len() ==> pixels@[i] == arrow_image()[i],
            decreases 24 - x,
        {
            let inside = arrow_pixel(x, y);
            let edge = !arrow_pixel(x - 1, y) || !arrow_pixel(x + 1, y) || !arrow_pixel(x, y - 1)
                || !arrow_pixel(x, y + 1);
            let shade: u8 = if edge {
                24
            } else {
                245
            };
            let (colour, alpha): (u8, u8) = if inside {
                (shade, 255)
            } else {
                (0, 0)
            };
            let ghost start = pixels@.len() as int;
            pixels.push(colour);
            pixels.push(colour);
            pixels.push(colour);
            pixels.push(alpha);
            proof {
                assert forall|c: int| #![trigger pixels@[start + c]] 0 <= c < 4 implies pixels@[start + c] == arrow_image()[start
                    + c] by {
                    lemma_offset(x as int, y as int, c);
                }
                assert forall|i: int| 0 <= i < pixels@.len() implies pixels@[i]
                    == arrow_image()[i] by {
                    if i >= start {
                        assert(pixels@[start + (i - start)] == arrow_image()[start + (i - start)]);
                    }
                }
            }
            x = x + 1;
        }
        y = y + 1;
    }
    pixels
}

} // verus!
