//! What drawing code hands the engines: single pixels, and rectangles filled
//! row-major from a colour list.
use vstd::prelude::*;

verus! {

/// A pixel at (x, y) with a colour; positions may lie off the frame.
#[derive(Clone, Copy, Debug, PartialEq, Eq, Structural)]
pub struct Pixel<C> {
    pub x: i32,
    pub y: i32,
    pub color: C,
}

/// The colour of the last pixel in `pixels` placed at (x, y), if any.
pub open spec fn last_write<C>(pixels: Seq<Pixel<C>>, x: int, y: int) -> Option<C>
    decreases pixels.len(),
{
    if pixels.len() == 0 {
        None
    } else if pixels.last().x == x && pixels.last().y == y {
        Some(pixels.last().color)
    } else {
        last_write(pixels.drop_last(), x, y)
    }
}

/// Writing one more pixel: (x, y) now reads its colour if it is placed
/// there, and what it read before otherwise.
pub proof fn lemma_last_write_push<C>(pixels: Seq<Pixel<C>>, p: Pixel<C>, x: int, y: int)
    ensures
        last_write(pixels.push(p), x, y) == if p.x == x && p.y == y {
            Some(p.color)
        } else {
            last_write(pixels, x, y)
        },
{
    assert(pixels.push(p).drop_last() =~= pixels);
}

/// Whether (u, v) lies in the `width` x `height` rectangle at (x, y).
pub open spec fn in_rect(x: int, y: int, width: int, height: int, u: int, v: int) -> bool {
    x <= u < x + width && y <= v < y + height
}

/// The position in a row-major colour list of pixel (u, v) of the rectangle
/// at (x, y) that is `width` wide.
pub open spec fn rect_offset(x: int, y: int, width: int, u: int, v: int) -> int {
    (v - y) * width + (u - x)
}

/// A row-major offset within the rectangle lies within its colour list.
pub proof fn lemma_rect_offset(width: int, height: int, i: int, j: int)
    requires
        0 <= i < width,
        0 <= j < height,
    ensures
        0 <= j * width + i < width * height,
{
    assert(0 <= j * width + i < width * height) by (nonlinear_arith)
        requires
            0 <= i < width,
            0 <= j < height,
    ;
}

} // verus!
