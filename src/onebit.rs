//! The one-bit engine: a 128 x 64 monochrome frame, landscape or portrait,
//! one byte per pixel, diffed pixel by pixel.
use vstd::prelude::*;

use crate::frugger::{fill_all, filled, filled_vec};
use crate::surface::{in_rect, last_write, lemma_last_write_push, lemma_rect_offset, rect_offset, Pixel};

verus! {

/// Pixels in one monochrome frame, whichever way it is turned.
pub const ONEBIT_PIXELS: usize = 8192;

/// Byte of an unlit pixel.
pub const OFF_BYTE: u8 = 0;

/// Byte of a lit pixel.
pub const ON_BYTE: u8 = 1;

/// Byte written to the committed frame to force a full redraw; it encodes no
/// colour.
pub const ONEBIT_SENTINEL: u8 = 0xff;

/// How the panel is turned: landscape is 128 wide and 64 high, portrait the
/// other way round.
#[derive(Clone, Copy, Debug, PartialEq, Eq, Structural)]
pub enum Orientation {
    Landscape,
    Portrait,
}

/// The colour of a monochrome pixel.
#[derive(Clone, Copy, Debug, PartialEq, Eq, Structural)]
pub enum BinaryColor {
    Off,
    On,
}

/// Frame width in pixels for an orientation.
pub open spec fn width_of(o: Orientation) -> int {
    match o {
        Orientation::Landscape => 128,
        Orientation::Portrait => 64,
    }
}

/// Frame height in pixels for an orientation.
pub open spec fn height_of(o: Orientation) -> int {
    match o {
        Orientation::Landscape => 64,
        Orientation::Portrait => 128,
    }
}

/// The byte that stores a colour.
pub open spec fn byte_of(c: BinaryColor) -> u8 {
    match c {
        BinaryColor::Off => OFF_BYTE,
        BinaryColor::On => ON_BYTE,
    }
}

/// The colour a byte stores, if it stores one.
pub open spec fn color_of_byte(b: u8) -> Option<BinaryColor> {
    if b == OFF_BYTE {
        Some(BinaryColor::Off)
    } else if b == ON_BYTE {
        Some(BinaryColor::On)
    } else {
        None
    }
}

/// Whether (x, y) lies on a frame `width` wide and `height` high.
pub open spec fn on_panel(width: int, height: int, x: int, y: int) -> bool {
    0 <= x < width && 0 <= y < height
}

/// What a one-byte-per-pixel frame `width` wide holds at (x, y): a colour,
/// or `None` for a byte that encodes none.
pub open spec fn panel_pixel(frame: Seq<u8>, width: int, x: int, y: int) -> Option<BinaryColor> {
    color_of_byte(frame[y * width + x])
}

/// Every byte of the frame stores a colour.
pub open spec fn all_colors(frame: Seq<u8>) -> bool {
    forall|i: int| 0 <= i < frame.len() ==> #[trigger] color_of_byte(frame[i]).is_some()
}

/// Row-major pixel `i` of a frame `width` wide, as an update written with the
/// pending colour.
pub open spec fn update_at(pending: Seq<u8>, width: int, i: int) -> Pixel<BinaryColor> {
    Pixel { x: (i % width) as i32, y: (i / width) as i32, color: color_of_byte(pending[i]).unwrap() }
}

/// The updates for the first `n` pixels in row-major order: one for each
/// pixel whose pending colour differs from what the committed frame holds.
pub open spec fn pixel_updates(pending: Seq<u8>, committed: Seq<u8>, width: int, n: int) -> Seq<
    Pixel<BinaryColor>,
>
    decreases n,
{
    if n <= 0 {
        Seq::empty()
    } else if color_of_byte(pending[n - 1]) != color_of_byte(committed[n - 1]) {
        pixel_updates(pending, committed, width, n - 1).push(update_at(pending, width, n - 1))
    } else {
        pixel_updates(pending, committed, width, n - 1)
    }
}

/// The monochrome engine: the frame last sent to the display (`committed`)
/// and the frame being drawn (`pending`), one byte per pixel.
pub struct OneBit {
    last_frame: Vec<u8>,
    next_frame: Vec<u8>,
    scr_width: usize,
    orientation: Orientation,
}

/// Distinct positions on a panel `width` wide have distinct row-major
/// indices, and each index lies within the frame.
proof fn lemma_panel_index(width: int, height: int, x: int, y: int, u: int, v: int)
    requires
        on_panel(width, height, x, y),
        on_panel(width, height, u, v),
    ensures
        0 <= y * width + x < width * height,
        (u, v) != (x, y) ==> v * width + u != y * width + x,
{
    assert(0 <= y * width + x < width * height) by (nonlinear_arith)
        requires
            on_panel(width, height, x, y),
    ;
    if (u, v) != (x, y) && v * width + u == y * width + x {
        if v == y {
        } else if v < y {
            assert(v * width + width <= y * width) by (nonlinear_arith)
                requires
                    v < y,
                    width > 0,
            ;
        } else {
            assert(y * width + width <= v * width) by (nonlinear_arith)
                requires
                    y < v,
                    width > 0,
            ;
        }
    }
}

/// Row-major index `i` of a panel `width` wide is pixel (i % width, i / width).
proof fn lemma_index_position(width: int, height: int, i: int)
    requires
        0 <= i < width * height,
        0 < width,
        0 < height,
    ensures
        on_panel(width, height, i % width, i / width),
        (i / width) * width + i % width == i,
{
    assert(0 <= i / width < height) by (nonlinear_arith)
        requires
            0 <= i < width * height,
            0 < width,
    ;
    assert((i / width) * width + i % width == i) by (nonlinear_arith)
        requires
            0 < width,
    ;
}

/// Compares two monochrome frames pixel by pixel, row-major, and returns an
/// update for each pixel where the pending colour differs from what the
/// committed frame holds.
pub fn diff_pixels(pending: &Vec<u8>, committed: &Vec<u8>, width: usize) -> (r: Vec<Pixel<BinaryColor>>)
    requires
        pending@.len() == ONEBIT_PIXELS,
        committed@.len() == ONEBIT_PIXELS,
        width == 64 || width == 128,
        all_colors(pending@),
    ensures
        r@ == pixel_updates(pending@, committed@, width as int, ONEBIT_PIXELS as int),
{
    let mut out: Vec<Pixel<BinaryColor>> = Vec::new();
    let mut idx: usize = 0;
    while idx < ONEBIT_PIXELS
        invariant
            pending@.len() == ONEBIT_PIXELS,
            committed@.len() == ONEBIT_PIXELS,
            width == 64 || width == 128,
            all_colors(pending@),
            idx <= ONEBIT_PIXELS,
            out@ == pixel_updates(pending@, committed@, width as int, idx as int),
        decreases ONEBIT_PIXELS - idx,
    {
        let b = pending[idx];
        assert(color_of_byte(pending@[idx as int]).is_some());
        if b != committed[idx] {
            let x = idx % width;
            let y = idx / width;
            let color = if b == ON_BYTE {
                BinaryColor::On
            } else {
                BinaryColor::Off
            };
            out.push(Pixel { x: x as i32, y: y as i32, color });
        }
        idx = idx + 1;
    }
    out
}

impl OneBit {
    /// The frame last sent to the display.
    pub closed spec fn committed(&self) -> Seq<u8> {
        self.last_frame@
    }

    /// The frame being drawn.
    pub closed spec fn pending(&self) -> Seq<u8> {
        self.next_frame@
    }

    /// How the frame is turned.
    pub closed spec fn orientation(&self) -> Orientation {
        self.orientation
    }

    /// Frame width in pixels.
    pub open spec fn width(&self) -> int {
        width_of(self.orientation())
    }

    /// Frame height in pixels.
    pub open spec fn height(&self) -> int {
        height_of(self.orientation())
    }

    /// Both frames are full frames, the width matches the orientation, and
    /// every pending byte stores a colour.
    pub closed spec fn wf(&self) -> bool {
        &&& self.last_frame@.len() == ONEBIT_PIXELS
        &&& self.next_frame@.len() == ONEBIT_PIXELS
        &&& self.scr_width == width_of(self.orientation)
        &&& all_colors(self.next_frame@)
    }

    /// The colour the pending frame holds at (x, y).
    pub open spec fn pending_color(&self, x: int, y: int) -> BinaryColor {
        panel_pixel(self.pending(), self.width(), x, y).unwrap()
    }

    /// What the committed frame holds at (x, y).
    pub open spec fn committed_color(&self, x: int, y: int) -> Option<BinaryColor> {
        panel_pixel(self.committed(), self.width(), x, y)
    }

    /// A new engine turned as `orientation`, its pending frame all off and
    /// its committed frame all sentinel bytes, so the first frame is drawn in
    /// full.
    pub fn new(orientation: Orientation) -> (r: Self)
        ensures
            r.wf(),
            r.orientation() == orientation,
            r.pending() == filled(ONEBIT_PIXELS as nat, OFF_BYTE),
            r.committed() == filled(ONEBIT_PIXELS as nat, ONEBIT_SENTINEL),
    {
        let next_frame = filled_vec(OFF_BYTE, ONEBIT_PIXELS);
        OneBit {
            last_frame: filled_vec(ONEBIT_SENTINEL, ONEBIT_PIXELS),
            next_frame,
            scr_width: match orientation {
                Orientation::Landscape => 128,
                Orientation::Portrait => 64,
            },
            orientation,
        }
    }

    /// Frame width and height in pixels.
    pub fn bounding_box(&self) -> (r: (u32, u32))
        requires
            self.wf(),
        ensures
            r.0 == self.width(),
            r.1 == self.height(),
    {
        match self.orientation {
            Orientation::Landscape => (128, 64),
            Orientation::Portrait => (64, 128),
        }
    }

    /// How the frame is turned.
    pub fn get_orientation(&self) -> (r: Orientation)
        ensures
            r == self.orientation(),
    {
        self.orientation
    }

    /// Turns the frame; both frames keep their bytes, which are read with the
    /// new width from now on.
    pub fn set_orientation(&mut self, orientation: Orientation)
        requires
            old(self).wf(),
        ensures
            final(self).wf(),
            final(self).orientation() == orientation,
            final(self).pending() == old(self).pending(),
            final(self).committed() == old(self).committed(),
    {
        self.scr_width = match orientation {
            Orientation::Landscape => 128,
            Orientation::Portrait => 64,
        };
        self.orientation = orientation;
    }

    /// The colour the pending frame holds at (x, y).
    pub fn get_pixel_value_next(&self, x: u16, y: u16) -> (r: BinaryColor)
        requires
            self.wf(),
            on_panel(self.width(), self.height(), x as int, y as int),
        ensures
            r == self.pending_color(x as int, y as int),
    {
        let idx = y as usize * self.scr_width + x as usize;
        assert(idx < ONEBIT_PIXELS) by (nonlinear_arith)
            requires
                idx == y * self.width() + x,
                x < self.width(),
                y < self.height(),
                self.width() * self.height() == ONEBIT_PIXELS,
        ;
        assert(color_of_byte(self.next_frame@[idx as int]).is_some());
        if self.next_frame[idx] == ON_BYTE {
            BinaryColor::On
        } else {
            BinaryColor::Off
        }
    }

    /// Writes `color` at (x, y) of the pending frame; a position off the
    /// frame is ignored.
    pub fn set_pixel(&mut self, x: i32, y: i32, color: BinaryColor)
        requires
            old(self).wf(),
        ensures
            final(self).wf(),
            final(self).orientation() == old(self).orientation(),
            final(self).committed() == old(self).committed(),
            on_panel(old(self).width(), old(self).height(), x as int, y as int) ==> final(self).pending()
                == old(self).pending().update(y * old(self).width() + x, byte_of(color)),
            !on_panel(old(self).width(), old(self).height(), x as int, y as int) ==> final(self).pending()
                == old(self).pending(),
            forall|u: int, v: int|
                on_panel(old(self).width(), old(self).height(), u, v) ==> #[trigger] final(self).pending_color(u, v)
                    == if u == x && v == y {
                    color
                } else {
                    old(self).pending_color(u, v)
                },
    {
        let (width, height) = self.bounding_box();
        if x < 0 || y < 0 || x as u32 >= width || y as u32 >= height {
            return;
        }
        let idx = y as usize * self.scr_width + x as usize;
        proof {
            lemma_panel_index(self.width(), self.height(), x as int, y as int, 0, 0);
        }
        self.next_frame[idx] = match color {
            BinaryColor::Off => OFF_BYTE,
            BinaryColor::On => ON_BYTE,
        };
        proof {
            assert forall|u: int, v: int| on_panel(old(self).width(), old(self).height(), u, v) implies #[trigger] self.pending_color(u, v)
                == if u == x && v == y {
                color
            } else {
                old(self).pending_color(u, v)
            } by {
                lemma_panel_index(self.width(), self.height(), x as int, y as int, u, v);
            }
            assert forall|i: int| 0 <= i < self.next_frame@.len() implies #[trigger] color_of_byte(self.next_frame@[i]).is_some() by {
                if i != idx {
                    assert(color_of_byte(old(self).next_frame@[i]).is_some());
                }
            }
        }
    }

    /// Writes each pixel in order into the pending frame; pixels off the frame
    /// are dropped. A position written twice keeps the later colour.
    pub fn draw_iter(&mut self, pixels: &[Pixel<BinaryColor>])
        requires
            old(self).wf(),
        ensures
            final(self).wf(),
            final(self).orientation() == old(self).orientation(),
            final(self).committed() == old(self).committed(),
            forall|x: int, y: int|
                on_panel(old(self).width(), old(self).height(), x, y) ==> #[trigger] final(self).pending_color(x, y)
                    == match last_write(pixels@, x, y) {
                    Some(c) => c,
                    None => old(self).pending_color(x, y),
                },
    {
        let n = pixels.len();
        let mut k: usize = 0;
        while k < n
            invariant
                n == pixels@.len(),
                k <= n,
                self.wf(),
                self.orientation() == old(self).orientation(),
                self.committed() == old(self).committed(),
                forall|x: int, y: int|
                    on_panel(old(self).width(), old(self).height(), x, y) ==> #[trigger] self.pending_color(x, y)
                        == match last_write(pixels@.take(k as int), x, y) {
                        Some(c) => c,
                        None => old(self).pending_color(x, y),
                    },
            decreases n - k,
        {
            let p = pixels[k];
            let ghost s0 = *self;
            self.set_pixel(p.x, p.y, p.color);
            proof {
                assert(pixels@.take(k as int + 1) =~= pixels@.take(k as int).push(p));
                assert forall|x: int, y: int| on_panel(old(self).width(), old(self).height(), x, y) implies #[trigger] self.pending_color(x, y)
                    == match last_write(pixels@.take(k as int + 1), x, y) {
                    Some(c) => c,
                    None => old(self).pending_color(x, y),
                } by {
                    lemma_last_write_push(pixels@.take(k as int), p, x, y);
                    assert(s0.pending_color(x, y) == self.pending_color(x, y) || (x == p.x && y == p.y));
                }
            }
            k = k + 1;
        }
        assert(pixels@.take(n as int) =~= pixels@);
    }

    /// Fills the `width` x `height` rectangle whose top left corner is (x, y)
    /// with `colors`, taken row by row; the parts off the frame are dropped.
    pub fn fill_contiguous(&mut self, x: i32, y: i32, width: u16, height: u16, colors: &[BinaryColor])
        requires
            old(self).wf(),
            colors@.len() == width * height,
        ensures
            final(self).wf(),
            final(self).orientation() == old(self).orientation(),
            final(self).committed() == old(self).committed(),
            forall|u: int, v: int|
                on_panel(old(self).width(), old(self).height(), u, v) ==> #[trigger] final(self).pending_color(u, v)
                    == if in_rect(x as int, y as int, width as int, height as int, u, v) {
                    colors@[rect_offset(x as int, y as int, width as int, u, v)]
                } else {
                    old(self).pending_color(u, v)
                },
    {
        let total = colors.len();
        let mut j: u16 = 0;
        while j < height
            invariant
                total == colors@.len(),
                colors@.len() == width * height,
                j <= height,
                self.wf(),
                self.orientation() == old(self).orientation(),
                self.committed() == old(self).committed(),
                forall|u: int, v: int|
                    on_panel(old(self).width(), old(self).height(), u, v) ==> #[trigger] self.pending_color(u, v)
                        == if in_rect(x as int, y as int, width as int, j as int, u, v) {
                        colors@[rect_offset(x as int, y as int, width as int, u, v)]
                    } else {
                        old(self).pending_color(u, v)
                    },
            decreases height - j,
        {
            let mut i: u16 = 0;
            while i < width
                invariant
                    total == colors@.len(),
                    colors@.len() == width * height,
                    j < height,
                    i <= width,
                    self.wf(),
                    self.orientation() == old(self).orientation(),
                    self.committed() == old(self).committed(),
                    forall|u: int, v: int|
                        on_panel(old(self).width(), old(self).height(), u, v) ==> #[trigger] self.pending_color(u, v)
                            == if in_rect(x as int, y as int, width as int, j as int, u, v) || (v == y + j && x
                            <= u < x + i) {
                            colors@[rect_offset(x as int, y as int, width as int, u, v)]
                        } else {
                            old(self).pending_color(u, v)
                        },
                decreases width - i,
            {
                proof {
                    lemma_rect_offset(width as int, height as int, i as int, j as int);
                    assert(j * width <= j * width + i);
                }
                let k = j as usize * width as usize + i as usize;
                let c = colors[k];
                let px = x as i64 + i as i64;
                let py = y as i64 + j as i64;
                let ghost s0 = *self;
                if i32::MIN as i64 <= px && px <= i32::MAX as i64 && i32::MIN as i64 <= py && py <= i32::MAX as i64 {
                    self.set_pixel(px as i32, py as i32, c);
                }
                proof {
                    assert(k == rect_offset(x as int, y as int, width as int, px as int, py as int));
                    assert forall|u: int, v: int| on_panel(old(self).width(), old(self).height(), u, v) implies #[trigger] self.pending_color(u, v)
                        == if in_rect(x as int, y as int, width as int, j as int, u, v) || (v == y + j && x
                        <= u < x + i + 1) {
                        colors@[rect_offset(x as int, y as int, width as int, u, v)]
                    } else {
                        old(self).pending_color(u, v)
                    } by {
                        assert(s0.pending_color(u, v) == self.pending_color(u, v) || (u == px && v == py));
                    }
                }
                i = i + 1;
            }
            j = j + 1;
        }
    }

    /// The pixel updates that bring the committed frame to the pending one.
    pub fn diff(&self) -> (r: Vec<Pixel<BinaryColor>>)
        requires
            self.wf(),
        ensures
            r@ == pixel_updates(self.pending(), self.committed(), self.width(), ONEBIT_PIXELS as int),
    {
        diff_pixels(&self.next_frame, &self.last_frame, self.scr_width)
    }

    /// Makes the pending frame the committed one and resets the pending frame
    /// to all off.
    pub fn commit(&mut self)
        requires
            old(self).wf(),
        ensures
            final(self).wf(),
            final(self).orientation() == old(self).orientation(),
            final(self).committed() == old(self).pending(),
            final(self).pending() == filled(ONEBIT_PIXELS as nat, OFF_BYTE),
    {
        core::mem::swap(&mut self.last_frame, &mut self.next_frame);
        fill_all(&mut self.next_frame, OFF_BYTE);
        assert(all_colors(self.next_frame@));
    }

    /// One frame: returns the pixel updates of the pending frame against the
    /// committed one, then commits.
    pub fn draw_frame(&mut self) -> (r: Vec<Pixel<BinaryColor>>)
        requires
            old(self).wf(),
        ensures
            r@ == pixel_updates(old(self).pending(), old(self).committed(), old(self).width(), ONEBIT_PIXELS as int),
            final(self).wf(),
            final(self).orientation() == old(self).orientation(),
            final(self).committed() == old(self).pending(),
            final(self).pending() == filled(ONEBIT_PIXELS as nat, OFF_BYTE),
    {
        let updates = self.diff();
        self.commit();
        updates
    }

    /// Sets every byte of the committed frame to the sentinel, so that the
    /// next diff redraws the whole frame.
    pub fn clear_buffer(&mut self)
        requires
            old(self).wf(),
        ensures
            final(self).wf(),
            final(self).orientation() == old(self).orientation(),
            final(self).pending() == old(self).pending(),
            final(self).committed() == filled(ONEBIT_PIXELS as nat, ONEBIT_SENTINEL),
    {
        fill_all(&mut self.last_frame, ONEBIT_SENTINEL);
    }

    /// What the committed frame holds at (x, y), `None` where it holds a
    /// byte that encodes no colour.
    pub fn get_pixel_value(&self, x: u16, y: u16) -> (r: Option<BinaryColor>)
        requires
            self.wf(),
            on_panel(self.width(), self.height(), x as int, y as int),
        ensures
            r == self.committed_color(x as int, y as int),
    {
        let idx = y as usize * self.scr_width + x as usize;
        assert(idx < ONEBIT_PIXELS) by (nonlinear_arith)
            requires
                idx == y * self.width() + x,
                x < self.width(),
                y < self.height(),
                self.width() * self.height() == ONEBIT_PIXELS,
        ;
        let b = self.last_frame[idx];
        if b == OFF_BYTE {
            Some(BinaryColor::Off)
        } else if b == ON_BYTE {
            Some(BinaryColor::On)
        } else {
            None
        }
    }
}


/// After a commit, the committed frame holds at every pixel the colour the
/// pending frame held before it, and the pending frame is off everywhere.
pub proof fn lemma_onebit_commit(before: OneBit, after: OneBit)
    requires
        before.wf(),
        after.orientation() == before.orientation(),
        after.committed() == before.pending(),
        after.pending() == filled(ONEBIT_PIXELS as nat, OFF_BYTE),
    ensures
        forall|x: int, y: int|
            on_panel(before.width(), before.height(), x, y) ==> #[trigger] after.committed_color(x, y) == Some(
                before.pending_color(x, y),
            ),
        forall|x: int, y: int|
            on_panel(before.width(), before.height(), x, y) ==> #[trigger] after.pending_color(x, y)
                == BinaryColor::Off,
{
    assert forall|x: int, y: int| on_panel(before.width(), before.height(), x, y) implies #[trigger] after.committed_color(x, y)
        == Some(before.pending_color(x, y)) && after.pending_color(x, y) == BinaryColor::Off by {
        lemma_panel_index(before.width(), before.height(), x, y, x, y);
        assert(color_of_byte(before.pending()[y * before.width() + x]).is_some());
    }
    assert forall|x: int, y: int| on_panel(before.width(), before.height(), x, y) implies #[trigger] after.pending_color(x, y)
        == BinaryColor::Off by {
        lemma_panel_index(before.width(), before.height(), x, y, x, y);
    }
}

/// Each update in the first `n` pixels' updates is the update of a changed
/// pixel among them, and each changed pixel among them has its update there.
proof fn lemma_pixel_updates_members(pending: Seq<u8>, committed: Seq<u8>, width: int, n: int)
    requires
        0 <= n,
    ensures
        forall|k: int|
            0 <= k < pixel_updates(pending, committed, width, n).len() ==> exists|j: int|
                0 <= j < n && color_of_byte(pending[j]) != color_of_byte(committed[j])
                    && #[trigger] pixel_updates(pending, committed, width, n)[k] == update_at(pending, width, j),
        forall|j: int|
            0 <= j < n && color_of_byte(pending[j]) != color_of_byte(committed[j]) ==> exists|k: int|
                0 <= k < pixel_updates(pending, committed, width, n).len() && pixel_updates(
                    pending,
                    committed,
                    width,
                    n,
                )[k] == #[trigger] update_at(pending, width, j),
    decreases n,
{
    if n > 0 {
        lemma_pixel_updates_members(pending, committed, width, n - 1);
        let prev = pixel_updates(pending, committed, width, n - 1);
        let cur = pixel_updates(pending, committed, width, n);
        assert forall|k: int| 0 <= k < cur.len() implies exists|j: int|
            0 <= j < n && color_of_byte(pending[j]) != color_of_byte(committed[j]) && #[trigger] cur[k]
                == update_at(pending, width, j) by {
            if k < prev.len() {
                assert(cur[k] == prev[k]);
            } else {
                assert(cur[k] == update_at(pending, width, n - 1));
            }
        }
        assert forall|j: int| 0 <= j < n && color_of_byte(pending[j]) != color_of_byte(committed[j]) implies exists|k: int|
            0 <= k < cur.len() && cur[k] == #[trigger] update_at(pending, width, j) by {
            if j < n - 1 {
                let k = choose|k: int| 0 <= k < prev.len() && prev[k] == #[trigger] update_at(pending, width, j);
                assert(cur[k] == prev[k]);
            } else {
                assert(cur[prev.len() as int] == update_at(pending, width, j));
            }
        }
    }
}

/// One update of the pixel diff lies on the panel and writes the pending
/// colour there.
proof fn lemma_pixel_update_at(pending: Seq<u8>, committed: Seq<u8>, w: int, h: int, k: int)
    requires
        pending.len() == ONEBIT_PIXELS,
        committed.len() == ONEBIT_PIXELS,
        all_colors(pending),
        w * h == ONEBIT_PIXELS,
        0 < w,
        0 < h,
        0 <= k < pixel_updates(pending, committed, w, ONEBIT_PIXELS as int).len(),
    ensures
        ({
            let u = pixel_updates(pending, committed, w, ONEBIT_PIXELS as int)[k];
            &&& on_panel(w, h, u.x as int, u.y as int)
            &&& Some(u.color) == panel_pixel(pending, w, u.x as int, u.y as int)
            &&& panel_pixel(pending, w, u.x as int, u.y as int) != panel_pixel(committed, w, u.x as int, u.y as int)
        }),
{
    let n = ONEBIT_PIXELS as int;
    let out = pixel_updates(pending, committed, w, n);
    lemma_pixel_updates_members(pending, committed, w, n);
    let j = choose|j: int|
        0 <= j < n && color_of_byte(pending[j]) != color_of_byte(committed[j]) && #[trigger] out[k] == update_at(
            pending,
            w,
            j,
        );
    lemma_index_position(w, h, j);
    assert(color_of_byte(pending[j]).is_some());
    assert((j % w) as i32 as int == j % w);
    assert((j / w) as i32 as int == j / w);
}

/// A pixel whose colours differ has an update in the pixel diff.
proof fn lemma_pixel_changed_has_update(pending: Seq<u8>, committed: Seq<u8>, w: int, h: int, x: int, y: int)
    requires
        pending.len() == ONEBIT_PIXELS,
        committed.len() == ONEBIT_PIXELS,
        w * h == ONEBIT_PIXELS,
        0 < w,
        0 < h,
        on_panel(w, h, x, y),
        panel_pixel(pending, w, x, y) != panel_pixel(committed, w, x, y),
    ensures
        exists|k: int|
            0 <= k < pixel_updates(pending, committed, w, ONEBIT_PIXELS as int).len() && pixel_updates(
                pending,
                committed,
                w,
                ONEBIT_PIXELS as int,
            )[k].x == x && #[trigger] pixel_updates(pending, committed, w, ONEBIT_PIXELS as int)[k].y == y,
{
    let n = ONEBIT_PIXELS as int;
    let out = pixel_updates(pending, committed, w, n);
    let i = y * w + x;
    lemma_panel_index(w, h, x, y, x, y);
    lemma_pixel_updates_members(pending, committed, w, n);
    assert(i % w == x && i / w == y) by (nonlinear_arith)
        requires
            i == y * w + x,
            0 <= x < w,
            0 <= y,
    ;
    let k = choose|k: int| 0 <= k < out.len() && out[k] == #[trigger] update_at(pending, w, i);
    assert(out[k].x == x && out[k].y == y);
}

/// The pixel diff touches a pixel exactly when the pending frame holds a
/// different colour there than the committed frame, and it writes the pending
/// colour: no changed pixel is left out and no unchanged one is written.
pub proof fn lemma_pixel_diff_complete(pending: Seq<u8>, committed: Seq<u8>, o: Orientation)
    requires
        pending.len() == ONEBIT_PIXELS,
        committed.len() == ONEBIT_PIXELS,
        all_colors(pending),
    ensures
        ({
            let w = width_of(o);
            let out = pixel_updates(pending, committed, w, ONEBIT_PIXELS as int);
            &&& forall|x: int, y: int|
                on_panel(w, height_of(o), x, y) ==> ((exists|k: int|
                    0 <= k < out.len() && out[k].x == x && #[trigger] out[k].y == y) <==> #[trigger] panel_pixel(
                    pending,
                    w,
                    x,
                    y,
                ) != panel_pixel(committed, w, x, y))
            &&& forall|k: int|
                0 <= k < out.len() ==> on_panel(w, height_of(o), #[trigger] out[k].x as int, out[k].y as int)
                    && Some(out[k].color) == panel_pixel(pending, w, out[k].x as int, out[k].y as int)
        }),
{
    let w = width_of(o);
    let h = height_of(o);
    let out = pixel_updates(pending, committed, w, ONEBIT_PIXELS as int);
    assert forall|k: int| 0 <= k < out.len() implies on_panel(w, h, #[trigger] out[k].x as int, out[k].y as int)
        && Some(out[k].color) == panel_pixel(pending, w, out[k].x as int, out[k].y as int) by {
        lemma_pixel_update_at(pending, committed, w, h, k);
    }
    assert forall|x: int, y: int| on_panel(w, h, x, y) implies ((exists|k: int|
        0 <= k < out.len() && out[k].x == x && #[trigger] out[k].y == y) <==> #[trigger] panel_pixel(
        pending,
        w,
        x,
        y,
    ) != panel_pixel(committed, w, x, y)) by {
        if panel_pixel(pending, w, x, y) != panel_pixel(committed, w, x, y) {
            lemma_pixel_changed_has_update(pending, committed, w, h, x, y);
        }
        if exists|k: int| 0 <= k < out.len() && out[k].x == x && #[trigger] out[k].y == y {
            let k = choose|k: int| 0 <= k < out.len() && out[k].x == x && #[trigger] out[k].y == y;
            lemma_pixel_update_at(pending, committed, w, h, k);
        }
    }
}

/// A frame diffed against itself gives no updates.
pub proof fn lemma_pixel_diff_of_same_frame(frame: Seq<u8>, width: int, n: int)
    ensures
        pixel_updates(frame, frame, width, n).len() == 0,
    decreases n,
{
    if n > 0 {
        lemma_pixel_diff_of_same_frame(frame, width, n - 1);
    }
}

/// Against a committed frame of sentinel bytes every pixel differs, so the
/// pixel diff holds one update for each pixel of the frame, in row-major order.
pub proof fn lemma_onebit_sentinel_forces_full_redraw(pending: Seq<u8>, width: int, n: int)
    requires
        0 <= n <= ONEBIT_PIXELS,
        pending.len() == ONEBIT_PIXELS,
        all_colors(pending),
    ensures
        pixel_updates(pending, filled(ONEBIT_PIXELS as nat, ONEBIT_SENTINEL), width, n) == Seq::new(
            n as nat,
            |j: int| update_at(pending, width, j),
        ),
    decreases n,
{
    let c = filled(ONEBIT_PIXELS as nat, ONEBIT_SENTINEL);
    if n > 0 {
        lemma_onebit_sentinel_forces_full_redraw(pending, width, n - 1);
        assert(color_of_byte(pending[n - 1]).is_some());
        assert(color_of_byte(c[n - 1]) is None);
        assert(pixel_updates(pending, c, width, n) =~= Seq::new(n as nat, |j: int| update_at(pending, width, j)));
    } else {
        assert(pixel_updates(pending, c, width, n) =~= Seq::new(n as nat, |j: int| update_at(pending, width, j)));
    }
}


impl OneBit {
    /// A well-formed engine holds two full frames, and every pending byte
    /// stores a colour.
    pub proof fn lemma_wf_lengths(&self)
        requires
            self.wf(),
        ensures
            self.pending().len() == ONEBIT_PIXELS,
            self.committed().len() == ONEBIT_PIXELS,
            all_colors(self.pending()),
            self.width() * self.height() == ONEBIT_PIXELS,
    {
    }
}

/// An engine whose committed frame holds sentinel bytes (a new one, or one
/// after `clear_buffer`) has one update for every pixel in its next diff.
pub proof fn lemma_onebit_forced_diff_covers_all(f: OneBit)
    requires
        f.wf(),
        f.committed() == filled(ONEBIT_PIXELS as nat, ONEBIT_SENTINEL),
    ensures
        pixel_updates(f.pending(), f.committed(), f.width(), ONEBIT_PIXELS as int) == Seq::new(
            ONEBIT_PIXELS as nat,
            |j: int| update_at(f.pending(), f.width(), j),
        ),
{
    lemma_onebit_sentinel_forces_full_redraw(f.pending(), f.width(), ONEBIT_PIXELS as int);
}

} // verus!
