//! The four-bit colour engine: a 320 x 240 frame of palette colours packed
//! two pixels per byte, diffed into horizontal spans.
use vstd::prelude::*;

use crate::palette::{index_of, lemma_index_bijection, palette_at, Palette};
use crate::span::{covers, diff_spans, differs, is_span_diff, lemma_forced_redraw_covers_all, Span};
use crate::surface::{in_rect, last_write, lemma_last_write_push, lemma_rect_offset, rect_offset, Pixel};

verus! {

/// Width of the colour frame in pixels.
pub const WIDTH: u16 = 320;

/// Height of the colour frame in pixels.
pub const HEIGHT: u16 = 240;

/// Bytes in one packed colour frame: two pixels per byte.
pub const FRAME_BYTES: usize = 38400;

/// Whether (x, y) lies on the colour frame.
pub open spec fn in_bounds(x: int, y: int) -> bool {
    0 <= x < WIDTH && 0 <= y < HEIGHT
}

/// Row-major position of pixel (x, y) in the flat pixel stream.
pub open spec fn pixel_index(x: int, y: int) -> int {
    y * WIDTH + x
}

/// The four bits of pixel `i`: the low nibble of byte `i / 2` when `i` is
/// even, its high nibble when `i` is odd.
pub open spec fn nibble(frame: Seq<u8>, i: int) -> u8 {
    if i % 2 == 0 {
        frame[i / 2] & 0x0f
    } else {
        frame[i / 2] >> 4u8
    }
}

/// The colour that a packed frame holds at (x, y).
pub open spec fn frame_pixel(frame: Seq<u8>, x: int, y: int) -> Palette {
    palette_at(nibble(frame, pixel_index(x, y)) as int).unwrap()
}

/// A byte with `v` put into the nibble that pixel `i` occupies, the other
/// nibble kept.
pub open spec fn with_nibble(b: u8, i: int, v: u8) -> u8 {
    if i % 2 == 0 {
        (b & 0xf0) | v
    } else {
        (b & 0x0f) | ((v << 4u8) as u8)
    }
}

/// The frame with colour `c` written at in-bounds pixel (x, y).
pub open spec fn put_pixel(frame: Seq<u8>, x: int, y: int, c: Palette) -> Seq<u8> {
    let i = pixel_index(x, y);
    frame.update(i / 2, with_nibble(frame[i / 2], i, index_of(c)))
}

/// The byte that holds colour `c` in both of its nibbles.
pub open spec fn fill_byte(c: Palette) -> u8 {
    (index_of(c) | ((index_of(c) << 4u8) as u8)) as u8
}

/// `n` copies of byte `b`.
pub open spec fn filled(n: nat, b: u8) -> Seq<u8> {
    Seq::new(n, |_i: int| b)
}

proof fn lemma_nibble_bounds(b: u8)
    ensures
        b & 0x0f < 16,
        b >> 4u8 < 16,
{
    assert(b & 0x0f < 16 && b >> 4u8 < 16) by (bit_vector);
}

proof fn lemma_with_nibble(b: u8, v: u8)
    requires
        v < 16,
    ensures
        ((b & 0xf0) | v) & 0x0f == v,
        ((b & 0xf0) | v) >> 4u8 == b >> 4u8,
        ((b & 0x0f) | ((v << 4u8) as u8)) >> 4u8 == v,
        ((b & 0x0f) | ((v << 4u8) as u8)) & 0x0f == b & 0x0f,
{
    assert(((b & 0xf0) | v) & 0x0f == v) by (bit_vector)
        requires
            v < 16,
    ;
    assert(((b & 0xf0) | v) >> 4u8 == b >> 4u8) by (bit_vector)
        requires
            v < 16,
    ;
    assert(((b & 0x0f) | ((v << 4u8) as u8)) >> 4u8 == v) by (bit_vector)
        requires
            v < 16,
    ;
    assert(((b & 0x0f) | ((v << 4u8) as u8)) & 0x0f == b & 0x0f) by (bit_vector)
        requires
            v < 16,
    ;
}

proof fn lemma_fill_byte(v: u8)
    requires
        v < 16,
    ensures
        (v | ((v << 4u8) as u8)) & 0x0f == v,
        (v | ((v << 4u8) as u8)) >> 4u8 == v,
{
    assert((v | ((v << 4u8) as u8)) & 0x0f == v) by (bit_vector)
        requires
            v < 16,
    ;
    assert((v | ((v << 4u8) as u8)) >> 4u8 == v) by (bit_vector)
        requires
            v < 16,
    ;
}

/// Every pixel position of an in-bounds pixel addresses a byte of the frame.
proof fn lemma_index_in_frame(x: int, y: int)
    requires
        in_bounds(x, y),
    ensures
        0 <= pixel_index(x, y) < 2 * FRAME_BYTES,
        0 <= pixel_index(x, y) / 2 < FRAME_BYTES,
{
}

/// Decoding a nibble and re-encoding the colour gives the nibble back, and
/// two nibbles decode to the same colour only when they are equal.
proof fn lemma_decode_nibble(frame: Seq<u8>, i: int)
    requires
        0 <= i / 2 < frame.len(),
        0 <= i,
    ensures
        nibble(frame, i) < 16,
        palette_at(nibble(frame, i) as int).is_some(),
        index_of(palette_at(nibble(frame, i) as int).unwrap()) == nibble(frame, i),
{
    lemma_nibble_bounds(frame[i / 2]);
    lemma_index_bijection();
}

/// Writing a colour at (x, y) and reading (x, y) back gives that colour, and
/// every other pixel of the frame reads as before.
pub proof fn lemma_put_then_read(frame: Seq<u8>, x: int, y: int, c: Palette)
    requires
        frame.len() == FRAME_BYTES,
        in_bounds(x, y),
    ensures
        put_pixel(frame, x, y, c).len() == FRAME_BYTES,
        frame_pixel(put_pixel(frame, x, y, c), x, y) == c,
        forall|u: int, v: int|
            in_bounds(u, v) && (u, v) != (x, y) ==> #[trigger] frame_pixel(put_pixel(frame, x, y, c), u, v)
                == frame_pixel(frame, u, v),
{
    let i = pixel_index(x, y);
    let nf = put_pixel(frame, x, y, c);
    lemma_index_bijection();
    lemma_with_nibble(frame[i / 2], index_of(c));
    assert(nibble(nf, i) == index_of(c));
    assert forall|u: int, v: int| in_bounds(u, v) && (u, v) != (x, y) implies #[trigger] frame_pixel(nf, u, v)
        == frame_pixel(frame, u, v) by {
        let j = pixel_index(u, v);
        if j / 2 != i / 2 {
            assert(nf[j / 2] == frame[j / 2]);
        } else {
            assert(j != i) by (nonlinear_arith)
                requires
                    j == v * 320 + u,
                    i == y * 320 + x,
                    (u, v) != (x, y),
                    0 <= u < 320,
                    0 <= x < 320,
            ;
        }
        assert(nibble(nf, j) == nibble(frame, j));
    }
}

/// Reads pixel (x, y) of a packed frame.
pub(crate) fn read_pixel(frame: &Vec<u8>, x: u16, y: u16) -> (r: Palette)
    requires
        frame@.len() == FRAME_BYTES,
        in_bounds(x as int, y as int),
    ensures
        r == frame_pixel(frame@, x as int, y as int),
        index_of(r) == nibble(frame@, pixel_index(x as int, y as int)),
{
    let pixel_offset = y as usize * 320 + x as usize;
    proof {
        lemma_index_in_frame(x as int, y as int);
        lemma_decode_nibble(frame@, pixel_offset as int);
    }
    let colour = if pixel_offset % 2 == 0 {
        frame[pixel_offset / 2] & 0x0f
    } else {
        frame[pixel_offset / 2] >> 4
    };
    match Palette::from_index(&colour) {
        Some(c) => c,
        None => Palette::Black,
    }
}


/// `n` copies of byte `b`, built in a fresh vector.
pub(crate) fn filled_vec(b: u8, n: usize) -> (r: Vec<u8>)
    ensures
        r@ == filled(n as nat, b),
{
    let mut r: Vec<u8> = Vec::with_capacity(n);
    let mut i: usize = 0;
    while i < n
        invariant
            i <= n,
            r@ == filled(i as nat, b),
        decreases n - i,
    {
        r.push(b);
        i = i + 1;
        assert(r@ =~= filled(i as nat, b));
    }
    r
}

/// Overwrites every byte of `frame` with `b`.
pub(crate) fn fill_all(frame: &mut Vec<u8>, b: u8)
    ensures
        final(frame)@ == filled(old(frame)@.len(), b),
{
    let n = frame.len();
    let mut i: usize = 0;
    while i < n
        invariant
            n == frame@.len(),
            n == old(frame)@.len(),
            i <= n,
            forall|j: int| 0 <= j < i ==> frame@[j] == b,
        decreases n - i,
    {
        frame[i] = b;
        i = i + 1;
    }
    assert(frame@ =~= filled(n as nat, b));
}

/// The colour engine: the frame last sent to the display (`committed`) and
/// the frame being drawn (`pending`), each packed two pixels per byte.
pub struct Frugger {
    background: Palette,
    default_val: u8,
    last_frame: Vec<u8>,
    next_frame: Vec<u8>,
    redraw_all: bool,
}

impl Frugger {
    /// The packed frame last sent to the display.
    pub closed spec fn committed(&self) -> Seq<u8> {
        self.last_frame@
    }

    /// The packed frame being drawn.
    pub closed spec fn pending(&self) -> Seq<u8> {
        self.next_frame@
    }

    /// Whether the committed frame stands for no colour at all, so that the
    /// next diff writes every pixel. Every four-bit value is a colour, so
    /// this state is kept beside the frame rather than in its bytes.
    pub closed spec fn redraw_all(&self) -> bool {
        self.redraw_all
    }

    /// The colour `pending` is reset to after each commit.
    pub closed spec fn background(&self) -> Palette {
        self.background
    }

    /// Both frames are full frames and the fill byte encodes the background.
    pub closed spec fn wf(&self) -> bool {
        &&& self.last_frame@.len() == FRAME_BYTES
        &&& self.next_frame@.len() == FRAME_BYTES
        &&& self.default_val == fill_byte(self.background)
    }

    /// The colour `committed` holds at (x, y): none while a full redraw is
    /// requested.
    pub open spec fn committed_color(&self, x: int, y: int) -> Option<Palette> {
        if self.redraw_all() {
            None
        } else {
            Some(frame_pixel(self.committed(), x, y))
        }
    }

    /// The colour `pending` holds at (x, y).
    pub open spec fn pending_color(&self, x: int, y: int) -> Palette {
        frame_pixel(self.pending(), x, y)
    }

    /// A new engine whose pending frame is all `bg_col` and whose committed
    /// frame holds no colour, so the first frame is drawn in full.
    pub fn new(bg_col: Palette) -> (r: Self)
        ensures
            r.wf(),
            r.background() == bg_col,
            r.pending() == filled(FRAME_BYTES as nat, fill_byte(bg_col)),
            r.committed() == filled(FRAME_BYTES as nat, 0),
            r.redraw_all(),
    {
        let bits = bg_col.bits();
        let default_val = bits | (bits << 4);
        Frugger {
            background: bg_col,
            default_val,
            last_frame: filled_vec(0, FRAME_BYTES),
            next_frame: filled_vec(default_val, FRAME_BYTES),
            redraw_all: true,
        }
    }

    /// Frame width and height in pixels.
    pub fn bounding_box(&self) -> (r: (u32, u32))
        ensures
            r.0 == WIDTH,
            r.1 == HEIGHT,
    {
        (320, 240)
    }

    /// The colour the committed frame holds at (x, y), `None` while a full
    /// redraw is requested.
    pub fn get_pixel_value(&self, x: u16, y: u16) -> (r: Option<Palette>)
        requires
            self.wf(),
            in_bounds(x as int, y as int),
        ensures
            r == self.committed_color(x as int, y as int),
    {
        if self.redraw_all {
            None
        } else {
            Some(read_pixel(&self.last_frame, x, y))
        }
    }

    /// The colour the pending frame holds at (x, y).
    pub fn get_pixel_value_next(&self, x: u16, y: u16) -> (r: Palette)
        requires
            self.wf(),
            in_bounds(x as int, y as int),
        ensures
            r == self.pending_color(x as int, y as int),
    {
        read_pixel(&self.next_frame, x, y)
    }

    /// Writes `colour` at (x, y) of the pending frame; a position off the
    /// frame is ignored.
    pub fn write_pixel_value(&mut self, x: u16, y: u16, colour: Palette)
        requires
            old(self).wf(),
        ensures
            final(self).wf(),
            final(self).background() == old(self).background(),
            final(self).committed() == old(self).committed(),
            final(self).redraw_all() == old(self).redraw_all(),
            in_bounds(x as int, y as int) ==> final(self).pending() == put_pixel(
                old(self).pending(),
                x as int,
                y as int,
                colour,
            ),
            !in_bounds(x as int, y as int) ==> final(self).pending() == old(self).pending(),
            forall|u: int, v: int|
                in_bounds(u, v) ==> #[trigger] final(self).pending_color(u, v) == if in_bounds(x as int, y as int)
                    && u == x && v == y {
                    colour
                } else {
                    old(self).pending_color(u, v)
                },
    {
        if x >= 320 || y >= 240 {
            return;
        }
        let pixel_offset = y as usize * 320 + x as usize;
        proof {
            lemma_index_in_frame(x as int, y as int);
        }
        let bits = colour.bits();
        let value = bits & 0x0f;
        assert(value == bits) by (bit_vector)
            requires
                value == bits & 0x0f,
                bits < 16,
        ;
        let b = self.next_frame[pixel_offset / 2];
        if pixel_offset % 2 == 0 {
            self.next_frame[pixel_offset / 2] = (b & 0xf0) | value;
        } else {
            self.next_frame[pixel_offset / 2] = (b & 0x0f) | (value << 4);
        }
        proof {
            assert(self.next_frame@ =~= put_pixel(old(self).pending(), x as int, y as int, colour));
            lemma_put_then_read(old(self).pending(), x as int, y as int, colour);
        }
    }

    /// Writes `colour` at (x, y) of the pending frame; a position off the
    /// frame, negative ones included, is ignored.
    pub fn set_pixel(&mut self, x: i32, y: i32, colour: Palette)
        requires
            old(self).wf(),
        ensures
            final(self).wf(),
            final(self).background() == old(self).background(),
            final(self).committed() == old(self).committed(),
            final(self).redraw_all() == old(self).redraw_all(),
            in_bounds(x as int, y as int) ==> final(self).pending() == put_pixel(
                old(self).pending(),
                x as int,
                y as int,
                colour,
            ),
            !in_bounds(x as int, y as int) ==> final(self).pending() == old(self).pending(),
            forall|u: int, v: int|
                in_bounds(u, v) ==> #[trigger] final(self).pending_color(u, v) == if in_bounds(x as int, y as int)
                    && u == x && v == y {
                    colour
                } else {
                    old(self).pending_color(u, v)
                },
    {
        if x < 0 || y < 0 || x >= 320 || y >= 240 {
            return;
        }
        self.write_pixel_value(x as u16, y as u16, colour);
    }

    /// Writes each pixel in order into the pending frame; pixels off the frame
    /// are dropped. A position written twice keeps the later colour.
    pub fn draw_iter(&mut self, pixels: &[Pixel<Palette>])
        requires
            old(self).wf(),
        ensures
            final(self).wf(),
            final(self).background() == old(self).background(),
            final(self).committed() == old(self).committed(),
            final(self).redraw_all() == old(self).redraw_all(),
            forall|x: int, y: int|
                in_bounds(x, y) ==> #[trigger] final(self).pending_color(x, y) == match last_write(pixels@, x, y) {
                    Some(c) => c,
                    None => old(self).pending_color(x, y),
                },
    {
        let n = pixels.len();
        let mut k: usize = 0;
        while k < n
            invariant
                n == pixels@.len(),
                k <= n,
                self.wf(),
                self.background() == old(self).background(),
                self.committed() == old(self).committed(),
                self.redraw_all() == old(self).redraw_all(),
                forall|x: int, y: int|
                    in_bounds(x, y) ==> #[trigger] self.pending_color(x, y) == match last_write(
                        pixels@.take(k as int),
                        x,
                        y,
                    ) {
                        Some(c) => c,
                        None => old(self).pending_color(x, y),
                    },
            decreases n - k,
        {
            let p = pixels[k];
            let ghost before = self.pending();
            let ghost s0 = *self;
            self.set_pixel(p.x, p.y, p.color);
            proof {
                assert(pixels@.take(k as int + 1) =~= pixels@.take(k as int).push(p));
                if in_bounds(p.x as int, p.y as int) {
                    lemma_put_then_read(before, p.x as int, p.y as int, p.color);
                }
                assert forall|x: int, y: int| in_bounds(x, y) implies #[trigger] self.pending_color(x, y)
                    == match last_write(pixels@.take(k as int + 1), x, y) {
                    Some(c) => c,
                    None => old(self).pending_color(x, y),
                } by {
                    lemma_last_write_push(pixels@.take(k as int), p, x, y);
                    assert(s0.pending_color(x, y) == frame_pixel(before, x, y));
                }
            }
            k = k + 1;
        }
        assert(pixels@.take(n as int) =~= pixels@);
    }

    /// Fills the `width` x `height` rectangle whose top left corner is (x, y)
    /// with `colors`, taken row by row; the parts off the frame are dropped.
    pub fn fill_contiguous(&mut self, x: i32, y: i32, width: u16, height: u16, colors: &[Palette])
        requires
            old(self).wf(),
            colors@.len() == width * height,
        ensures
            final(self).wf(),
            final(self).background() == old(self).background(),
            final(self).committed() == old(self).committed(),
            final(self).redraw_all() == old(self).redraw_all(),
            forall|u: int, v: int|
                in_bounds(u, v) ==> #[trigger] final(self).pending_color(u, v) == if in_rect(
                    x as int,
                    y as int,
                    width as int,
                    height as int,
                    u,
                    v,
                ) {
                    colors@[rect_offset(x as int, y as int, width as int, u, v)]
                } else {
                    old(self).pending_color(u, v)
                },
    {
        let total = colors.len();
        let mut j: u16 = 0;
        while j < height
            invariant
                total == colors@.len(),
                colors@.len() == width * height,
                j <= height,
                self.wf(),
                self.background() == old(self).background(),
                self.committed() == old(self).committed(),
                self.redraw_all() == old(self).redraw_all(),
                forall|u: int, v: int|
                    in_bounds(u, v) ==> #[trigger] self.pending_color(u, v) == if in_rect(
                        x as int,
                        y as int,
                        width as int,
                        j as int,
                        u,
                        v,
                    ) {
                        colors@[rect_offset(x as int, y as int, width as int, u, v)]
                    } else {
                        old(self).pending_color(u, v)
                    },
            decreases height - j,
        {
            let mut i: u16 = 0;
            while i < width
                invariant
                    total == colors@.len(),
                    colors@.len() == width * height,
                    j < height,
                    i <= width,
                    self.wf(),
                    self.background() == old(self).background(),
                    self.committed() == old(self).committed(),
                    self.redraw_all() == old(self).redraw_all(),
                self.redraw_all() == old(self).redraw_all(),
                    forall|u: int, v: int|
                        in_bounds(u, v) ==> #[trigger] self.pending_color(u, v) == if in_rect(
                            x as int,
                            y as int,
                            width as int,
                            j as int,
                            u,
                            v,
                        ) || (v == y + j && x <= u < x + i) {
                            colors@[rect_offset(x as int, y as int, width as int, u, v)]
                        } else {
                            old(self).pending_color(u, v)
                        },
                decreases width - i,
            {
                proof {
                    lemma_rect_offset(width as int, height as int, i as int, j as int);
                    assert(j * width <= j * width + i);
                }
                let k = j as usize * width as usize + i as usize;
                let c = colors[k];
                let px = x as i64 + i as i64;
                let py = y as i64 + j as i64;
                let ghost before = self.pending();
                let ghost s0 = *self;
                if 0 <= px && px < 320 && 0 <= py && py < 240 {
                    self.write_pixel_value(px as u16, py as u16, c);
                    proof {
                        lemma_put_then_read(before, px as int, py as int, c);
                    }
                }
                proof {
                    assert(k == rect_offset(x as int, y as int, width as int, px as int, py as int));
                    assert forall|u: int, v: int| in_bounds(u, v) implies #[trigger] self.pending_color(u, v)
                        == if in_rect(x as int, y as int, width as int, j as int, u, v) || (v == y + j && x
                        <= u < x + i + 1) {
                        colors@[rect_offset(x as int, y as int, width as int, u, v)]
                    } else {
                        old(self).pending_color(u, v)
                    } by {
                        assert(s0.pending_color(u, v) == frame_pixel(before, u, v));
                    }
                }
                i = i + 1;
            }
            j = j + 1;
        }
    }

    /// Copies the pending frame into the committed one and resets the pending
    /// frame to the background colour.
    pub fn commit(&mut self)
        requires
            old(self).wf(),
        ensures
            final(self).wf(),
            final(self).background() == old(self).background(),
            final(self).committed() == old(self).pending(),
            final(self).pending() == filled(FRAME_BYTES as nat, fill_byte(old(self).background())),
            !final(self).redraw_all(),
    {
        self.redraw_all = false;
        core::mem::swap(&mut self.last_frame, &mut self.next_frame);
        let fill = self.default_val;
        fill_all(&mut self.next_frame, fill);
    }

    /// The span diff of the pending frame against the committed one.
    pub fn diff(&self) -> (r: Vec<Span>)
        requires
            self.wf(),
        ensures
            is_span_diff(self.pending(), self.committed(), self.redraw_all(), r@),
    {
        diff_spans(&self.next_frame, &self.last_frame, self.redraw_all)
    }

    /// One frame: returns the span diff of the pending frame against the
    /// committed one, then commits.
    pub fn draw_frame(&mut self) -> (r: Vec<Span>)
        requires
            old(self).wf(),
        ensures
            is_span_diff(old(self).pending(), old(self).committed(), old(self).redraw_all(), r@),
            final(self).wf(),
            final(self).background() == old(self).background(),
            final(self).committed() == old(self).pending(),
            final(self).pending() == filled(FRAME_BYTES as nat, fill_byte(old(self).background())),
            !final(self).redraw_all(),
    {
        let spans = self.diff();
        self.commit();
        spans
    }

    /// Requests a full redraw: until the next commit the committed frame
    /// stands for no colour, so the next diff writes every pixel.
    pub fn clear_buffer(&mut self)
        requires
            old(self).wf(),
        ensures
            final(self).wf(),
            final(self).background() == old(self).background(),
            final(self).pending() == old(self).pending(),
            final(self).committed() == old(self).committed(),
            final(self).redraw_all(),
    {
        self.redraw_all = true;
    }
}


/// Every pixel of a frame filled with `fill_byte(c)` reads as `c`.
pub proof fn lemma_filled_reads(c: Palette, x: int, y: int)
    requires
        in_bounds(x, y),
    ensures
        frame_pixel(filled(FRAME_BYTES as nat, fill_byte(c)), x, y) == c,
{
    let i = pixel_index(x, y);
    lemma_index_in_frame(x, y);
    lemma_index_bijection();
    lemma_fill_byte(index_of(c));
    assert(nibble(filled(FRAME_BYTES as nat, fill_byte(c)), i) == index_of(c));
}

/// After a commit, the committed frame reads at every pixel what the pending
/// frame held before it, and the pending frame reads as the background
/// colour at every pixel.
pub proof fn lemma_commit(before: Frugger, after: Frugger)
    requires
        before.wf(),
        after.committed() == before.pending(),
        after.pending() == filled(FRAME_BYTES as nat, fill_byte(before.background())),
        !after.redraw_all(),
    ensures
        forall|x: int, y: int| in_bounds(x, y) ==> #[trigger] after.committed_color(x, y) == Some(
            before.pending_color(x, y),
        ),
        forall|x: int, y: int| in_bounds(x, y) ==> #[trigger] after.pending_color(x, y) == before.background(),
{
    assert forall|x: int, y: int| in_bounds(x, y) implies #[trigger] after.pending_color(x, y) == before.background() by {
        lemma_filled_reads(before.background(), x, y);
    }
}


impl Frugger {
    /// A well-formed engine holds two full frames.
    pub proof fn lemma_wf_lengths(&self)
        requires
            self.wf(),
        ensures
            self.pending().len() == FRAME_BYTES,
            self.committed().len() == FRAME_BYTES,
    {
    }
}

/// A pixel is in the span diff of an engine exactly when the pending colour
/// there is not what the committed frame holds (which is nothing at all while
/// a full redraw is requested).
pub proof fn lemma_diff_reads_colors(f: Frugger, x: int, y: int)
    requires
        in_bounds(x, y),
    ensures
        differs(f.pending(), f.committed(), f.redraw_all(), x, y) <==> Some(f.pending_color(x, y))
            != f.committed_color(x, y),
{
}

/// A new engine's first diff, and the diff after `clear_buffer`, covers every
/// pixel of the frame, whatever colours the frames hold.
pub proof fn lemma_forced_diff_covers_all(f: Frugger, spans: Seq<Span>)
    requires
        f.redraw_all(),
        is_span_diff(f.pending(), f.committed(), f.redraw_all(), spans),
    ensures
        forall|x: int, y: int|
            in_bounds(x, y) ==> exists|i: int| 0 <= i < spans.len() && #[trigger] covers(spans[i], x, y),
{
    lemma_forced_redraw_covers_all(f.pending(), f.committed(), spans);
}

} // verus!
