//! The span diff: the four-bit frames compared row by row, each maximal run
//! of changed pixels emitted as one horizontal span.
use vstd::prelude::*;

use crate::frugger::{frame_pixel, in_bounds, read_pixel, FRAME_BYTES, HEIGHT, WIDTH};
use crate::palette::color_of;

verus! {

/// One display write: `length` pixels of row `row` from column `start_col`
/// on, with the display colour of each.
pub struct Span {
    pub row: u16,
    pub start_col: u16,
    pub length: u16,
    pub colors: Vec<u16>,
}

/// Whether pixel (x, y) must be written: always when `redraw_all` is set (the
/// committed frame then stands for no colour at all), otherwise when the two
/// frames hold different colours there.
pub open spec fn differs(pending: Seq<u8>, committed: Seq<u8>, redraw_all: bool, x: int, y: int) -> bool {
    redraw_all || frame_pixel(pending, x, y) != frame_pixel(committed, x, y)
}

/// Whether span `s` covers pixel (x, y).
pub open spec fn covers(s: Span, x: int, y: int) -> bool {
    s.row == y && s.start_col <= x < s.start_col + s.length
}

/// Whether `a` ends, with at least one column between them, before `b` starts,
/// rows taken top to bottom.
pub open spec fn precedes(a: Span, b: Span) -> bool {
    a.row < b.row || (a.row == b.row && a.start_col + a.length < b.start_col)
}

/// Span `s` is a maximal run of changed pixels in its row, carrying the
/// display colours of the pending frame.
pub open spec fn is_run(pending: Seq<u8>, committed: Seq<u8>, redraw_all: bool, s: Span) -> bool {
    &&& s.row < HEIGHT
    &&& 0 < s.length
    &&& s.start_col + s.length <= WIDTH
    &&& s.colors@.len() == s.length
    &&& forall|k: int|
        0 <= k < s.length ==> #[trigger] differs(pending, committed, redraw_all, s.start_col + k, s.row as int)
            && s.colors@[k] == color_of(frame_pixel(pending, s.start_col + k, s.row as int))
    &&& (s.start_col == 0 || !differs(pending, committed, redraw_all, s.start_col - 1, s.row as int))
    &&& (s.start_col + s.length == WIDTH || !differs(
        pending,
        committed, redraw_all,
        s.start_col + s.length,
        s.row as int,
    ))
}

/// `spans` is the span diff of the two frames: every span is a maximal run of
/// changed pixels, the spans come in row-major order, and every changed pixel
/// lies in one of them.
pub open spec fn is_span_diff(pending: Seq<u8>, committed: Seq<u8>, redraw_all: bool, spans: Seq<Span>) -> bool {
    &&& forall|i: int| 0 <= i < spans.len() ==> is_run(pending, committed, redraw_all, #[trigger] spans[i])
    &&& forall|i: int, j: int| 0 <= i < j < spans.len() ==> precedes(#[trigger] spans[i], #[trigger] spans[j])
    &&& forall|x: int, y: int|
        in_bounds(x, y) && #[trigger] differs(pending, committed, redraw_all, x, y) ==> exists|i: int|
            0 <= i < spans.len() && covers(#[trigger] spans[i], x, y)
}

/// Compares two packed colour frames and returns their span diff.
pub fn diff_spans(pending: &Vec<u8>, committed: &Vec<u8>, redraw_all: bool) -> (r: Vec<Span>)
    requires
        pending@.len() == FRAME_BYTES,
        committed@.len() == FRAME_BYTES,
    ensures
        is_span_diff(pending@, committed@, redraw_all, r@),
{
    let ghost p = pending@;
    let ghost c = committed@;
    let mut spans: Vec<Span> = Vec::new();
    let mut y: u16 = 0;
    while y < HEIGHT
        invariant
            p == pending@,
            c == committed@,
            p.len() == FRAME_BYTES,
            c.len() == FRAME_BYTES,
            y <= HEIGHT,
            forall|i: int| 0 <= i < spans@.len() ==> is_run(p, c, redraw_all, #[trigger] spans@[i]) && spans@[i].row < y,
            forall|i: int, j: int|
                0 <= i < j < spans@.len() ==> precedes(#[trigger] spans@[i], #[trigger] spans@[j]),
            forall|x: int, yy: int|
                in_bounds(x, yy) && yy < y && #[trigger] differs(p, c, redraw_all, x, yy) ==> exists|i: int|
                    0 <= i < spans@.len() && covers(#[trigger] spans@[i], x, yy),
        decreases HEIGHT - y,
    {
        let mut run_open = false;
        let mut run_start: u16 = 0;
        let mut colors: Vec<u16> = Vec::new();
        let mut x: u16 = 0;
        while x < WIDTH
            invariant
                p == pending@,
                c == committed@,
                p.len() == FRAME_BYTES,
                c.len() == FRAME_BYTES,
                y < HEIGHT,
                x <= WIDTH,
                forall|i: int|
                    0 <= i < spans@.len() ==> is_run(p, c, redraw_all, #[trigger] spans@[i]) && (spans@[i].row < y
                        || (spans@[i].row == y && spans@[i].start_col + spans@[i].length < x && (
                    run_open ==> spans@[i].start_col + spans@[i].length < run_start))),
                forall|i: int, j: int|
                    0 <= i < j < spans@.len() ==> precedes(#[trigger] spans@[i], #[trigger] spans@[j]),
                forall|xx: int, yy: int|
                    in_bounds(xx, yy) && (yy < y || (yy == y && xx < x && (!run_open || xx < run_start)))
                        && #[trigger] differs(p, c, redraw_all, xx, yy) ==> exists|i: int|
                        0 <= i < spans@.len() && covers(#[trigger] spans@[i], xx, yy),
                run_open ==> run_start < x,
                run_open ==> colors@.len() == x - run_start,
                run_open ==> forall|k: int|
                    0 <= k < x - run_start ==> #[trigger] differs(p, c, redraw_all, run_start + k, y as int)
                        && colors@[k] == color_of(frame_pixel(p, run_start + k, y as int)),
                run_open ==> (run_start == 0 || !differs(p, c, redraw_all, run_start - 1, y as int)),
                !run_open ==> (x == 0 || !differs(p, c, redraw_all, x - 1, y as int)),
            decreases WIDTH - x,
        {
            let next = read_pixel(pending, x, y);
            let last = read_pixel(committed, x, y);
            if redraw_all || next != last {
                if !run_open {
                    run_open = true;
                    run_start = x;
                    colors = Vec::new();
                }
                colors.push(next.color());
                proof {
                    assert forall|k: int| 0 <= k < x + 1 - run_start implies #[trigger] differs(
                        p,
                        c, redraw_all,
                        run_start + k,
                        y as int,
                    ) && colors@[k] == color_of(frame_pixel(p, run_start + k, y as int)) by {
                        if k == x - run_start {
                            assert(run_start + k == x);
                            assert(colors@[k] == color_of(next));
                            assert(differs(p, c, redraw_all, x as int, y as int));
                        } else {
                            assert(differs(p, c, redraw_all, run_start + k, y as int));
                        }
                    }
                }
            } else if run_open {
                let ghost old_spans = spans@;
                let span = Span { row: y, start_col: run_start, length: x - run_start, colors };
                spans.push(span);
                run_open = false;
                colors = Vec::new();
                proof {
                    let n = old_spans.len() as int;
                    assert(spans@[n] == span);
                    assert forall|k: int| 0 <= k < span.length implies #[trigger] differs(
                        p,
                        c, redraw_all,
                        span.start_col + k,
                        span.row as int,
                    ) && span.colors@[k] == color_of(frame_pixel(p, span.start_col + k, span.row as int)) by {
                        assert(differs(p, c, redraw_all, run_start + k, y as int));
                    }
                    assert(!differs(p, c, redraw_all, x as int, y as int));
                    assert(span.start_col + span.length == x);
                    assert(is_run(p, c, redraw_all, span));
                    assert forall|xx: int, yy: int|
                        in_bounds(xx, yy) && (yy < y || (yy == y && xx < x + 1)) && #[trigger] differs(
                            p,
                            c, redraw_all,
                            xx,
                            yy,
                        ) implies exists|i: int| 0 <= i < spans@.len() && covers(#[trigger] spans@[i], xx, yy) by {
                        if yy == y && xx >= run_start {
                            assert(covers(spans@[n], xx, yy));
                        } else {
                            let i = choose|i: int| 0 <= i < old_spans.len() && covers(#[trigger] old_spans[i], xx, yy);
                            assert(spans@[i] == old_spans[i]);
                        }
                    }
                }
            } else {
                proof {
                    assert forall|xx: int, yy: int|
                        in_bounds(xx, yy) && (yy < y || (yy == y && xx < x + 1)) && #[trigger] differs(
                            p,
                            c, redraw_all,
                            xx,
                            yy,
                        ) implies exists|i: int| 0 <= i < spans@.len() && covers(#[trigger] spans@[i], xx, yy) by {
                        assert(xx != x || yy != y);
                    }
                }
            }
            x = x + 1;
        }
        if run_open {
            let ghost old_spans = spans@;
            let span = Span { row: y, start_col: run_start, length: WIDTH - run_start, colors };
            spans.push(span);
            proof {
                let n = old_spans.len() as int;
                assert(spans@[n] == span);
                assert forall|k: int| 0 <= k < span.length implies #[trigger] differs(
                    p,
                    c, redraw_all,
                    span.start_col + k,
                    span.row as int,
                ) && span.colors@[k] == color_of(frame_pixel(p, span.start_col + k, span.row as int)) by {
                    assert(differs(p, c, redraw_all, run_start + k, y as int));
                }
                assert(x == WIDTH);
                assert(span.colors@.len() == span.length);
                assert(span.start_col + span.length == WIDTH);
                assert(is_run(p, c, redraw_all, span));
                assert forall|xx: int, yy: int|
                    in_bounds(xx, yy) && yy < y + 1 && #[trigger] differs(p, c, redraw_all, xx, yy) implies exists|i: int|
                        0 <= i < spans@.len() && covers(#[trigger] spans@[i], xx, yy) by {
                    if yy == y && xx >= run_start {
                        assert(covers(spans@[n], xx, yy));
                    } else {
                        let i = choose|i: int| 0 <= i < old_spans.len() && covers(#[trigger] old_spans[i], xx, yy);
                        assert(spans@[i] == old_spans[i]);
                    }
                }
            }
        }
        y = y + 1;
    }
    spans
}


/// Whether two spans write the same pixels with the same colours.
pub open spec fn same_span(a: Span, b: Span) -> bool {
    a.row == b.row && a.start_col == b.start_col && a.length == b.length && a.colors@ == b.colors@
}

/// Two maximal runs of one row that share a pixel are the same run.
proof fn lemma_runs_sharing_a_pixel(pending: Seq<u8>, committed: Seq<u8>, redraw_all: bool, a: Span, b: Span, x: int)
    requires
        is_run(pending, committed, redraw_all, a),
        is_run(pending, committed, redraw_all, b),
        covers(a, x, a.row as int),
        covers(b, x, a.row as int),
    ensures
        same_span(a, b),
{
    let y = a.row as int;
    if a.start_col < b.start_col {
        assert(differs(pending, committed, redraw_all, a.start_col + (b.start_col - 1 - a.start_col), y));
    }
    if b.start_col < a.start_col {
        assert(differs(pending, committed, redraw_all, b.start_col + (a.start_col - 1 - b.start_col), y));
    }
    if a.start_col + a.length < b.start_col + b.length {
        assert(differs(pending, committed, redraw_all, b.start_col + (a.start_col + a.length - b.start_col), y));
    }
    if b.start_col + b.length < a.start_col + a.length {
        assert(differs(pending, committed, redraw_all, a.start_col + (b.start_col + b.length - a.start_col), y));
    }
    assert(a.start_col == b.start_col && a.length == b.length);
    assert forall|k: int| 0 <= k < a.length implies a.colors@[k] == b.colors@[k] by {
        assert(differs(pending, committed, redraw_all, a.start_col + k, y));
        assert(differs(pending, committed, redraw_all, b.start_col + k, b.row as int));
    }
    assert(a.colors@ =~= b.colors@);
}

/// Each span of one span diff is a span of any other span diff of the same
/// frames.
proof fn lemma_span_partner(pending: Seq<u8>, committed: Seq<u8>, redraw_all: bool, s1: Seq<Span>, s2: Seq<Span>, i: int) -> (j: int)
    requires
        is_span_diff(pending, committed, redraw_all, s1),
        is_span_diff(pending, committed, redraw_all, s2),
        0 <= i < s1.len(),
    ensures
        0 <= j < s2.len(),
        same_span(s1[i], s2[j]),
{
    let a = s1[i];
    assert(is_run(pending, committed, redraw_all, a));
    assert(differs(pending, committed, redraw_all, a.start_col + 0, a.row as int));
    assert(in_bounds(a.start_col as int, a.row as int));
    let j = choose|j: int| 0 <= j < s2.len() && covers(#[trigger] s2[j], a.start_col as int, a.row as int);
    assert(is_run(pending, committed, redraw_all, s2[j]));
    lemma_runs_sharing_a_pixel(pending, committed, redraw_all, a, s2[j], a.start_col as int);
    j
}

proof fn lemma_span_diffs_agree_upto(pending: Seq<u8>, committed: Seq<u8>, redraw_all: bool, s1: Seq<Span>, s2: Seq<Span>, i: int)
    requires
        is_span_diff(pending, committed, redraw_all, s1),
        is_span_diff(pending, committed, redraw_all, s2),
        0 <= i <= s1.len(),
        i <= s2.len(),
    ensures
        forall|k: int| 0 <= k < i ==> same_span(#[trigger] s1[k], s2[k]),
    decreases i,
{
    if i > 0 {
        lemma_span_diffs_agree_upto(pending, committed, redraw_all, s1, s2, i - 1);
        let k = i - 1;
        let j = lemma_span_partner(pending, committed, redraw_all, s1, s2, k);
        let m = lemma_span_partner(pending, committed, redraw_all, s2, s1, k);
        if j < k {
            assert(same_span(s1[j], s2[j]));
            assert(precedes(s1[j], s1[k]));
        }
        if j > k {
            if m < k {
                assert(same_span(s1[m], s2[m]));
                assert(precedes(s2[m], s2[k]));
            } else if m == k {
                assert(precedes(s2[k], s2[j]));
            } else {
                assert(precedes(s2[k], s2[j]));
                assert(precedes(s1[k], s1[m]));
            }
        }
        assert(j == k);
    }
}

/// The span diff of two frames is unique: two sequences that both meet it
/// have the same length and agree span for span.
pub proof fn lemma_span_diff_unique(pending: Seq<u8>, committed: Seq<u8>, redraw_all: bool, s1: Seq<Span>, s2: Seq<Span>)
    requires
        is_span_diff(pending, committed, redraw_all, s1),
        is_span_diff(pending, committed, redraw_all, s2),
    ensures
        s1.len() == s2.len(),
        forall|k: int| 0 <= k < s1.len() ==> same_span(#[trigger] s1[k], s2[k]),
{
    if s1.len() > s2.len() {
        lemma_span_diffs_agree_upto(pending, committed, redraw_all, s1, s2, s2.len() as int);
        let n = s2.len() as int;
        let j = lemma_span_partner(pending, committed, redraw_all, s1, s2, n);
        assert(same_span(s1[j], s2[j]));
        assert(precedes(s1[j], s1[n]));
    } else if s2.len() > s1.len() {
        lemma_span_diffs_agree_upto(pending, committed, redraw_all, s2, s1, s1.len() as int);
        let n = s1.len() as int;
        let j = lemma_span_partner(pending, committed, redraw_all, s2, s1, n);
        assert(same_span(s2[j], s1[j]));
        assert(precedes(s2[j], s2[n]));
    } else {
        lemma_span_diffs_agree_upto(pending, committed, redraw_all, s1, s2, s1.len() as int);
    }
}

/// The span diff touches a pixel exactly when the two frames hold different
/// colours there: no changed pixel is left out and no unchanged one is written.
pub proof fn lemma_span_diff_complete(pending: Seq<u8>, committed: Seq<u8>, redraw_all: bool, spans: Seq<Span>)
    requires
        is_span_diff(pending, committed, redraw_all, spans),
    ensures
        forall|x: int, y: int|
            in_bounds(x, y) ==> ((exists|i: int| 0 <= i < spans.len() && covers(#[trigger] spans[i], x, y))
                <==> #[trigger] differs(pending, committed, redraw_all, x, y)),
{
    assert forall|x: int, y: int| in_bounds(x, y) && (exists|i: int| 0 <= i < spans.len() && covers(#[trigger] spans[i], x, y))
        implies #[trigger] differs(pending, committed, redraw_all, x, y) by {
        let i = choose|i: int| 0 <= i < spans.len() && covers(#[trigger] spans[i], x, y);
        assert(is_run(pending, committed, redraw_all, spans[i]));
        let k = x - spans[i].start_col;
        assert(differs(pending, committed, redraw_all, spans[i].start_col + k, spans[i].row as int));
    }
}

/// A frame diffed against itself gives no spans.
pub proof fn lemma_span_diff_of_same_frame(frame: Seq<u8>, spans: Seq<Span>)
    requires
        is_span_diff(frame, frame, false, spans),
    ensures
        spans.len() == 0,
{
    if spans.len() > 0 {
        assert(is_run(frame, frame, false, spans[0]));
        assert(differs(frame, frame, false, spans[0].start_col + 0, spans[0].row as int));
    }
}

/// While a full redraw is requested, the span diff covers every pixel of the
/// frame, whatever either frame holds.
pub proof fn lemma_forced_redraw_covers_all(pending: Seq<u8>, committed: Seq<u8>, spans: Seq<Span>)
    requires
        is_span_diff(pending, committed, true, spans),
    ensures
        forall|x: int, y: int|
            in_bounds(x, y) ==> exists|i: int| 0 <= i < spans.len() && #[trigger] covers(spans[i], x, y),
{
    assert forall|x: int, y: int| in_bounds(x, y) implies exists|i: int|
        0 <= i < spans.len() && #[trigger] covers(spans[i], x, y) by {
        assert(differs(pending, committed, true, x, y));
    }
}

} // verus!
