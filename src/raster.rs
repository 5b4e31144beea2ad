use vstd::prelude::*;

use crate::mapping::{
    lemma_ndc_x_to_screen_monotone,
    lemma_ndc_y_to_screen_antitone,
    ndc_to_screen_x,
    ndc_to_screen_y,
    ndc_x_to_screen,
    ndc_y_to_screen,
};
use crate::pixel::Pixel;
use crate::triangle::{lerp, lin_interp, Point, Triangle};

verus! {

/// Which colours the two spans of a triangle are filled with.
#[derive(Clone, Copy, Debug, PartialEq, Eq, Structural)]
pub enum SpanColoring {
    /// Both spans in blue.
    Uniform,
    /// The upper span in blue, the lower in green.
    DebugBySpan,
}

pub open spec fn blue() -> Pixel {
    Pixel { r: 0, g: 0, b: 255, a: 255 }
}

pub open spec fn green() -> Pixel {
    Pixel { r: 0, g: 255, b: 0, a: 255 }
}

/// Fill colour of span `i` (0 for the upper span, 1 for the lower).
pub open spec fn span_color(mode: SpanColoring, i: int) -> Pixel {
    match mode {
        SpanColoring::Uniform => blue(),
        SpanColoring::DebugBySpan => if i == 0 {
            blue()
        } else {
            green()
        },
    }
}

/// Fill colour of span `i`.
pub fn span_fill_color(mode: SpanColoring, i: usize) -> (c: Pixel)
    ensures
        c == span_color(mode, i as int),
{
    match mode {
        SpanColoring::Uniform => Pixel::new(0, 0, 255, 255),
        SpanColoring::DebugBySpan => if i == 0 {
            Pixel::new(0, 0, 255, 255)
        } else {
            Pixel::new(0, 255, 0, 255)
        },
    }
}

/// The triangle's points ordered by descending NDC y (topmost first); points
/// with equal y keep their order in the triangle.
pub open spec fn y_sorted(t: Triangle) -> (Point, Point, Point) {
    let p0 = t.points@[0];
    let p1 = t.points@[1];
    let p2 = t.points@[2];
    if p0.y >= p1.y {
        if p1.y >= p2.y {
            (p0, p1, p2)
        } else if p0.y >= p2.y {
            (p0, p2, p1)
        } else {
            (p2, p0, p1)
        }
    } else {
        if p0.y >= p2.y {
            (p1, p0, p2)
        } else if p1.y >= p2.y {
            (p1, p2, p0)
        } else {
            (p2, p1, p0)
        }
    }
}

/// The sort puts the topmost point first and the bottommost last, and takes
/// each of them from the triangle.
pub proof fn lemma_y_sorted_descending(t: Triangle)
    ensures
        y_sorted(t).0.y >= y_sorted(t).1.y >= y_sorted(t).2.y,
        t.points@.contains(y_sorted(t).0),
        t.points@.contains(y_sorted(t).1),
        t.points@.contains(y_sorted(t).2),
{
    assert(t.points@[0] == t.points@[0]);
    assert(t.points@[1] == t.points@[1]);
    assert(t.points@[2] == t.points@[2]);
}

/// Screen rows of the top, middle and bottom point of the triangle.
pub open spec fn row_bounds(t: Triangle, h: int) -> (int, int, int) {
    let s = y_sorted(t);
    (ndc_y_to_screen(s.0.y as int, h), ndc_y_to_screen(s.1.y as int, h), ndc_y_to_screen(s.2.y as int, h))
}

/// Because screen rows grow downwards while NDC y grows upwards, the rows of
/// the points sorted by descending y come out in ascending order.
pub proof fn lemma_row_bounds_ordered(t: Triangle, h: int)
    requires
        0 <= h,
    ensures
        row_bounds(t, h).0 <= row_bounds(t, h).1 <= row_bounds(t, h).2,
{
    let s = y_sorted(t);
    lemma_y_sorted_descending(t);
    lemma_ndc_y_to_screen_antitone(s.1.y as int, s.0.y as int, h);
    lemma_ndc_y_to_screen_antitone(s.2.y as int, s.1.y as int, h);
}

/// First row of span `i`.
pub open spec fn span_start(b: (int, int, int), i: int) -> int {
    if i == 0 {
        b.0
    } else {
        b.1
    }
}

/// Last row of span `i`.
pub open spec fn span_end(b: (int, int, int), i: int) -> int {
    if i == 0 {
        b.1
    } else {
        b.2
    }
}

/// Caps a framebuffer index at the last pixel.
pub open spec fn clamp_index(v: int, len: int) -> int {
    if v < len - 1 {
        v
    } else {
        len - 1
    }
}

/// The NDC x where row `y` of span `i` meets the span's own edge.
pub open spec fn edge_x(ys: (Point, Point, Point), b: (int, int, int), i: int, y: int) -> int {
    let p = if i == 0 {
        ys.0
    } else {
        ys.1
    };
    let q = if i == 0 {
        ys.1
    } else {
        ys.2
    };
    lerp(p.x as int, q.x as int, y - span_start(b, i), span_end(b, i) - span_start(b, i))
}

/// The NDC x where row `y` meets the long edge from the top to the bottom point.
pub open spec fn long_edge_x(ys: (Point, Point, Point), b: (int, int, int), y: int) -> int {
    lerp(ys.0.x as int, ys.2.x as int, y - b.0, b.2 - b.0)
}

/// First and last framebuffer index filled on row `y` of span `i`: the two
/// edge crossings in left-to-right order, mapped to columns, offset by the
/// row, and capped at the last pixel.
pub open spec fn row_range(ys: (Point, Point, Point), b: (int, int, int), w: int, len: int, i: int, y: int) -> (int, int) {
    let e = edge_x(ys, b, i, y);
    let l = long_edge_x(ys, b, y);
    let x1 = if e > l {
        l
    } else {
        e
    };
    let x2 = if e > l {
        e
    } else {
        l
    };
    (clamp_index(ndc_x_to_screen(x1, w) + y * w, len), clamp_index(ndc_x_to_screen(x2, w) + y * w, len))
}

/// Some row in `[from, to)` of span `i` fills index `k`.
pub open spec fn rows_cover(ys: (Point, Point, Point), b: (int, int, int), w: int, len: int, i: int, from: int, to: int, k: int) -> bool {
    exists|y: int|
        #![trigger row_range(ys, b, w, len, i, y)]
        from <= y < to && row_range(ys, b, w, len, i, y).0 <= k && k <= row_range(ys, b, w, len, i, y).1
}

/// Span `i` is drawn (its two bounding rows differ) and fills index `k`.
pub open spec fn span_covers(ys: (Point, Point, Point), b: (int, int, int), w: int, len: int, i: int, k: int) -> bool {
    span_start(b, i) < span_end(b, i) && rows_cover(ys, b, w, len, i, span_start(b, i), span_end(b, i) + 1, k)
}

/// Span `i` of triangle `t` fills index `k` of a framebuffer of `len` pixels,
/// `w` wide and `h` high.
pub open spec fn tri_span_covers(t: Triangle, w: int, h: int, len: int, i: int, k: int) -> bool {
    span_covers(y_sorted(t), row_bounds(t, h), w, len, i, k)
}

/// Triangle `t` fills index `k` in one of its spans.
pub open spec fn tri_covers(t: Triangle, w: int, h: int, len: int, k: int) -> bool {
    tri_span_covers(t, w, h, len, 0, k) || tri_span_covers(t, w, h, len, 1, k)
}

/// The colour that pixel `k`, which held `old`, has after triangle `t` is
/// drawn: the lower span is drawn after the upper one and wins where both fill.
pub open spec fn tri_pixel(t: Triangle, w: int, h: int, len: int, mode: SpanColoring, old: Pixel, k: int) -> Pixel {
    if tri_span_covers(t, w, h, len, 1, k) {
        span_color(mode, 1)
    } else if tri_span_covers(t, w, h, len, 0, k) {
        span_color(mode, 0)
    } else {
        old
    }
}

/// Orders the points by descending y, keeping the order of equal ones.
fn sort_by_y_desc(t: &Triangle) -> (s: (Point, Point, Point))
    ensures
        s == y_sorted(*t),
        s.0.y >= s.1.y >= s.2.y,
{
    let p0 = t.points[0];
    let p1 = t.points[1];
    let p2 = t.points[2];
    if p0.y >= p1.y {
        if p1.y >= p2.y {
            (p0, p1, p2)
        } else if p0.y >= p2.y {
            (p0, p2, p1)
        } else {
            (p2, p0, p1)
        }
    } else {
        if p0.y >= p2.y {
            (p1, p0, p2)
        } else if p1.y >= p2.y {
            (p1, p2, p0)
        } else {
            (p2, p1, p0)
        }
    }
}

pub open spec fn bounds_of(b: (u32, u32, u32)) -> (int, int, int) {
    (b.0 as int, b.1 as int, b.2 as int)
}

/// Every row range lies inside the framebuffer and runs left to right.
proof fn lemma_row_range_ordered(ys: (Point, Point, Point), b: (int, int, int), w: int, len: int, i: int, y: int)
    requires
        0 < len,
        0 <= w,
        0 <= y,
    ensures
        0 <= row_range(ys, b, w, len, i, y).0 <= row_range(ys, b, w, len, i, y).1 <= len - 1,
{
    let e = edge_x(ys, b, i, y);
    let l = long_edge_x(ys, b, y);
    if e > l {
        lemma_ndc_x_to_screen_monotone(l, e, w);
    } else {
        lemma_ndc_x_to_screen_monotone(e, l, w);
    }
    assert(0 <= y * w) by (nonlinear_arith)
        requires
            0 <= y,
            0 <= w,
    ;
}

/// Once a row starts at or past the last pixel (or the target has no
/// width), every later row of the span fills just what that row fills.
proof fn lemma_rows_past_end_repeat(ys: (Point, Point, Point), b: (int, int, int), w: int, len: int, i: int, y: int, y2: int)
    requires
        0 < len,
        0 <= w,
        0 <= y <= y2,
        w == 0 || y * w >= len - 1,
    ensures
        row_range(ys, b, w, len, i, y2) == row_range(ys, b, w, len, i, y),
{
    let e1 = edge_x(ys, b, i, y);
    let l1 = long_edge_x(ys, b, y);
    let e2 = edge_x(ys, b, i, y2);
    let l2 = long_edge_x(ys, b, y2);
    if w == 0 {
        assert(y * w == 0 && y2 * w == 0);
        assert(ndc_x_to_screen(e1, w) == 0);
        assert(ndc_x_to_screen(l1, w) == 0);
        assert(ndc_x_to_screen(e2, w) == 0);
        assert(ndc_x_to_screen(l2, w) == 0);
    } else {
        assert(y * w <= y2 * w) by (nonlinear_arith)
            requires
                y <= y2,
                0 <= w,
        ;
    }
}

/// Computes `row_range` for one row of a drawn span.
fn row_range_at(ys: (Point, Point, Point), b: (u32, u32, u32), w: u32, len: usize, i: usize, y: u32) -> (r: (
    usize,
    usize,
))
    requires
        0 < len,
        i < 2,
        b.0 <= b.1 <= b.2,
        span_start(bounds_of(b), i as int) < span_end(bounds_of(b), i as int),
        span_start(bounds_of(b), i as int) <= y <= span_end(bounds_of(b), i as int),
    ensures
        r.0 == row_range(ys, bounds_of(b), w as int, len as int, i as int, y as int).0,
        r.1 == row_range(ys, bounds_of(b), w as int, len as int, i as int, y as int).1,
        r.0 <= r.1 < len,
{
    let ghost gb = bounds_of(b);
    let (p, q, start, end) = if i == 0 {
        (ys.0, ys.1, b.0, b.1)
    } else {
        (ys.1, ys.2, b.1, b.2)
    };
    let e = lin_interp(p.x, q.x, (y - start) as u64, (end - start) as u64);
    let l = lin_interp(ys.0.x, ys.2.x, (y - b.0) as u64, (b.2 - b.0) as u64);
    let (x1, x2) = if e > l {
        (l, e)
    } else {
        (e, l)
    };
    assert((y as int) * (w as int) <= 4294967295 * 4294967295) by (nonlinear_arith)
        requires
            y <= 4294967295u32,
            w <= 4294967295u32,
    ;
    let row: u64 = (y as u64) * (w as u64);
    let v1: u64 = ndc_to_screen_x(x1, w) as u64 + row;
    let v2: u64 = ndc_to_screen_x(x2, w) as u64 + row;
    let last: usize = len - 1;
    let lo: usize = if v1 < last as u64 {
        v1 as usize
    } else {
        last
    };
    let hi: usize = if v2 < last as u64 {
        v2 as usize
    } else {
        last
    };
    proof {
        lemma_row_range_ordered(ys, gb, w as int, len as int, i as int, y as int);
    }
    (lo, hi)
}

/// Fills every row of span `i` of the triangle whose sorted points are `ys`
/// and whose rows are `b` with colour `c`.
fn fill_span(fb: &mut Vec<Pixel>, ys: (Point, Point, Point), b: (u32, u32, u32), w: u32, i: usize, c: Pixel)
    requires
        0 < old(fb)@.len(),
        i < 2,
        b.0 <= b.1 <= b.2,
    ensures
        final(fb)@.len() == old(fb)@.len(),
        forall|k: int|
            0 <= k < old(fb)@.len() ==> #[trigger] final(fb)@[k] == if span_covers(
                ys,
                bounds_of(b),
                w as int,
                old(fb)@.len() as int,
                i as int,
                k,
            ) {
                c
            } else {
                old(fb)@[k]
            },
{
    let ghost gb = bounds_of(b);
    let ghost len = fb@.len() as int;
    let ghost orig = fb@;
    let (start, end) = if i == 0 {
        (b.0, b.1)
    } else {
        (b.1, b.2)
    };
    if start == end {
        return;
    }
    let mut y: u64 = start as u64;
    while y <= end as u64
        invariant
            start <= y <= end as int + 1,
            start < end,
            start == span_start(gb, i as int),
            end == span_end(gb, i as int),
            gb == bounds_of(b),
            b.0 <= b.1 <= b.2,
            i < 2,
            len == orig.len(),
            0 < len,
            fb@.len() == len,
            forall|k: int|
                0 <= k < len ==> #[trigger] fb@[k] == if rows_cover(ys, gb, w as int, len, i as int, start as int, y as int, k) {
                    c
                } else {
                    orig[k]
                },
        decreases end as int + 1 - y,
    {
        let (lo, hi) = row_range_at(ys, b, w, fb.len(), i, y as u32);
        assert((y as int) * (w as int) <= 4294967296 * 4294967295) by (nonlinear_arith)
            requires
                y <= 4294967296u64,
                w <= 4294967295u32,
        ;
        let ghost before = fb@;
        let n: usize = fb.len();
        let mut j: usize = lo;
        while j <= hi
            invariant
                lo <= j <= hi + 1,
                hi < n,
                n == len,
                before.len() == len,
                fb@.len() == len,
                forall|k: int|
                    0 <= k < len ==> #[trigger] fb@[k] == if lo <= k < j {
                        c
                    } else {
                        before[k]
                    },
            decreases hi + 1 - j,
        {
            fb.set(j, c);
            j += 1;
        }
        let rows_past_end: bool = w == 0 || (y * (w as u64)) >= (fb.len() - 1) as u64;
        assert forall|k: int| 0 <= k < len implies #[trigger] fb@[k] == if rows_cover(
            ys,
            gb,
            w as int,
            len,
            i as int,
            start as int,
            y + 1,
            k,
        ) {
            c
        } else {
            orig[k]
        } by {
            let r = row_range(ys, gb, w as int, len, i as int, y as int);
            if lo <= k <= hi {
                assert(rows_cover(ys, gb, w as int, len, i as int, start as int, y + 1, k));
            } else {
                if rows_cover(ys, gb, w as int, len, i as int, start as int, y + 1, k) {
                    let yy = choose|yy: int|
                        #![trigger row_range(ys, gb, w as int, len, i as int, yy)]
                        start <= yy < y + 1 && row_range(ys, gb, w as int, len, i as int, yy).0 <= k
                            && k <= row_range(ys, gb, w as int, len, i as int, yy).1;
                    assert(yy != y);
                    assert(rows_cover(ys, gb, w as int, len, i as int, start as int, y as int, k));
                }
            }
        }
        if rows_past_end {
            assert forall|k: int| 0 <= k < len implies #[trigger] fb@[k] == if rows_cover(
                ys,
                gb,
                w as int,
                len,
                i as int,
                start as int,
                end + 1,
                k,
            ) {
                c
            } else {
                orig[k]
            } by {
                if rows_cover(ys, gb, w as int, len, i as int, start as int, end + 1, k) {
                    let yy = choose|yy: int|
                        #![trigger row_range(ys, gb, w as int, len, i as int, yy)]
                        start <= yy < end + 1 && row_range(ys, gb, w as int, len, i as int, yy).0 <= k
                            && k <= row_range(ys, gb, w as int, len, i as int, yy).1;
                    if yy > y {
                        lemma_rows_past_end_repeat(ys, gb, w as int, len, i as int, y as int, yy);
                    }
                    assert(rows_cover(ys, gb, w as int, len, i as int, start as int, y + 1, k));
                }
            }
            y = end as u64 + 1;
        } else {
            y += 1;
        }
    }
}

/// Draws triangle `t` into the framebuffer `fb` of a `w` by `h` target:
/// the upper span, then the lower one, each a run of clamped row fills.
pub fn raster_triangle(fb: &mut Vec<Pixel>, t: &Triangle, w: u32, h: u32, mode: SpanColoring)
    ensures
        final(fb)@.len() == old(fb)@.len(),
        forall|k: int|
            0 <= k < old(fb)@.len() ==> #[trigger] final(fb)@[k] == tri_pixel(
                *t,
                w as int,
                h as int,
                old(fb)@.len() as int,
                mode,
                old(fb)@[k],
                k,
            ),
{
    if fb.len() == 0 {
        return;
    }
    let ys = sort_by_y_desc(t);
    let b = (ndc_to_screen_y(ys.0.y, h), ndc_to_screen_y(ys.1.y, h), ndc_to_screen_y(ys.2.y, h));
    proof {
        lemma_row_bounds_ordered(*t, h as int);
        assert(bounds_of(b) == row_bounds(*t, h as int));
    }
    let ghost orig = fb@;
    fill_span(fb, ys, b, w, 0, span_fill_color(mode, 0));
    fill_span(fb, ys, b, w, 1, span_fill_color(mode, 1));
    assert forall|k: int| 0 <= k < orig.len() implies #[trigger] fb@[k] == tri_pixel(
        *t,
        w as int,
        h as int,
        orig.len() as int,
        mode,
        orig[k],
        k,
    ) by {}
}

/// Every row that a triangle's span fills lies inside the framebuffer and
/// runs left to right, however far outside NDC's unit square the points are.
pub proof fn lemma_writes_in_bounds(t: Triangle, w: int, h: int, len: int, i: int, y: int)
    requires
        0 < len,
        0 <= w,
        0 <= h,
        0 <= i < 2,
        span_start(row_bounds(t, h), i) <= y <= span_end(row_bounds(t, h), i),
    ensures
        0 <= row_range(y_sorted(t), row_bounds(t, h), w, len, i, y).0,
        row_range(y_sorted(t), row_bounds(t, h), w, len, i, y).0 <= row_range(y_sorted(t), row_bounds(t, h), w, len, i, y).1,
        row_range(y_sorted(t), row_bounds(t, h), w, len, i, y).1 < len,
{
    lemma_row_range_ordered(y_sorted(t), row_bounds(t, h), w, len, i, y);
}

/// A triangle whose three points share one NDC y draws nothing.
pub proof fn lemma_flat_triangle_draws_nothing(t: Triangle, w: int, h: int, len: int, mode: SpanColoring, old: Pixel, k: int)
    requires
        t.points@[0].y == t.points@[1].y,
        t.points@[1].y == t.points@[2].y,
    ensures
        !tri_covers(t, w, h, len, k),
        tri_pixel(t, w, h, len, mode, old, k) == old,
{
}

/// When the top and middle point fall on one screen row, the upper span is
/// skipped: only rows of the lower span are filled.
pub proof fn lemma_flat_top_fills_lower_span_only(t: Triangle, w: int, h: int, len: int, mode: SpanColoring, old: Pixel, k: int)
    requires
        row_bounds(t, h).0 == row_bounds(t, h).1,
    ensures
        !tri_span_covers(t, w, h, len, 0, k),
        tri_pixel(t, w, h, len, mode, old, k) == if tri_span_covers(t, w, h, len, 1, k) {
            span_color(mode, 1)
        } else {
            old
        },
        tri_span_covers(t, w, h, len, 1, k) ==> exists|y: int|
            row_bounds(t, h).1 <= y <= row_bounds(t, h).2 && row_range(y_sorted(t), row_bounds(t, h), w, len, 1, y).0 <= k
                && k <= #[trigger] row_range(y_sorted(t), row_bounds(t, h), w, len, 1, y).1,
{
}

} // verus!
