use rasterizer::mapping::{ndc_to_screen_x, ndc_to_screen_y, screen_to_ndc_x, screen_to_ndc_y};
use rasterizer::pixel::{framebuffer_to_rgb_words, pixel_to_rgb_word, pixel_to_x_pixel, Pixel};
use rasterizer::raster::{raster_triangle, span_fill_color, SpanColoring};
use rasterizer::renderer::{RasterError, Renderer};
use rasterizer::triangle::{lin_interp, Point, ScreenCoords, Triangle, HALF_HEIGHT, NDC_ONE};

const S: i64 = NDC_ONE;

fn black() -> Pixel {
    Pixel::new(0, 0, 0, 255)
}

fn blue() -> Pixel {
    Pixel::new(0, 0, 255, 255)
}

fn green() -> Pixel {
    Pixel::new(0, 255, 0, 255)
}

fn tri(a: (i64, i64), b: (i64, i64), c: (i64, i64)) -> Triangle {
    Triangle::new(Point::new(a.0, a.1, 0), Point::new(b.0, b.1, 0), Point::new(c.0, c.1, 0))
}

fn apex_up() -> Triangle {
    tri((0, S), (-S, -S), (S, -S))
}

/// Columns of the first and last non-background pixel of each row, if any.
fn row_extents(r: &Renderer) -> Vec<Option<(usize, usize)>> {
    let w = r.width() as usize;
    let h = r.height() as usize;
    let mut out = Vec::new();
    for y in 0..h {
        let row = &r.framebuffer[y * w..(y + 1) * w];
        let filled: Vec<usize> = (0..w).filter(|&x| row[x] != r.background_col).collect();
        out.push(filled.first().map(|&lo| (lo, *filled.last().unwrap())));
    }
    out
}

#[test]
fn mapping_exact_values() {
    assert_eq!(screen_to_ndc_x(0, 10), -S);
    assert_eq!(screen_to_ndc_x(5, 10), 0);
    assert_eq!(screen_to_ndc_x(10, 10), S);
    assert_eq!(screen_to_ndc_y(0, 10), S);
    assert_eq!(screen_to_ndc_y(5, 10), 0);
    assert_eq!(screen_to_ndc_y(10, 10), -S);
    assert_eq!(ndc_to_screen_x(0, 10), 5);
    assert_eq!(ndc_to_screen_x(-S, 10), 0);
    assert_eq!(ndc_to_screen_x(S, 10), 10);
    assert_eq!(ndc_to_screen_y(S, 10), 0);
    assert_eq!(ndc_to_screen_y(-S, 10), 10);
    assert_eq!(ndc_to_screen_y(0, 10), 5);
}

#[test]
fn mapping_rounds_half_away_from_zero() {
    // one pixel wide: NDC 0 is column 0.5
    assert_eq!(ndc_to_screen_x(0, 1), 1);
    assert_eq!(ndc_to_screen_x(-1, 1), 0);
    assert_eq!(ndc_to_screen_y(0, 1), 1);
}

#[test]
fn mapping_saturates_outside_u32() {
    assert_eq!(ndc_to_screen_x(-10 * S, 10), 0);
    assert_eq!(ndc_to_screen_x(i64::MIN, u32::MAX), 0);
    assert_eq!(ndc_to_screen_x(i64::MAX, u32::MAX), u32::MAX);
    assert_eq!(ndc_to_screen_y(i64::MIN, u32::MAX), u32::MAX);
    assert_eq!(ndc_to_screen_y(10 * S, 10), 0);
}

#[test]
fn mapping_round_trip() {
    for w in [1u32, 2, 3, 7, 10, 640, 1024, 1920, 65535, u32::MAX] {
        let xs: Vec<u32> = if w <= 2000 { (0..=w).collect() } else { vec![0, 1, w / 3, w / 2, w - 1, w] };
        for x in xs {
            assert_eq!(ndc_to_screen_x(screen_to_ndc_x(x, w), w), x);
            assert_eq!(ndc_to_screen_y(screen_to_ndc_y(x, w), w), x);
        }
    }
}

#[test]
fn mapping_monotone() {
    for w in [1u32, 3, 10, 768, 1024] {
        for x in 0..w {
            assert!(screen_to_ndc_x(x, w) < screen_to_ndc_x(x + 1, w));
            assert!(screen_to_ndc_y(x, w) > screen_to_ndc_y(x + 1, w));
        }
    }
}

#[test]
fn lin_interp_rounds_towards_start() {
    assert_eq!(lin_interp(0, 10, 1, 4), 2);
    assert_eq!(lin_interp(10, 0, 1, 4), 8);
    assert_eq!(lin_interp(-7, 9, 0, 5), -7);
    assert_eq!(lin_interp(-7, 9, 5, 5), 9);
    assert_eq!(lin_interp(i64::MIN, i64::MAX, 1, 2), -1);
    assert_eq!(lin_interp(i64::MAX, i64::MIN, u64::MAX, u64::MAX), i64::MIN);
}

#[test]
fn pixel_encodings() {
    let p = Pixel::new(1, 2, 3, 4);
    assert_eq!(pixel_to_rgb_word(p), 0x0001_0203);
    assert_eq!(pixel_to_x_pixel(p), [3, 2, 1, 4]);
    let words = framebuffer_to_rgb_words(&vec![p, Pixel::new(255, 0, 128, 0)]);
    assert_eq!(words, vec![0x0001_0203, 0x00ff_0080]);
}

#[test]
fn screen_coords_and_points() {
    let c = ScreenCoords::new(3, 4);
    assert_eq!((c.x, c.y), (3, 4));
    let p = Point::new(1, -2, 3);
    assert_eq!((p.x, p.y, p.z), (1, -2, 3));
    let r = Renderer::new(10, 20, black());
    let q = r.screen_coords_to_ndc(ScreenCoords::new(5, 5));
    assert_eq!((q.x, q.y, q.z), (0, S / 2, 0));
    assert_eq!(r.ndc_to_screen_coords(&q), ScreenCoords::new(5, 5));
    assert_eq!(r.screen_x_to_ndx(10), S);
    assert_eq!(r.screen_y_to_ndy(20), -S);
    assert_eq!(r.ndx_to_screen_x(0), 5);
    assert_eq!(r.ndy_to_screen_y(0), 10);
}

#[test]
fn default_triangle_is_equilateral_at_origin() {
    let t = Triangle::default();
    assert_eq!(t.points[0], Point::new(0, HALF_HEIGHT, S));
    assert_eq!(t.points[1], Point::new(-S / 2, -HALF_HEIGHT, S));
    assert_eq!(t.points[2], Point::new(S / 2, -HALF_HEIGHT, S));
}

#[test]
fn new_renderer_is_cleared() {
    let r = Renderer::new(4, 3, black());
    assert_eq!((r.width(), r.height()), (4, 3));
    assert_eq!(r.framebuffer, vec![black(); 12]);
    assert!(r.tris.is_empty());
    assert_eq!(r.span_coloring, SpanColoring::Uniform);
}

#[test]
fn resize_keeps_prefix_and_pads_with_background() {
    let mut r = Renderer::new(2, 2, black());
    r.framebuffer[1] = blue();
    r.resize(3, 2);
    assert_eq!(r.framebuffer.len(), 6);
    assert_eq!(r.framebuffer[1], blue());
    assert_eq!(r.framebuffer[5], black());
    r.resize(1, 1);
    assert_eq!(r.framebuffer, vec![black()]);
}

#[test]
fn raster_refuses_mismatched_framebuffer() {
    let mut r = Renderer::new(4, 4, black());
    r.framebuffer.push(blue());
    assert_eq!(r.raster(), Err(RasterError::DimensionMismatch));
    assert_eq!(r.framebuffer[16], blue());
}

#[test]
fn span_colors() {
    assert_eq!(span_fill_color(SpanColoring::Uniform, 0), blue());
    assert_eq!(span_fill_color(SpanColoring::Uniform, 1), blue());
    assert_eq!(span_fill_color(SpanColoring::DebugBySpan, 0), blue());
    assert_eq!(span_fill_color(SpanColoring::DebugBySpan, 1), green());
}

#[test]
fn apex_up_triangle_on_ten_by_ten() {
    let mut r = Renderer::new(10, 10, black());
    r.tris.push(apex_up());
    assert_eq!(r.raster(), Ok(()));
    assert_eq!(r.framebuffer.len(), 100);
    let ext = row_extents(&r);
    assert_eq!(ext[0], Some((5, 5)));
    assert_eq!(ext[5], Some((3, 8)));
    assert_eq!(ext[9], Some((1, 9)));
    let mut prev = 0;
    for e in &ext {
        let (lo, hi) = e.expect("every row is filled");
        assert!(hi - lo >= prev);
        prev = hi - lo;
        for x in lo..=hi {
            assert_eq!(r.framebuffer[ext.iter().position(|f| f == e).unwrap() * 10 + x], blue());
        }
    }
    assert_eq!(r.framebuffer[90], black());
}

#[test]
fn resize_doubles_horizontal_extent() {
    let mut r = Renderer::new(10, 10, black());
    r.tris.push(apex_up());
    r.raster().unwrap();
    let narrow = row_extents(&r);
    r.resize(20, 10);
    r.raster().unwrap();
    let wide = row_extents(&r);
    assert_eq!(wide[0], Some((10, 10)));
    assert_eq!(wide[9], Some((1, 19)));
    for y in 0..10 {
        let (nl, nh) = narrow[y].unwrap();
        let (wl, wh) = wide[y].unwrap();
        let (n, w) = ((nh - nl) as i64, (wh - wl) as i64);
        assert!((w - 2 * n).abs() <= 2, "row {y}: {n} vs {w}");
    }
}

#[test]
fn flat_triangle_draws_nothing() {
    let mut r = Renderer::new(10, 10, black());
    r.tris.push(tri((-S, S / 3), (S, S / 3), (0, S / 3)));
    r.raster().unwrap();
    assert_eq!(r.framebuffer, vec![black(); 100]);
}

#[test]
fn flat_top_triangle_fills_only_lower_span() {
    let mut r = Renderer::new(10, 10, black());
    r.span_coloring = SpanColoring::DebugBySpan;
    r.tris.push(tri((-S, S), (S, S), (0, -S)));
    r.raster().unwrap();
    assert!(r.framebuffer.iter().all(|&p| p != blue()));
    assert_eq!(r.framebuffer.iter().filter(|&&p| p == green()).count() > 0, true);
    assert_eq!(row_extents(&r)[0], Some((0, 9)));
}

#[test]
fn later_triangle_overwrites_earlier() {
    let a = tri((-S, S), (S, S / 2), (-S / 2, -S));
    let b = apex_up();
    let mut alone = Renderer::new(16, 16, black());
    alone.span_coloring = SpanColoring::DebugBySpan;
    alone.tris.push(b);
    alone.raster().unwrap();
    let mut both = Renderer::new(16, 16, black());
    both.span_coloring = SpanColoring::DebugBySpan;
    both.tris.push(a);
    both.tris.push(b);
    both.raster().unwrap();
    let mut overlap = 0;
    for k in 0..256 {
        if alone.framebuffer[k] != black() {
            assert_eq!(both.framebuffer[k], alone.framebuffer[k]);
            overlap += 1;
        }
    }
    assert!(overlap > 0);
    let mut first = Renderer::new(16, 16, black());
    first.tris.push(a);
    first.raster().unwrap();
    assert!((0..256).any(|k| first.framebuffer[k] != black() && alone.framebuffer[k] != black()));
}

#[test]
fn far_outside_triangle_stays_in_bounds() {
    let mut r = Renderer::new(8, 6, black());
    r.tris.push(tri((-1000 * S, 1000 * S), (1000 * S, -3 * S), (5 * S, -1000 * S)));
    r.tris.push(tri((i64::MAX, i64::MIN), (i64::MIN, i64::MAX), (0, 0)));
    r.raster().unwrap();
    assert_eq!(r.framebuffer.len(), 48);
}

#[test]
fn raster_triangle_on_empty_framebuffer() {
    let mut fb: Vec<Pixel> = Vec::new();
    raster_triangle(&mut fb, &apex_up(), 0, 0, SpanColoring::Uniform);
    assert!(fb.is_empty());
}

#[test]
fn raster_tri_draws_over_without_clearing() {
    let mut r = Renderer::new(10, 10, black());
    r.framebuffer[0] = green();
    r.raster_tri(&apex_up());
    assert_eq!(r.framebuffer[0], green());
    assert_eq!(r.framebuffer[5], blue());
}

#[test]
fn rgb_frame_packs_each_pixel() {
    let mut r = Renderer::new(2, 1, Pixel::new(255, 0, 0, 255));
    r.framebuffer[1] = blue();
    assert_eq!(r.rgb_frame(), vec![0x00ff_0000, 0x0000_00ff]);
}
