use vstd::prelude::*;

use crate::buffer::resize_filled;
use crate::mapping::{
    ndc_to_screen_x,
    ndc_to_screen_y,
    ndc_x_to_screen,
    ndc_y_to_screen,
    screen_to_ndc_x,
    screen_to_ndc_y,
    screen_x_to_ndc,
    screen_y_to_ndc,
};
use crate::pixel::{framebuffer_to_rgb_words, rgb_word, Pixel};
use crate::raster::{
    blue,
    raster_triangle,
    span_color,
    tri_covers,
    tri_pixel,
    tri_span_covers,
    SpanColoring,
};
use crate::triangle::{Point, ScreenCoords, Triangle};

verus! {

/// Why a raster pass refused to run.
#[derive(Clone, Copy, Debug, PartialEq, Eq, Structural)]
pub enum RasterError {
    /// The framebuffer does not hold exactly `width * height` pixels.
    DimensionMismatch,
}

/// The colour of pixel `k` after a frame: the background, painted over by
/// each triangle of `tris` in order.
pub open spec fn frame_pixel(
    tris: Seq<Triangle>,
    w: int,
    h: int,
    len: int,
    mode: SpanColoring,
    bg: Pixel,
    k: int,
) -> Pixel
    decreases tris.len(),
{
    if tris.len() == 0 {
        bg
    } else {
        tri_pixel(tris.last(), w, h, len, mode, frame_pixel(tris.drop_last(), w, h, len, mode, bg, k), k)
    }
}

/// The renderer's state: a framebuffer of `width * height` pixels, row-major
/// with the origin top-left, the background it is cleared to, and the
/// triangles drawn on it in order. `resize` changes the size and the
/// framebuffer together; a raster pass refuses a framebuffer of another length.
pub struct Renderer {
    pub framebuffer: Vec<Pixel>,
    pub background_col: Pixel,
    pub tris: Vec<Triangle>,
    pub span_coloring: SpanColoring,
    pub width: u32,
    pub height: u32,
}

impl Renderer {
    /// The framebuffer holds one pixel per screen position.
    pub open spec fn wf(&self) -> bool {
        self.framebuffer@.len() == self.width as int * self.height as int
    }

    /// A renderer with no triangles and a `width` by `height` framebuffer
    /// filled with `background_col`.
    pub fn new(width: u32, height: u32, background_col: Pixel) -> (r: Renderer)
        requires
            width as int * height as int <= usize::MAX,
        ensures
            r.wf(),
            r.width == width,
            r.height == height,
            r.background_col == background_col,
            r.tris@.len() == 0,
            r.span_coloring == SpanColoring::Uniform,
            forall|k: int| 0 <= k < r.framebuffer@.len() ==> #[trigger] r.framebuffer@[k] == background_col,
    {
        let mut r = Renderer {
            framebuffer: Vec::new(),
            background_col,
            tris: Vec::new(),
            span_coloring: SpanColoring::Uniform,
            width: 0,
            height: 0,
        };
        r.resize(width, height);
        r
    }

    pub fn width(&self) -> (w: u32)
        ensures
            w == self.width,
    {
        self.width
    }

    pub fn height(&self) -> (h: u32)
        ensures
            h == self.height,
    {
        self.height
    }

    /// Takes the size `width` by `height`: the framebuffer is cut or grown
    /// to `width * height` pixels, keeping its first pixels and filling new
    /// ones with the background.
    pub fn resize(&mut self, width: u32, height: u32)
        requires
            width as int * height as int <= usize::MAX,
        ensures
            final(self).wf(),
            final(self).width == width,
            final(self).height == height,
            final(self).background_col == old(self).background_col,
            final(self).tris == old(self).tris,
            final(self).span_coloring == old(self).span_coloring,
            forall|k: int|
                0 <= k < final(self).framebuffer@.len() ==> #[trigger] final(self).framebuffer@[k] == if k
                    < old(self).framebuffer@.len() {
                    old(self).framebuffer@[k]
                } else {
                    old(self).background_col
                },
    {
        assert(width as int * height as int <= 4294967295 * 4294967295) by (nonlinear_arith)
            requires
                width <= 4294967295u32,
                height <= 4294967295u32,
        ;
        let n: usize = ((width as u64) * (height as u64)) as usize;
        let bg = self.background_col;
        resize_filled(&mut self.framebuffer, n, bg);
        self.width = width;
        self.height = height;
    }

    /// NDC x of pixel column `x`: `x / width * 2 - 1`.
    pub fn screen_x_to_ndx(&self, x: u32) -> (r: i64)
        requires
            0 < self.width,
            x <= self.width,
        ensures
            r == screen_x_to_ndc(x as int, self.width as int),
    {
        screen_to_ndc_x(x, self.width)
    }

    /// NDC y of pixel row `y`: `(1 - y / height) * 2 - 1`.
    pub fn screen_y_to_ndy(&self, y: u32) -> (r: i64)
        requires
            0 < self.height,
            y <= self.height,
        ensures
            r == screen_y_to_ndc(y as int, self.height as int),
    {
        screen_to_ndc_y(y, self.height)
    }

    /// The NDC point at screen position `c`, with depth 0.
    pub fn screen_coords_to_ndc(&self, c: ScreenCoords) -> (p: Point)
        requires
            0 < self.width,
            0 < self.height,
            c.x <= self.width,
            c.y <= self.height,
        ensures
            p.x == screen_x_to_ndc(c.x as int, self.width as int),
            p.y == screen_y_to_ndc(c.y as int, self.height as int),
            p.z == 0,
    {
        Point::new(self.screen_x_to_ndx(c.x), self.screen_y_to_ndy(c.y), 0)
    }

    /// Pixel column of NDC x `x`: `round(width * (1 + x) / 2)`.
    pub fn ndx_to_screen_x(&self, x: i64) -> (r: u32)
        ensures
            r == ndc_x_to_screen(x as int, self.width as int),
    {
        ndc_to_screen_x(x, self.width)
    }

    /// Pixel row of NDC y `y`: `round(height * (1 - (1 + y) / 2))`.
    pub fn ndy_to_screen_y(&self, y: i64) -> (r: u32)
        ensures
            r == ndc_y_to_screen(y as int, self.height as int),
    {
        ndc_to_screen_y(y, self.height)
    }

    /// Screen position of the NDC point `p`; its depth is ignored.
    pub fn ndc_to_screen_coords(&self, p: &Point) -> (c: ScreenCoords)
        ensures
            c.x == ndc_x_to_screen(p.x as int, self.width as int),
            c.y == ndc_y_to_screen(p.y as int, self.height as int),
    {
        ScreenCoords::new(self.ndx_to_screen_x(p.x), self.ndy_to_screen_y(p.y))
    }

    /// Draws one triangle over the framebuffer.
    pub fn raster_tri(&mut self, tri: &Triangle)
        ensures
            final(self).framebuffer@.len() == old(self).framebuffer@.len(),
            final(self).width == old(self).width,
            final(self).height == old(self).height,
            final(self).background_col == old(self).background_col,
            final(self).tris == old(self).tris,
            final(self).span_coloring == old(self).span_coloring,
            forall|k: int|
                0 <= k < old(self).framebuffer@.len() ==> #[trigger] final(self).framebuffer@[k] == tri_pixel(
                    *tri,
                    old(self).width as int,
                    old(self).height as int,
                    old(self).framebuffer@.len() as int,
                    old(self).span_coloring,
                    old(self).framebuffer@[k],
                    k,
                ),
    {
        raster_triangle(&mut self.framebuffer, tri, self.width, self.height, self.span_coloring);
    }

    /// One raster pass: clears the framebuffer to the background, then
    /// draws every triangle in list order, later ones over earlier ones.
    /// Refuses to run when the framebuffer's length is not `width * height`.
    pub fn raster(&mut self) -> (r: Result<(), RasterError>)
        ensures
            r is Err <==> !old(self).wf(),
            r is Err ==> r == Err::<(), RasterError>(RasterError::DimensionMismatch),
            r is Err ==> final(self).framebuffer@ == old(self).framebuffer@,
            final(self).framebuffer@.len() == old(self).framebuffer@.len(),
            final(self).width == old(self).width,
            final(self).height == old(self).height,
            final(self).background_col == old(self).background_col,
            final(self).tris == old(self).tris,
            final(self).span_coloring == old(self).span_coloring,
            r is Ok ==> forall|k: int|
                0 <= k < old(self).framebuffer@.len() ==> #[trigger] final(self).framebuffer@[k] == frame_pixel(
                    old(self).tris@,
                    old(self).width as int,
                    old(self).height as int,
                    old(self).framebuffer@.len() as int,
                    old(self).span_coloring,
                    old(self).background_col,
                    k,
                ),
    {
        assert(self.width as int * self.height as int <= 4294967295 * 4294967295) by (nonlinear_arith)
            requires
                self.width <= 4294967295u32,
                self.height <= 4294967295u32,
        ;
        if self.framebuffer.len() as u64 != (self.width as u64) * (self.height as u64) {
            return Err(RasterError::DimensionMismatch);
        }
        let ghost len = self.framebuffer@.len() as int;
        let ghost w = self.width as int;
        let ghost h = self.height as int;
        let bg = self.background_col;
        let mut i: usize = 0;
        while i < self.framebuffer.len()
            invariant
                self.framebuffer@.len() == len,
                self.width == w,
                self.height == h,
                self.background_col == bg,
                self.tris == old(self).tris,
                self.span_coloring == old(self).span_coloring,
                i <= len,
                forall|k: int| 0 <= k < i ==> #[trigger] self.framebuffer@[k] == bg,
            decreases len - i,
        {
            self.framebuffer.set(i, bg);
            i += 1;
        }
        let mut j: usize = 0;
        while j < self.tris.len()
            invariant
                self.framebuffer@.len() == len,
                self.width == w,
                self.height == h,
                self.background_col == bg,
                self.tris == old(self).tris,
                self.span_coloring == old(self).span_coloring,
                j <= self.tris@.len(),
                forall|k: int|
                    0 <= k < len ==> #[trigger] self.framebuffer@[k] == frame_pixel(
                        self.tris@.take(j as int),
                        w,
                        h,
                        len,
                        self.span_coloring,
                        bg,
                        k,
                    ),
            decreases self.tris@.len() - j,
        {
            let t = self.tris[j];
            proof {
                assert(self.tris@.take(j as int + 1).drop_last() =~= self.tris@.take(j as int));
                assert(self.tris@.take(j as int + 1).last() == t);
            }
            self.raster_tri(&t);
            j += 1;
        }
        assert(self.tris@.take(j as int) =~= self.tris@);
        Ok(())
    }

    /// The framebuffer as `0x00RRGGBB` words, ready to be presented.
    pub fn rgb_frame(&self) -> (words: Vec<u32>)
        ensures
            words@.len() == self.framebuffer@.len(),
            forall|i: int| 0 <= i < words@.len() ==> words@[i] == rgb_word(#[trigger] self.framebuffer@[i]),
    {
        framebuffer_to_rgb_words(&self.framebuffer)
    }
}

/// When triangle `b` is drawn after triangle `a`, every pixel that `b`
/// fills has `b`'s colour, whatever `a` did there.
pub proof fn lemma_later_triangle_wins(a: Triangle, b: Triangle, w: int, h: int, len: int, mode: SpanColoring, bg: Pixel, k: int)
    requires
        tri_covers(b, w, h, len, k),
    ensures
        frame_pixel(seq![a, b], w, h, len, mode, bg, k) == if tri_span_covers(b, w, h, len, 1, k) {
            span_color(mode, 1)
        } else {
            span_color(mode, 0)
        },
        mode == SpanColoring::Uniform ==> frame_pixel(seq![a, b], w, h, len, mode, bg, k) == blue(),
{
    assert(seq![a, b].last() == b);
    assert(seq![a, b].drop_last() =~= seq![a]);
}

} // verus!
