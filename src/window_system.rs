use vstd::prelude::*;

use vstd::arithmetic::div_mod::{
    lemma_div_is_ordered,
    lemma_div_multiples_vanish,
    lemma_fundamental_div_mod_converse,
    lemma_mod_pos_bound,
    lemma_multiply_divide_lt,
};
use crate::buffer::{resize_filled, resized};
use crate::pixel::{pixel_to_x_pixel, x_pixel, Pixel};

verus! {

/// The pixel side of an X11 window: the window's size and the image buffer,
/// in X11's byte order, that frames are copied into before being put on
/// screen. The connection and window handles stay with the caller.
pub struct X11 {
    pub x_framebuffer: Vec<[u8; 4]>,
    pub width: u32,
    pub height: u32,
}

impl X11 {
    /// The state of a freshly created `width` by `height` window, its image
    /// buffer all zero bytes.
    pub fn new(width: u32, height: u32) -> (x: X11)
        requires
            width as int * height as int <= usize::MAX,
        ensures
            x.width == width,
            x.height == height,
            x.x_framebuffer@.len() == width as int * height as int,
            forall|k: int| 0 <= k < x.x_framebuffer@.len() ==> (#[trigger] x.x_framebuffer@[k])@ == seq![0u8, 0u8, 0u8, 0u8],
    {
        assert(width as int * height as int <= 4294967295 * 4294967295) by (nonlinear_arith)
            requires
                width <= 4294967295u32,
                height <= 4294967295u32,
        ;
        let n: usize = ((width as u64) * (height as u64)) as usize;
        let mut x_framebuffer: Vec<[u8; 4]> = Vec::new();
        resize_filled(&mut x_framebuffer, n, [0u8, 0u8, 0u8, 0u8]);
        proof {
            assert forall|k: int| 0 <= k < x_framebuffer@.len() implies (#[trigger] x_framebuffer@[k])@ == seq![
                0u8,
                0u8,
                0u8,
                0u8,
            ] by {
                assert(x_framebuffer@[k]@ =~= seq![0u8, 0u8, 0u8, 0u8]);
            }
        }
        X11 { x_framebuffer, width, height }
    }

    pub fn get_win_w(&self) -> (w: u32)
        ensures
            w == self.width,
    {
        self.width
    }

    pub fn get_win_h(&self) -> (h: u32)
        ensures
            h == self.height,
    {
        self.height
    }

    /// Takes a configure event that reports the window at `width` by
    /// `height`. On a change of size the renderer's framebuffer and the image
    /// buffer are both cut or grown to `width * height` pixels, new ones
    /// transparent black, and the new size is kept; `true` is returned so the
    /// caller can clear the window and resize its image. Otherwise nothing
    /// changes and `false` is returned.
    pub fn handle_configure(&mut self, width: u32, height: u32, rend_framebuffer: &mut Vec<Pixel>) -> (changed: bool)
        requires
            width as int * height as int <= usize::MAX,
        ensures
            changed == (width != old(self).width || height != old(self).height),
            changed ==> final(self).width == width && final(self).height == height,
            changed ==> final(rend_framebuffer)@ == resized(
                old(rend_framebuffer)@,
                width as int * height as int,
                Pixel { r: 0, g: 0, b: 0, a: 0 },
            ),
            changed ==> final(self).x_framebuffer@.len() == width as int * height as int,
            changed ==> forall|k: int|
                0 <= k < final(self).x_framebuffer@.len() ==> #[trigger] final(self).x_framebuffer@[k] == if k
                    < old(self).x_framebuffer@.len() {
                    old(self).x_framebuffer@[k]
                } else {
                    [0u8, 0u8, 0u8, 0u8]
                },
            !changed ==> *final(self) == *old(self) && final(rend_framebuffer)@ == old(rend_framebuffer)@,
    {
        if width == self.width && height == self.height {
            return false;
        }
        assert(width as int * height as int <= 4294967295 * 4294967295) by (nonlinear_arith)
            requires
                width <= 4294967295u32,
                height <= 4294967295u32,
        ;
        let n: usize = ((width as u64) * (height as u64)) as usize;
        let blank = Pixel::default();
        resize_filled(rend_framebuffer, n, blank);
        let xp = pixel_to_x_pixel(blank);
        assert(xp@ =~= seq![0u8, 0u8, 0u8, 0u8]);
        assert(xp == [0u8, 0u8, 0u8, 0u8]) by {
            assert(xp@ =~= [0u8, 0u8, 0u8, 0u8]@);
        }
        resize_filled(&mut self.x_framebuffer, n, xp);
        self.width = width;
        self.height = height;
        true
    }

    /// Converts the renderer's framebuffer into the image buffer, pixel by
    /// pixel, as far as the shorter of the two goes.
    pub fn fill_x_framebuffer(&mut self, rend_framebuffer: &Vec<Pixel>)
        ensures
            final(self).width == old(self).width,
            final(self).height == old(self).height,
            final(self).x_framebuffer@.len() == old(self).x_framebuffer@.len(),
            forall|k: int|
                0 <= k < final(self).x_framebuffer@.len() ==> (#[trigger] final(self).x_framebuffer@[k])@ == if k
                    < rend_framebuffer@.len() {
                    x_pixel(rend_framebuffer@[k])
                } else {
                    old(self).x_framebuffer@[k]@
                },
    {
        let mut i: usize = 0;
        while i < self.x_framebuffer.len() && i < rend_framebuffer.len()
            invariant
                self.width == old(self).width,
                self.height == old(self).height,
                self.x_framebuffer@.len() == old(self).x_framebuffer@.len(),
                i <= self.x_framebuffer@.len(),
                i <= rend_framebuffer@.len(),
                forall|k: int|
                    0 <= k < self.x_framebuffer@.len() ==> (#[trigger] self.x_framebuffer@[k])@ == if k < i {
                        x_pixel(rend_framebuffer@[k])
                    } else {
                        old(self).x_framebuffer@[k]@
                    },
            decreases self.x_framebuffer@.len() - i,
        {
            let xp = pixel_to_x_pixel(rend_framebuffer[i]);
            self.x_framebuffer.set(i, xp);
            i += 1;
        }
    }
}

pub open spec fn min(a: int, b: int) -> int {
    if a <= b {
        a
    } else {
        b
    }
}

/// `n / d` of full intensity, rounded down.
pub open spec fn scaled(n: int, d: int) -> int {
    n * 255 / d
}

/// Channel `c` (blue, green, red, alpha) of the gradient at column `x`, row
/// `y` of a `w` by `h` image: red fades out to the right and downwards,
/// green to the left and downwards, blue to the right and upwards.
pub open spec fn gradient_channel(c: int, x: int, y: int, w: int, h: int) -> int {
    if c == 0 {
        min(scaled(w - x, w), scaled(y, h))
    } else if c == 1 {
        min(scaled(x, w), scaled(h - y, h))
    } else if c == 2 {
        min(scaled(w - x, w), scaled(h - y, h))
    } else {
        255
    }
}

/// Byte `i` of the gradient image, four bytes per pixel, rows top to bottom.
pub open spec fn gradient_byte(i: int, w: int, h: int) -> int {
    gradient_channel(i % 4, (i / 4) % w, (i / 4) / w, w, h)
}

fn scale_to_byte(n: u64, d: u64) -> (r: u8)
    requires
        0 < d <= u32::MAX,
        n <= d,
    ensures
        r == scaled(n as int, d as int),
{
    proof {
        assert(n * 255 <= d * 255) by (nonlinear_arith)
            requires
                n <= d,
        ;
        lemma_div_is_ordered(n * 255, d * 255, d as int);
        assert(d * 255 == d * 255int);
        lemma_div_multiples_vanish(255, d as int);
        lemma_div_is_ordered(0, n * 255, d as int);
    }
    (n * 255 / d) as u8
}

/// The startup image of a Wayland window: a `w` by `h` gradient in
/// blue, green, red, alpha byte order.
pub fn gradient_pattern(w: u32, h: u32) -> (bytes: Vec<u8>)
    requires
        4 * (w as int) * (h as int) <= usize::MAX,
    ensures
        bytes@.len() == 4 * (w as int) * (h as int),
        forall|i: int| 0 <= i < bytes@.len() ==> #[trigger] bytes@[i] == gradient_byte(i, w as int, h as int),
{
    assert(w as int * h as int <= 4294967295 * 4294967295) by (nonlinear_arith)
        requires
            w <= 4294967295u32,
            h <= 4294967295u32,
    ;
    let n: u64 = (w as u64) * (h as u64);
    let mut bytes: Vec<u8> = Vec::new();
    let mut p: u64 = 0;
    while p < n
        invariant
            n == w as int * h as int,
            p <= n,
            bytes@.len() == 4 * p,
            forall|i: int| 0 <= i < bytes@.len() ==> #[trigger] bytes@[i] == gradient_byte(i, w as int, h as int),
        decreases n - p,
    {
        assert(0 < w) by (nonlinear_arith)
            requires
                p < n,
                n == w as int * h as int,
                0 <= p,
        ;
        proof {
            lemma_mod_pos_bound(p as int, w as int);
            lemma_multiply_divide_lt(p as int, w as int, h as int);
            lemma_div_is_ordered(0, p as int, w as int);
        }
        let x: u64 = p % (w as u64);
        let y: u64 = p / (w as u64);
        let left = scale_to_byte((w as u64) - x, w as u64);
        let right = scale_to_byte(x, w as u64);
        assert(0 < h);
        let up = scale_to_byte((h as u64) - y, h as u64);
        let down = scale_to_byte(y, h as u64);
        let px: [u8; 4] = [
            if left <= down { left } else { down },
            if right <= up { right } else { up },
            if left <= up { left } else { up },
            255,
        ];
        let ghost before = bytes@;
        let mut c: usize = 0;
        while c < 4
            invariant
                c <= 4,
                bytes@.len() == 4 * p + c,
                bytes@.subrange(0, 4 * p) == before,
                before.len() == 4 * p,
                forall|i: int| 0 <= i < before.len() ==> #[trigger] before[i] == gradient_byte(i, w as int, h as int),
                forall|j: int| 0 <= j < c ==> #[trigger] bytes@[4 * p + j] == px@[j],
            decreases 4 - c,
        {
            bytes.push(px[c]);
            c += 1;
        }
        assert forall|i: int| 0 <= i < bytes@.len() implies #[trigger] bytes@[i] == gradient_byte(i, w as int, h as int) by {
            if i < 4 * p {
                assert(bytes@[i] == bytes@.subrange(0, 4 * p)[i]);
            } else {
                let j = i - 4 * p;
                assert(bytes@[4 * p + j] == px@[j]);
                lemma_fundamental_div_mod_converse(i, 4, p as int, j);
            }
        }
        p += 1;
    }
    assert(4 * (w as int) * (h as int) == 4 * (n as int)) by (nonlinear_arith)
        requires
            n == w as int * h as int,
    ;
    bytes
}

} // verus!
