use vstd::prelude::*;

verus! {

/// A colour with 8-bit red, green, blue and alpha channels; a channel value
/// `v` stands for the intensity `v / 255`.
#[derive(Clone, Copy, Debug, PartialEq, Eq, Structural)]
pub struct Pixel {
    pub r: u8,
    pub g: u8,
    pub b: u8,
    pub a: u8,
}

impl Pixel {
    pub fn new(r: u8, g: u8, b: u8, a: u8) -> (p: Pixel)
        ensures
            p == (Pixel { r, g, b, a }),
    {
        Pixel { r, g, b, a }
    }
}

impl Default for Pixel {
    /// Transparent black.
    fn default() -> (p: Pixel)
        ensures
            p == (Pixel { r: 0, g: 0, b: 0, a: 0 }),
    {
        Pixel { r: 0, g: 0, b: 0, a: 0 }
    }
}

/// The 32-bit `0x00RRGGBB` word of a pixel, as a softbuffer surface takes it.
pub open spec fn rgb_word(p: Pixel) -> int {
    p.r as int * 65536 + p.g as int * 256 + p.b as int
}

/// Packs a pixel into a `0x00RRGGBB` word; alpha is dropped.
pub fn pixel_to_rgb_word(p: Pixel) -> (w: u32)
    ensures
        w == rgb_word(p),
{
    (p.r as u32) * 65536 + (p.g as u32) * 256 + (p.b as u32)
}

/// Packs a whole framebuffer, pixel by pixel, into `0x00RRGGBB` words.
pub fn framebuffer_to_rgb_words(fb: &Vec<Pixel>) -> (words: Vec<u32>)
    ensures
        words@.len() == fb@.len(),
        forall|i: int| 0 <= i < fb@.len() ==> words@[i] == rgb_word(#[trigger] fb@[i]),
{
    let mut words: Vec<u32> = Vec::with_capacity(fb.len());
    let mut i: usize = 0;
    while i < fb.len()
        invariant
            i <= fb@.len(),
            words@.len() == i,
            forall|j: int| 0 <= j < i ==> words@[j] == rgb_word(#[trigger] fb@[j]),
        decreases fb@.len() - i,
    {
        words.push(pixel_to_rgb_word(fb[i]));
        i += 1;
    }
    words
}

/// The bytes of a pixel in a 32-bit X11 image: blue, green, red, alpha.
pub open spec fn x_pixel(p: Pixel) -> Seq<u8> {
    seq![p.b, p.g, p.r, p.a]
}

/// A pixel in the byte order of a 32-bit X11 image.
pub fn pixel_to_x_pixel(p: Pixel) -> (xp: [u8; 4])
    ensures
        xp@ == x_pixel(p),
{
    let xp = [p.b, p.g, p.r, p.a];
    assert(xp@ =~= seq![p.b, p.g, p.r, p.a]);
    xp
}

} // verus!
