//! Colors, rectangles and the display traits drivers implement.

use vstd::prelude::*;

verus! {

/// A 24-bit color.
#[derive(Debug, Clone, Copy, PartialEq, Eq, Structural)]
pub struct Color {
    pub r: u8,
    pub g: u8,
    pub b: u8,
}

/// The value of channels packed as `0x00XXYYZZ`.
pub open spec fn packed(x: u8, y: u8, z: u8) -> int {
    x * 65536 + y * 256 + z
}

impl Color {
    pub fn new(r: u8, g: u8, b: u8) -> (c: Self)
        ensures
            c == (Color { r, g, b }),
    {
        Self { r, g, b }
    }

    /// Packed as `0x00RRGGBB`.
    pub fn to_rgb32(self) -> (v: u32)
        ensures
            v == packed(self.r, self.g, self.b),
    {
        let (r, g, b) = (self.r as u32, self.g as u32, self.b as u32);
        assert(((r << 16) | (g << 8) | b) == r * 65536 + g * 256 + b) by (bit_vector)
            requires r < 256, g < 256, b < 256;
        (r << 16) | (g << 8) | b
    }

    /// Packed as `0x00BBGGRR`.
    pub fn to_bgr32(self) -> (v: u32)
        ensures
            v == packed(self.b, self.g, self.r),
    {
        let (r, g, b) = (self.r as u32, self.g as u32, self.b as u32);
        assert(((b << 16) | (g << 8) | r) == b * 65536 + g * 256 + r) by (bit_vector)
            requires r < 256, g < 256, b < 256;
        (b << 16) | (g << 8) | r
    }

    /// The color in the low 24 bits of `0x??RRGGBB`.
    pub fn from_rgb32(val: u32) -> (c: Self)
        ensures
            c.r == (val / 65536) % 256,
            c.g == (val / 256) % 256,
            c.b == val % 256,
    {
        let r = #[verifier::truncate] ((val >> 16) as u8);
        let g = #[verifier::truncate] ((val >> 8) as u8);
        let b = #[verifier::truncate] (val as u8);
        assert(r == (val / 65536) % 256 && g == (val / 256) % 256 && b == val % 256) by (bit_vector)
            requires
                r == ((val >> 16) as u8),
                g == ((val >> 8) as u8),
                b == (val as u8);
        Self::new(r, g, b)
    }
}

/// Unpacking a packed color gives the color back.
pub proof fn lemma_rgb32_roundtrip(c: Color)
    ensures
        (packed(c.r, c.g, c.b) / 65536) % 256 == c.r,
        (packed(c.r, c.g, c.b) / 256) % 256 == c.g,
        packed(c.r, c.g, c.b) % 256 == c.b,
{
    let (r, g, b) = (c.r as int, c.g as int, c.b as int);
    assert((r * 65536 + g * 256 + b) / 65536 == r) by (nonlinear_arith)
        requires 0 <= r < 256, 0 <= g < 256, 0 <= b < 256;
    assert((r * 65536 + g * 256 + b) / 256 == r * 256 + g) by (nonlinear_arith)
        requires 0 <= r < 256, 0 <= g < 256, 0 <= b < 256;
    assert((r * 256 + g) % 256 == g) by (nonlinear_arith)
        requires 0 <= r < 256, 0 <= g < 256;
    assert((r * 65536 + g * 256 + b) % 256 == b) by (nonlinear_arith)
        requires 0 <= r < 256, 0 <= g < 256, 0 <= b < 256;
}

/// A rectangle of pixels.
#[derive(Debug, Clone, Copy, PartialEq, Eq, Structural)]
pub struct Rect {
    pub x: u32,
    pub y: u32,
    pub width: u32,
    pub height: u32,
}

/// A pixel display.
pub trait Display {
    fn width(&self) -> u32;
    fn height(&self) -> u32;
    fn draw_pixel(&mut self, x: u32, y: u32, color: Color);
    fn fill_rect(&mut self, rect: Rect, color: Color);
    fn flush(&mut self);

    /// Fill the whole display with one color.
    fn clear(&mut self, color: Color) {
        let rect = Rect { x: 0, y: 0, width: self.width(), height: self.height() };
        self.fill_rect(rect, color);
    }
}

/// A display that draws characters in 8-pixel cells.
pub trait TextDisplay: Display {
    fn draw_char(&mut self, x: u32, y: u32, c: char, color: Color);

    /// Draw a string left to right, one 8-pixel cell per character.
    fn draw_str(&mut self, x: u32, y: u32, s: &str, color: Color)
        requires
            x + 8 * s@.len() <= u32::MAX,
    {
        let n = s.unicode_len();
        let mut cx = x;
        let mut i: usize = 0;
        while i < n
            invariant
                i <= n,
                n == s@.len(),
                x + 8 * s@.len() <= u32::MAX,
                cx == x + 8 * i,
            decreases n - i,
        {
            let c = s.get_char(i);
            self.draw_char(cx, y, c, color);
            cx = cx + 8;
            i = i + 1;
        }
    }
}

/// A display backed by a linear framebuffer.
pub trait FramebufferDisplay: Display {
    fn framebuffer(&mut self) -> &mut [u32];
    fn stride(&self) -> usize;
}

} // verus!
