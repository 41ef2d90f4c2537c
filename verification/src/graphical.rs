//! Framebuffer console: owns a raw pixel buffer described by a
//! firmware-style descriptor (width, height, stride, bytes per pixel,
//! pixel format), draws the four corner self-test blocks at startup,
//! and renders one line of text per `write` call with a monotonic
//! line cursor and per-pixel clipping against the content rectangle.

use vstd::prelude::*;
use vstd::arithmetic::div_mod::lemma_fundamental_div_mod_converse;

use noto_sans_mono_bitmap::{get_bitmap, BitmapHeight, FontWeight};

use crate::logger::Color;

verus! {

/// Pixel memory layouts the encoder knows. Layouts other than the
/// first three are encoded as `Rgb`.
#[derive(Clone, Copy, PartialEq, Eq, Structural, Debug)]
pub enum PixelFormat {
    Rgb,
    Bgr,
    U8,
    Unknown,
}

/// A framebuffer descriptor together with its backing byte buffer.
///
/// `stride` is the pixel count per row in memory and may exceed
/// `width`; the buffer holds `stride * height * bytes_per_pixel`
/// bytes for the run's duration.
pub struct Framebuffer {
    pub width: usize,
    pub height: usize,
    pub stride: usize,
    pub bytes_per_pixel: usize,
    pub format: PixelFormat,
    pub buffer: Vec<u8>,
}

/// The fixed margin, in pixels, kept clear around the log text.
pub const PADDING: usize = 10;

/// Vertical pixel distance between two log lines; also the glyph height.
pub const LINE_HEIGHT: usize = 14;

impl Framebuffer {
    /// A descriptor is well formed when the buffer length matches the
    /// geometry and a pixel takes between one and four bytes.
    pub open spec fn wf(self) -> bool {
        &&& self.width <= self.stride
        &&& 1 <= self.bytes_per_pixel <= 4
        &&& self.buffer@.len() == self.stride * self.height * self.bytes_per_pixel
    }

    /// Index of the first byte of the pixel at `(x, y)`.
    pub open spec fn pix_base(self, x: int, y: int) -> int {
        (y * self.stride + x) * self.bytes_per_pixel
    }

    /// `other` has the same geometry and format as `self`.
    pub open spec fn same_geometry(self, other: Framebuffer) -> bool {
        &&& self.width == other.width
        &&& self.height == other.height
        &&& self.stride == other.stride
        &&& self.bytes_per_pixel == other.bytes_per_pixel
        &&& self.format == other.format
    }

    /// The x coordinate of the pixel that buffer byte `i` belongs to.
    pub open spec fn byte_pixel_x(self, i: int) -> int {
        (i / self.bytes_per_pixel as int) % self.stride as int
    }

    /// The y coordinate of the pixel that buffer byte `i` belongs to.
    pub open spec fn byte_pixel_y(self, i: int) -> int {
        (i / self.bytes_per_pixel as int) / self.stride as int
    }

    /// The pixel at `(x, y)` holds exactly the encoding of `color`
    /// at `intensity` in this framebuffer's format.
    pub open spec fn pixel_is(self, x: int, y: int, color: Color, intensity: u8) -> bool {
        forall|k: int|
            0 <= k < self.bytes_per_pixel ==> self.buffer@[self.pix_base(x, y) + k]
                == pixel_byte(color, intensity, self.format, k)
    }
}

/// Red channel of a color.
pub open spec fn red_spec(c: Color) -> u8 {
    match c {
        Color::White => 0xc0,
        Color::Red => 0xff,
        Color::Green => 0x00,
        Color::Blue => 0x00,
        Color::Yellow => 0xff,
    }
}

/// Green channel of a color.
pub open spec fn green_spec(c: Color) -> u8 {
    match c {
        Color::White => 0xc0,
        Color::Red => 0x00,
        Color::Green => 0xff,
        Color::Blue => 0x00,
        Color::Yellow => 0xff,
    }
}

/// Blue channel of a color.
pub open spec fn blue_spec(c: Color) -> u8 {
    match c {
        Color::White => 0xc0,
        Color::Red => 0x00,
        Color::Green => 0x00,
        Color::Blue => 0xff,
        Color::Yellow => 0x00,
    }
}

/// Grayscale value of a color on a single-channel display.
pub open spec fn greyscale_spec(c: Color) -> u8 {
    match c {
        Color::White => 0xc0,
        Color::Red => 0xc0,
        Color::Green => 0xc0,
        Color::Blue => 0xc0,
        Color::Yellow => 0xc0,
    }
}

/// Byte `k` of the full-intensity encoding of `c` in format `f`.
/// Unsupported formats fall back to RGB.
pub open spec fn channel_byte(c: Color, f: PixelFormat, k: int) -> u8 {
    match f {
        PixelFormat::Bgr => if k == 0 {
            blue_spec(c)
        } else if k == 1 {
            green_spec(c)
        } else if k == 2 {
            red_spec(c)
        } else {
            0
        },
        PixelFormat::U8 => if k == 0 {
            greyscale_spec(c)
        } else {
            0
        },
        _ => if k == 0 {
            red_spec(c)
        } else if k == 1 {
            green_spec(c)
        } else if k == 2 {
            blue_spec(c)
        } else {
            0
        },
    }
}

/// A channel byte scaled by `intensity / 255`, rounding toward zero.
pub open spec fn scale_spec(channel: u8, intensity: u8) -> u8 {
    ((channel * intensity) / 255) as u8
}

/// Byte `k` of the encoding of `c` at `intensity` in format `f`.
pub open spec fn pixel_byte(c: Color, intensity: u8, f: PixelFormat, k: int) -> u8 {
    scale_spec(channel_byte(c, f, k), intensity)
}

impl Color {
    /// Red channel of this color.
    pub fn r(&self) -> (v: u8)
        ensures
            v == red_spec(*self),
    {
        match self {
            Color::White => 0xc0,
            Color::Red => 0xff,
            Color::Green => 0x00,
            Color::Blue => 0x00,
            Color::Yellow => 0xff,
        }
    }

    /// Green channel of this color.
    pub fn g(&self) -> (v: u8)
        ensures
            v == green_spec(*self),
    {
        match self {
            Color::White => 0xc0,
            Color::Red => 0x00,
            Color::Green => 0xff,
            Color::Blue => 0x00,
            Color::Yellow => 0xff,
        }
    }

    /// Blue channel of this color.
    pub fn b(&self) -> (v: u8)
        ensures
            v == blue_spec(*self),
    {
        match self {
            Color::White => 0xc0,
            Color::Red => 0x00,
            Color::Green => 0x00,
            Color::Blue => 0xff,
            Color::Yellow => 0x00,
        }
    }

    /// Grayscale value of this color.
    pub fn greyscale(&self) -> (v: u8)
        ensures
            v == greyscale_spec(*self),
    {
        match self {
            Color::White => 0xc0,
            Color::Red => 0xc0,
            Color::Green => 0xc0,
            Color::Blue => 0xc0,
            Color::Yellow => 0xc0,
        }
    }
}

/// At full intensity the encoding of a color is its exact channel
/// value in every byte, whatever the pixel format.
pub proof fn lemma_pixel_byte_full_intensity(c: Color, f: PixelFormat, k: int)
    ensures
        pixel_byte(c, 255, f, k) == channel_byte(c, f, k),
{
    let ch = channel_byte(c, f, k);
    assert((ch * 255) / 255 == ch) by (nonlinear_arith)
        requires
            0 <= ch,
    ;
}

/// At intensity zero the encoding of a color is all-zero bytes,
/// whatever the pixel format.
pub proof fn lemma_pixel_byte_zero_intensity(c: Color, f: PixelFormat, k: int)
    ensures
        pixel_byte(c, 0, f, k) == 0,
{
}

/// Scales one channel byte by `intensity / 255` with integer math.
fn scale(channel: u8, intensity: u8) -> (v: u8)
    ensures
        v == scale_spec(channel, intensity),
{
    proof {
        assert(channel * intensity <= 255 * 255) by (nonlinear_arith)
            requires
                channel <= 255,
                intensity <= 255,
        ;
        assert((channel * intensity) / 255 <= 255) by (nonlinear_arith)
            requires
                0 <= channel * intensity <= 255 * 255,
        ;
    }
    ((channel as u16 * intensity as u16) / 255) as u8
}

/// Encodes one pixel: byte `k` of the result is the `k`-th channel of
/// `color` in `format`, scaled by `intensity / 255`. The result has
/// exactly `bytes_per_pixel` bytes.
pub fn encode_pixel(color: Color, intensity: u8, format: PixelFormat, bytes_per_pixel: usize) -> (r:
    Vec<u8>)
    requires
        bytes_per_pixel <= 4,
    ensures
        r@.len() == bytes_per_pixel,
        forall|k: int| 0 <= k < bytes_per_pixel ==> r@[k] == pixel_byte(color, intensity, format, k),
{
    let channels: [u8; 4] = match format {
        PixelFormat::Rgb => [color.r(), color.g(), color.b(), 0],
        PixelFormat::Bgr => [color.b(), color.g(), color.r(), 0],
        PixelFormat::U8 => [color.greyscale(), 0, 0, 0],
        _ => [color.r(), color.g(), color.b(), 0],
    };
    let mut r: Vec<u8> = Vec::new();
    let mut k: usize = 0;
    while k < bytes_per_pixel
        invariant
            k <= bytes_per_pixel <= 4,
            r@.len() == k,
            forall|j: int| 0 <= j < 4 ==> channels[j] == channel_byte(color, format, j),
            forall|j: int| 0 <= j < k ==> r@[j] == pixel_byte(color, intensity, format, j),
        decreases bytes_per_pixel - k,
    {
        r.push(scale(channels[k], intensity));
        k = k + 1;
    }
    r
}

/// Writes the encoding of `color` at `intensity` into the pixel at
/// `(x, y)` and changes no other byte of the buffer.
pub fn set_pixel(fb: &mut Framebuffer, x: usize, y: usize, color: Color, intensity: u8)
    requires
        old(fb).wf(),
        x < old(fb).width,
        y < old(fb).height,
    ensures
        final(fb).wf(),
        final(fb).same_geometry(*old(fb)),
        final(fb).buffer@.len() == old(fb).buffer@.len(),
        forall|i: int|
            0 <= i < final(fb).buffer@.len() && !(old(fb).pix_base(x as int, y as int) <= i < old(
                fb,
            ).pix_base(x as int, y as int) + old(fb).bytes_per_pixel) ==> final(fb).buffer@[i]
                == old(fb).buffer@[i],
        final(fb).pixel_is(x as int, y as int, color, intensity),
{
    let len = fb.buffer.len();
    proof {
        let s = fb.stride as int;
        let h = fb.height as int;
        let b = fb.bytes_per_pixel as int;
        assert(y * s + x < s * h) by (nonlinear_arith)
            requires
                0 <= x < s,
                0 <= y < h,
        ;
        assert((y * s + x) * b + b <= s * h * b) by (nonlinear_arith)
            requires
                y * s + x < s * h,
                1 <= b,
        ;
        assert(0 <= y * s) by (nonlinear_arith)
            requires
                0 <= y,
                0 <= s,
        ;
        assert(y * s + x <= (y * s + x) * b) by (nonlinear_arith)
            requires
                0 <= y * s + x,
                1 <= b,
        ;
        assert(y * s <= y * s + x);
        assert((y * s + x) * b + b <= len);
    }
    let bytes = encode_pixel(color, intensity, fb.format, fb.bytes_per_pixel);
    let start = (fb.stride * y + x) * fb.bytes_per_pixel;
    let mut k: usize = 0;
    while k < bytes.len()
        invariant
            fb.wf(),
            fb.same_geometry(*old(fb)),
            fb.buffer@.len() == old(fb).buffer@.len(),
            bytes@.len() == fb.bytes_per_pixel,
            forall|j: int|
                0 <= j < fb.bytes_per_pixel ==> bytes@[j] == pixel_byte(
                    color,
                    intensity,
                    fb.format,
                    j,
                ),
            k <= bytes@.len(),
            start == old(fb).pix_base(x as int, y as int),
            start + fb.bytes_per_pixel <= fb.buffer@.len() <= usize::MAX,
            forall|i: int|
                0 <= i < fb.buffer@.len() && !(start <= i < start + k) ==> fb.buffer@[i] == old(
                    fb,
                ).buffer@[i],
            forall|j: int| 0 <= j < k ==> fb.buffer@[start + j] == bytes@[j],
        decreases bytes@.len() - k,
    {
        fb.buffer.set(start + k, bytes[k]);
        k = k + 1;
    }
    proof {
        assert forall|j: int|
            0 <= j < fb.bytes_per_pixel implies fb.buffer@[fb.pix_base(x as int, y as int) + j]
            == pixel_byte(color, intensity, fb.format, j) by {
            assert(fb.pix_base(x as int, y as int) == start);
            assert(fb.buffer@[start + j] == bytes@[j]);
        }
    }
}

/// Every byte of the pixel at `(x, y)` maps back to `(x, y)`.
pub proof fn lemma_byte_pixel(fb: Framebuffer, x: int, y: int, k: int)
    requires
        1 <= fb.bytes_per_pixel,
        0 <= x < fb.stride,
        0 <= y,
        0 <= k < fb.bytes_per_pixel,
    ensures
        fb.byte_pixel_x(fb.pix_base(x, y) + k) == x,
        fb.byte_pixel_y(fb.pix_base(x, y) + k) == y,
{
    let b = fb.bytes_per_pixel as int;
    let s = fb.stride as int;
    let p = y * s + x;
    lemma_fundamental_div_mod_converse(p * b + k, b, p, k);
    lemma_fundamental_div_mod_converse(p, s, y, x);
}

/// The byte ranges of two distinct pixels do not overlap.
pub proof fn lemma_pix_ranges_disjoint(fb: Framebuffer, x1: int, y1: int, x2: int, y2: int)
    requires
        1 <= fb.bytes_per_pixel,
        0 <= x1 < fb.stride,
        0 <= y1,
        0 <= x2 < fb.stride,
        0 <= y2,
        !(x1 == x2 && y1 == y2),
    ensures
        fb.pix_base(x1, y1) + fb.bytes_per_pixel <= fb.pix_base(x2, y2) || fb.pix_base(x2, y2)
            + fb.bytes_per_pixel <= fb.pix_base(x1, y1),
{
    let b = fb.bytes_per_pixel as int;
    let s = fb.stride as int;
    let p1 = y1 * s + x1;
    let p2 = y2 * s + x2;
    lemma_fundamental_div_mod_converse(p1, s, y1, x1);
    lemma_fundamental_div_mod_converse(p2, s, y2, x2);
    assert(p1 != p2);
    if p1 < p2 {
        assert(p1 * b + b <= p2 * b) by (nonlinear_arith)
            requires
                p1 + 1 <= p2,
                1 <= b,
        ;
    } else {
        assert(p2 * b + b <= p1 * b) by (nonlinear_arith)
            requires
                p2 + 1 <= p1,
                1 <= b,
        ;
    }
}

/// Turns the byte-range frame condition of one pixel write into a
/// coordinate frame condition, and carries every other pixel's value
/// across the write.
pub proof fn lemma_pixel_write_frame(pre: Framebuffer, post: Framebuffer, x: int, y: int)
    requires
        pre.wf(),
        post.wf(),
        post.same_geometry(pre),
        post.buffer@.len() == pre.buffer@.len(),
        0 <= x < pre.stride,
        0 <= y,
        forall|i: int|
            0 <= i < post.buffer@.len() && !(pre.pix_base(x, y) <= i < pre.pix_base(x, y)
                + pre.bytes_per_pixel) ==> post.buffer@[i] == pre.buffer@[i],
    ensures
        forall|i: int|
            #![trigger post.buffer@[i]]
            #![trigger pre.buffer@[i]]
            0 <= i < post.buffer@.len() && !(post.byte_pixel_x(i) == x && post.byte_pixel_y(i) == y)
                ==> post.buffer@[i] == pre.buffer@[i],
        forall|a: int, b: int, c: Color, it: u8|
            0 <= a < pre.stride && 0 <= b < pre.height && !(a == x && b == y)
                && #[trigger] pre.pixel_is(a, b, c, it) ==> post.pixel_is(a, b, c, it),
{
    assert forall|i: int|
        0 <= i < post.buffer@.len() && !(post.byte_pixel_x(i) == x && post.byte_pixel_y(i)
            == y) implies post.buffer@[i] == pre.buffer@[i] by {
        if pre.pix_base(x, y) <= i < pre.pix_base(x, y) + pre.bytes_per_pixel {
            lemma_byte_pixel(pre, x, y, i - pre.pix_base(x, y));
        }
    }
    assert forall|a: int, b: int, c: Color, it: u8|
        0 <= a < pre.stride && 0 <= b < pre.height && !(a == x && b == y) && #[trigger] pre.pixel_is(
            a,
            b,
            c,
            it,
        ) implies post.pixel_is(a, b, c, it) by {
        lemma_pix_ranges_disjoint(pre, a, b, x, y);
        let s = pre.stride as int;
        let h = pre.height as int;
        let bp = pre.bytes_per_pixel as int;
        assert((b * s + a) * bp + bp <= s * h * bp) by (nonlinear_arith)
            requires
                0 <= a < s,
                0 <= b < h,
                1 <= bp,
        ;
        assert(0 <= (b * s + a) * bp) by (nonlinear_arith)
            requires
                0 <= a,
                0 <= b,
                0 <= s,
                0 <= bp,
        ;
        assert forall|k: int|
            0 <= k < post.bytes_per_pixel implies post.buffer@[post.pix_base(a, b) + k]
            == pixel_byte(c, it, post.format, k) by {
            assert(post.buffer@[pre.pix_base(a, b) + k] == pre.buffer@[pre.pix_base(a, b) + k]);
        }
    }
}

/// Side length of the corner self-test squares: one fifth of the
/// smaller framebuffer dimension.
pub open spec fn corners_size_spec(fb: Framebuffer) -> int {
    if fb.width <= fb.height {
        fb.width as int / 5
    } else {
        fb.height as int / 5
    }
}

/// Side length of the corner self-test squares.
pub fn corners_size(fb: &Framebuffer) -> (s: usize)
    ensures
        s == corners_size_spec(*fb),
{
    if fb.width <= fb.height {
        fb.width / 5
    } else {
        fb.height / 5
    }
}

/// `(x, y)` lies in one of the four corner squares of side `size`.
pub open spec fn in_corner_blocks(fb: Framebuffer, size: int, x: int, y: int) -> bool {
    &&& (x < size || fb.width - size <= x)
    &&& (y < size || fb.height - size <= y)
}

/// Bounds of the corner square size that the drawing proofs use:
/// five squares fit across either dimension.
pub proof fn lemma_corners_size_bounds(fb: Framebuffer)
    ensures
        5 * corners_size_spec(fb) <= fb.width,
        5 * corners_size_spec(fb) <= fb.height,
        0 <= corners_size_spec(fb),
{
    assert(5 * (fb.width as int / 5) <= fb.width && 0 <= fb.width as int / 5) by (nonlinear_arith)
        requires
            0 <= fb.width,
    ;
    assert(5 * (fb.height as int / 5) <= fb.height && 0 <= fb.height as int / 5)
        by (nonlinear_arith)
        requires
            0 <= fb.height,
    ;
}

/// Sets every byte of the buffer to zero.
fn clear(fb: &mut Framebuffer)
    requires
        old(fb).wf(),
    ensures
        final(fb).wf(),
        final(fb).same_geometry(*old(fb)),
        final(fb).buffer@.len() == old(fb).buffer@.len(),
        forall|i: int| 0 <= i < final(fb).buffer@.len() ==> final(fb).buffer@[i] == 0,
{
    let n = fb.buffer.len();
    let mut i: usize = 0;
    while i < n
        invariant
            fb.wf(),
            fb.same_geometry(*old(fb)),
            fb.buffer@.len() == old(fb).buffer@.len(),
            n == fb.buffer@.len(),
            i <= n,
            forall|j: int| 0 <= j < i ==> fb.buffer@[j] == 0,
        decreases n - i,
    {
        fb.buffer.set(i, 0);
        i = i + 1;
    }
}

/// The four corner squares hold their final test colors: the pixels
/// covered by columns `[0, cx)` entirely, plus rows `[0, cy)` of
/// column `cx`.
pub open spec fn corners_drawn_upto(fb: Framebuffer, size: int, cx: int, cy: int) -> bool {
    forall|a: int, b: int|
        0 <= a < size && 0 <= b < size && (a < cx || (a == cx && b < cy)) ==> {
            &&& #[trigger] fb.pixel_is(a, b, Color::Red, 255)
            &&& fb.pixel_is(fb.width - a - 1, b, Color::Green, 255)
            &&& fb.pixel_is(a, fb.height - b - 1, Color::Blue, 255)
            &&& fb.pixel_is(fb.width - a - 1, fb.height - b - 1, Color::Yellow, 255)
        }
}

/// Writes one pixel of each corner square: `(x, y)` of the top-left
/// red square and its mirrored positions in the other three corners.
fn draw_corner_pixels(fb: &mut Framebuffer, x: usize, y: usize, size: usize)
    requires
        old(fb).wf(),
        x < size,
        y < size,
        5 * size <= old(fb).width,
        5 * size <= old(fb).height,
    ensures
        final(fb).wf(),
        final(fb).same_geometry(*old(fb)),
        final(fb).buffer@.len() == old(fb).buffer@.len(),
        forall|i: int|
            #![trigger final(fb).buffer@[i]]
            0 <= i < final(fb).buffer@.len() && !((final(fb).byte_pixel_x(i) == x
                || final(fb).byte_pixel_x(i) == old(fb).width - x - 1) && (final(fb).byte_pixel_y(i)
                == y || final(fb).byte_pixel_y(i) == old(fb).height - y - 1))
                ==> final(fb).buffer@[i] == old(fb).buffer@[i],
        final(fb).pixel_is(x as int, y as int, Color::Red, 255),
        final(fb).pixel_is(old(fb).width - x - 1, y as int, Color::Green, 255),
        final(fb).pixel_is(x as int, old(fb).height - y - 1, Color::Blue, 255),
        final(fb).pixel_is(old(fb).width - x - 1, old(fb).height - y - 1, Color::Yellow, 255),
        forall|a: int, b: int, c: Color, it: u8|
            0 <= a < old(fb).stride && 0 <= b < old(fb).height && !((a == x || a == old(fb).width
                - x - 1) && (b == y || b == old(fb).height - y - 1)) && #[trigger] old(fb).pixel_is(
                a,
                b,
                c,
                it,
            ) ==> final(fb).pixel_is(a, b, c, it),
{
    let width = fb.width;
    let height = fb.height;
    let gx = width - x - 1;
    let gy = height - y - 1;
    let ghost pre0 = *fb;
    set_pixel(fb, x, y, Color::Red, 255);
    proof {
        lemma_pixel_write_frame(pre0, *fb, x as int, y as int);
    }
    let ghost pre1 = *fb;
    set_pixel(fb, gx, y, Color::Green, 255);
    proof {
        lemma_pixel_write_frame(pre1, *fb, gx as int, y as int);
    }
    let ghost pre2 = *fb;
    set_pixel(fb, x, gy, Color::Blue, 255);
    proof {
        lemma_pixel_write_frame(pre2, *fb, x as int, gy as int);
    }
    let ghost pre3 = *fb;
    set_pixel(fb, gx, gy, Color::Yellow, 255);
    proof {
        lemma_pixel_write_frame(pre3, *fb, gx as int, gy as int);
        assert forall|i: int|
            0 <= i < fb.buffer@.len() && !((fb.byte_pixel_x(i) == x || fb.byte_pixel_x(i) == width
                - x - 1) && (fb.byte_pixel_y(i) == y || fb.byte_pixel_y(i) == height - y
                - 1)) implies fb.buffer@[i] == pre0.buffer@[i] by {
            assert(fb.buffer@[i] == pre3.buffer@[i]);
            assert(pre3.buffer@[i] == pre2.buffer@[i]);
            assert(pre2.buffer@[i] == pre1.buffer@[i]);
            assert(pre1.buffer@[i] == pre0.buffer@[i]);
        }
    }
}

/// Draws the four solid corner squares: top-left red, top-right
/// green, bottom-left blue, bottom-right yellow, each of side
/// `corners_size_spec`. No byte outside the squares changes.
pub fn draw_test_colors(fb: &mut Framebuffer)
    requires
        old(fb).wf(),
    ensures
        final(fb).wf(),
        final(fb).same_geometry(*old(fb)),
        final(fb).buffer@.len() == old(fb).buffer@.len(),
        forall|i: int|
            0 <= i < final(fb).buffer@.len() && !in_corner_blocks(
                *old(fb),
                corners_size_spec(*old(fb)),
                final(fb).byte_pixel_x(i),
                final(fb).byte_pixel_y(i),
            ) ==> final(fb).buffer@[i] == old(fb).buffer@[i],
        corners_drawn_upto(
            *final(fb),
            corners_size_spec(*old(fb)),
            corners_size_spec(*old(fb)),
            0,
        ),
{
    let size = corners_size(fb);
    proof {
        lemma_corners_size_bounds(*fb);
    }
    let width = fb.width;
    let height = fb.height;
    let mut x: usize = 0;
    while x < size
        invariant
            fb.wf(),
            fb.same_geometry(*old(fb)),
            fb.buffer@.len() == old(fb).buffer@.len(),
            width == fb.width,
            height == fb.height,
            size == corners_size_spec(*old(fb)),
            5 * size <= width,
            5 * size <= height,
            x <= size,
            forall|i: int|
                0 <= i < fb.buffer@.len() && !in_corner_blocks(
                    *old(fb),
                    size as int,
                    fb.byte_pixel_x(i),
                    fb.byte_pixel_y(i),
                ) ==> fb.buffer@[i] == old(fb).buffer@[i],
            corners_drawn_upto(*fb, size as int, x as int, 0),
        decreases size - x,
    {
        let mut y: usize = 0;
        while y < size
            invariant
                fb.wf(),
                fb.same_geometry(*old(fb)),
                fb.buffer@.len() == old(fb).buffer@.len(),
                width == fb.width,
                height == fb.height,
                size == corners_size_spec(*old(fb)),
                5 * size <= width,
                5 * size <= height,
                x < size,
                y <= size,
                forall|i: int|
                    0 <= i < fb.buffer@.len() && !in_corner_blocks(
                        *old(fb),
                        size as int,
                        fb.byte_pixel_x(i),
                        fb.byte_pixel_y(i),
                    ) ==> fb.buffer@[i] == old(fb).buffer@[i],
                corners_drawn_upto(*fb, size as int, x as int, y as int),
            decreases size - y,
        {
            let ghost pre = *fb;
            draw_corner_pixels(fb, x, y, size);
            proof {
                assert forall|a: int, b: int|
                    0 <= a < size && 0 <= b < size && (a < x || (a == x && b < y + 1)) implies {
                    &&& #[trigger] fb.pixel_is(a, b, Color::Red, 255)
                    &&& fb.pixel_is(fb.width - a - 1, b, Color::Green, 255)
                    &&& fb.pixel_is(a, fb.height - b - 1, Color::Blue, 255)
                    &&& fb.pixel_is(fb.width - a - 1, fb.height - b - 1, Color::Yellow, 255)
                } by {
                    if a == x && b == y {
                    } else {
                        assert(pre.pixel_is(a, b, Color::Red, 255));
                        assert(pre.pixel_is(pre.width - a - 1, b, Color::Green, 255));
                        assert(pre.pixel_is(a, pre.height - b - 1, Color::Blue, 255));
                        assert(pre.pixel_is(
                            pre.width - a - 1,
                            pre.height - b - 1,
                            Color::Yellow,
                            255,
                        ));
                    }
                }
                assert(corners_drawn_upto(*fb, size as int, x as int, y + 1));
            }
            y = y + 1;
        }
        proof {
            assert forall|a: int, b: int|
                0 <= a < size && 0 <= b < size && (a < x + 1 || (a == x + 1 && b < 0)) implies {
                &&& #[trigger] fb.pixel_is(a, b, Color::Red, 255)
                &&& fb.pixel_is(fb.width - a - 1, b, Color::Green, 255)
                &&& fb.pixel_is(a, fb.height - b - 1, Color::Blue, 255)
                &&& fb.pixel_is(fb.width - a - 1, fb.height - b - 1, Color::Yellow, 255)
            } by {
                assert(a < x || (a == x && b < size));
            }
            assert(corners_drawn_upto(*fb, size as int, x + 1, 0));
        }
        x = x + 1;
    }
}

/// Left edge of the content rectangle that log text may touch.
pub open spec fn content_left(fb: Framebuffer) -> int {
    corners_size_spec(fb) + PADDING
}

/// Right edge (inclusive) of the content rectangle.
pub open spec fn content_right(fb: Framebuffer) -> int {
    fb.width - corners_size_spec(fb) - PADDING - 1
}

/// Top edge of the content rectangle.
pub open spec fn content_top(fb: Framebuffer) -> int {
    PADDING as int
}

/// Bottom edge (inclusive) of the content rectangle.
pub open spec fn content_bottom(fb: Framebuffer) -> int {
    fb.height - PADDING - 1
}

/// Buffer byte `i` belongs to a pixel inside the content rectangle.
pub open spec fn content_byte(fb: Framebuffer, i: int) -> bool {
    &&& content_left(fb) <= fb.byte_pixel_x(i) <= content_right(fb)
    &&& content_top(fb) <= fb.byte_pixel_y(i) <= content_bottom(fb)
}

/// The framebuffer console: the buffer it owns, whether a display is
/// present at all, and the monotonic line cursor.
pub struct Console {
    pub framebuffer: Framebuffer,
    pub present: bool,
    pub line_y: usize,
}

impl Console {
    pub open spec fn wf(self) -> bool {
        self.framebuffer.wf()
    }
}

/// What `init_framebuffer` establishes: without a framebuffer the
/// console is a permanent no-op sink; with one, the buffer is zeroed
/// except for the four corner test squares, which hold their colors.
pub open spec fn init_post(framebuffer: Option<Framebuffer>, c: Console) -> bool {
    &&& c.wf()
    &&& c.line_y == 0
    &&& match framebuffer {
        Option::None => !c.present && c.framebuffer.buffer@.len() == 0,
        Option::Some(fb) => {
            &&& c.present
            &&& c.framebuffer.same_geometry(fb)
            &&& c.framebuffer.buffer@.len() == fb.buffer@.len()
            &&& forall|i: int|
                #![trigger c.framebuffer.buffer@[i]]
                0 <= i < c.framebuffer.buffer@.len() && !in_corner_blocks(
                    fb,
                    corners_size_spec(fb),
                    c.framebuffer.byte_pixel_x(i),
                    c.framebuffer.byte_pixel_y(i),
                ) ==> c.framebuffer.buffer@[i] == 0
            &&& corners_drawn_upto(
                c.framebuffer,
                corners_size_spec(fb),
                corners_size_spec(fb),
                0,
            )
        },
    }
}

/// Creates the console. With a framebuffer: zero-fill, then draw the
/// four corner self-test squares. Without one: a permanent no-op sink.
pub fn init_framebuffer(framebuffer: Option<Framebuffer>) -> (c: Console)
    requires
        framebuffer matches Some(fb) ==> fb.wf(),
    ensures
        init_post(framebuffer, c),
{
    match framebuffer {
        Option::None => Console {
            framebuffer: Framebuffer {
                width: 0,
                height: 0,
                stride: 0,
                bytes_per_pixel: 1,
                format: PixelFormat::Rgb,
                buffer: Vec::new(),
            },
            present: false,
            line_y: 0,
        },
        Option::Some(mut fb) => {
            clear(&mut fb);
            draw_test_colors(&mut fb);
            Console { framebuffer: fb, present: true, line_y: 0 }
        },
    }
}

/// After initialization with a framebuffer large enough for corner
/// squares of at least one pixel, the four extreme corner pixels hold
/// pure red, green, blue and yellow, in the active pixel format.
pub proof fn lemma_corner_pixels(framebuffer: Option<Framebuffer>, c: Console)
    requires
        init_post(framebuffer, c),
        framebuffer matches Some(fb) && corners_size_spec(fb) >= 1,
    ensures
        c.framebuffer.pixel_is(0, 0, Color::Red, 255),
        c.framebuffer.pixel_is(framebuffer.unwrap().width - 1, 0, Color::Green, 255),
        c.framebuffer.pixel_is(0, framebuffer.unwrap().height - 1, Color::Blue, 255),
        c.framebuffer.pixel_is(
            framebuffer.unwrap().width - 1,
            framebuffer.unwrap().height - 1,
            Color::Yellow,
            255,
        ),
{
    let fb = framebuffer.unwrap();
    let size = corners_size_spec(fb);
    assert(corners_drawn_upto(c.framebuffer, size, size, 0));
    assert(0 <= 0 < size && 0 < size);
    assert(c.framebuffer.pixel_is(0, 0, Color::Red, 255));
    assert(c.framebuffer.pixel_is(c.framebuffer.width - 0 - 1, 0, Color::Green, 255));
    assert(c.framebuffer.pixel_is(0, c.framebuffer.height - 0 - 1, Color::Blue, 255));
    assert(c.framebuffer.pixel_is(
        c.framebuffer.width - 0 - 1,
        c.framebuffer.height - 0 - 1,
        Color::Yellow,
        255,
    ));
}

/// The intensity matrix of the size-14 glyph that the font renders
/// for a character (the `'?'` glyph for characters the font lacks).
pub uninterp spec fn glyph_of(c: char) -> Seq<Seq<u8>>;

/// Relies on `noto_sans_mono_bitmap::get_bitmap` with regular weight
/// and bitmap height 14: the glyph depends on the character alone;
/// every glyph of that raster is 14 rows of 8 intensity bytes; for a
/// character the font lacks, the `'?'` glyph (which the font
/// contains) is returned instead.
#[verifier::external_body]
fn glyph_rows(c: char) -> (rows: Vec<Vec<u8>>)
    ensures
        rows@.map_values(|row: Vec<u8>| row@) == glyph_of(c),
        rows@.len() == 14,
        forall|r: int| 0 <= r < rows@.len() ==> (#[trigger] rows@[r])@.len() == 8,
{
    let bitmap = get_bitmap(c, FontWeight::Regular, BitmapHeight::Size14).unwrap_or_else(
        || get_bitmap('?', FontWeight::Regular, BitmapHeight::Size14).unwrap(),
    );
    bitmap.bitmap().iter().map(|row| row.to_vec()).collect()
}

/// Blits one glyph with its top-left corner at `(x0, y0)`, writing a
/// pixel only where it falls inside the clipping rectangle
/// `[left, right] x [top, bottom]`. Returns the pen advance.
fn write_char(
    fb: &mut Framebuffer,
    x0: usize,
    y0: usize,
    c: char,
    color: Color,
    left: usize,
    top: usize,
    right: usize,
    bottom: usize,
) -> (adv: usize)
    requires
        old(fb).wf(),
        right < old(fb).width,
        bottom < old(fb).height,
    ensures
        final(fb).wf(),
        final(fb).same_geometry(*old(fb)),
        final(fb).buffer@.len() == old(fb).buffer@.len(),
        forall|i: int|
            #![trigger final(fb).buffer@[i]]
            0 <= i < final(fb).buffer@.len() && !(x0 <= final(fb).byte_pixel_x(i) < x0 + 8 && y0
                <= final(fb).byte_pixel_y(i) < y0 + 14 && left <= final(fb).byte_pixel_x(i) <= right
                && top <= final(fb).byte_pixel_y(i) <= bottom) ==> final(fb).buffer@[i] == old(
                fb,
            ).buffer@[i],
        forall|r: int, col: int|
            #![trigger glyph_of(c)[r][col]]
            0 <= r < 14 && 0 <= col < 8 && left <= x0 + col <= right && top <= y0 + r <= bottom
                ==> final(fb).pixel_is(x0 + col, y0 + r, color, glyph_of(c)[r][col]),
        adv == 8,
{
    let rows = glyph_rows(c);
    let mut r: usize = 0;
    while r < rows.len()
        invariant
            fb.wf(),
            fb.same_geometry(*old(fb)),
            fb.buffer@.len() == old(fb).buffer@.len(),
            right < fb.width,
            bottom < fb.height,
            rows@.len() == 14,
            forall|j: int| 0 <= j < rows@.len() ==> (#[trigger] rows@[j])@.len() == 8,
            rows@.map_values(|row: Vec<u8>| row@) == glyph_of(c),
            r <= rows@.len(),
            forall|i: int|
                #![trigger fb.buffer@[i]]
                0 <= i < fb.buffer@.len() && !(x0 <= fb.byte_pixel_x(i) < x0 + 8 && y0
                    <= fb.byte_pixel_y(i) < y0 + 14 && left <= fb.byte_pixel_x(i) <= right && top
                    <= fb.byte_pixel_y(i) <= bottom) ==> fb.buffer@[i] == old(fb).buffer@[i],
            forall|r2: int, col2: int|
                #![trigger glyph_of(c)[r2][col2]]
                0 <= r2 < r && 0 <= col2 < 8 && left <= x0 + col2 <= right && top <= y0 + r2
                    <= bottom ==> fb.pixel_is(x0 + col2, y0 + r2, color, glyph_of(c)[r2][col2]),
        decreases rows@.len() - r,
    {
        let row = &rows[r];
        let mut col: usize = 0;
        while col < row.len()
            invariant
                fb.wf(),
                fb.same_geometry(*old(fb)),
                fb.buffer@.len() == old(fb).buffer@.len(),
                right < fb.width,
                bottom < fb.height,
                rows@.len() == 14,
                r < 14,
                row@ == rows@[r as int]@,
                row@.len() == 8,
                rows@.map_values(|row2: Vec<u8>| row2@) == glyph_of(c),
                col <= row@.len(),
                forall|i: int|
                    #![trigger fb.buffer@[i]]
                    0 <= i < fb.buffer@.len() && !(x0 <= fb.byte_pixel_x(i) < x0 + 8 && y0
                        <= fb.byte_pixel_y(i) < y0 + 14 && left <= fb.byte_pixel_x(i) <= right
                        && top <= fb.byte_pixel_y(i) <= bottom) ==> fb.buffer@[i] == old(
                        fb,
                    ).buffer@[i],
                forall|r2: int, col2: int|
                    #![trigger glyph_of(c)[r2][col2]]
                    0 <= r2 < 14 && 0 <= col2 < 8 && (r2 < r || (r2 == r && col2 < col)) && left
                        <= x0 + col2 <= right && top <= y0 + r2 <= bottom ==> fb.pixel_is(
                        x0 + col2,
                        y0 + r2,
                        color,
                        glyph_of(c)[r2][col2],
                    ),
            decreases row@.len() - col,
        {
            let intensity = row[col];
            proof {
                assert(glyph_of(c)[r as int] == rows@[r as int]@);
                assert(intensity == glyph_of(c)[r as int][col as int]);
            }
            if let Some(px) = x0.checked_add(col) {
                if let Some(py) = y0.checked_add(r) {
                    if left <= px && px <= right && top <= py && py <= bottom {
                        let ghost prev = *fb;
                        set_pixel(fb, px, py, color, intensity);
                        proof {
                            lemma_pixel_write_frame(prev, *fb, px as int, py as int);
                            assert forall|i: int|
                                0 <= i < fb.buffer@.len() && !(x0 <= fb.byte_pixel_x(i) < x0 + 8
                                    && y0 <= fb.byte_pixel_y(i) < y0 + 14 && left
                                    <= fb.byte_pixel_x(i) <= right && top <= fb.byte_pixel_y(i)
                                    <= bottom) implies #[trigger] fb.buffer@[i] == old(
                                fb,
                            ).buffer@[i] by {
                                assert(fb.buffer@[i] == prev.buffer@[i]);
                            }
                            assert forall|r2: int, col2: int|
                                0 <= r2 < 14 && 0 <= col2 < 8 && (r2 < r || (r2 == r && col2 < col
                                    + 1)) && left <= x0 + col2 <= right && top <= y0 + r2
                                    <= bottom implies fb.pixel_is(
                                x0 + col2,
                                y0 + r2,
                                color,
                                #[trigger] glyph_of(c)[r2][col2],
                            ) by {
                                if r2 == r && col2 == col {
                                } else {
                                    assert(prev.pixel_is(
                                        x0 + col2,
                                        y0 + r2,
                                        color,
                                        glyph_of(c)[r2][col2],
                                    ));
                                }
                            }
                        }
                    }
                }
            }
            col = col + 1;
        }
        r = r + 1;
    }
    let row0 = &rows[0];
    row0.len()
}

/// Pen x position before glyph `i` of a line: the pen starts at
/// `left` and advances one glyph width per drawn character; a
/// character is drawn only while the pen is more than one glyph
/// height short of the right framebuffer edge.
pub open spec fn pen_at(i: int, left: int, width: int) -> int
    decreases i,
{
    if i <= 0 {
        left
    } else if pen_at(i - 1, left, width) + 14 < width {
        pen_at(i - 1, left, width) + 8
    } else {
        pen_at(i - 1, left, width)
    }
}

/// Character `i` of a line is rendered rather than dropped at the
/// boundary.
pub open spec fn char_drawn(i: int, left: int, width: int) -> bool {
    pen_at(i, left, width) + 14 < width
}

/// Byte `b` lies under the glyph box whose top-left pixel is
/// `(x0, y0)`.
pub open spec fn under_glyph(fb: Framebuffer, x0: int, y0: int, b: int) -> bool {
    x0 <= fb.byte_pixel_x(b) < x0 + 8 && y0 <= fb.byte_pixel_y(b) < y0 + 14
}

/// Byte `b` lies under some glyph that a `write` call of an
/// `n`-character line starting at pixel row `y0` renders.
pub open spec fn covered(fb: Framebuffer, n: int, y0: int, b: int) -> bool {
    exists|i: int|
        0 <= i < n && #[trigger] char_drawn(i, content_left(fb), fb.width as int) && under_glyph(
            fb,
            pen_at(i, content_left(fb), fb.width as int),
            y0,
            b,
        )
}

/// The pixel row where a `write` call starting at line cursor
/// `line_y` puts the glyph tops.
pub open spec fn start_row(line_y: usize) -> int {
    if line_y + PADDING <= usize::MAX {
        line_y + PADDING
    } else {
        usize::MAX as int
    }
}

/// The content rectangle has at least one pixel.
pub open spec fn content_nonempty(fb: Framebuffer) -> bool {
    content_top(fb) <= content_bottom(fb) && content_left(fb) <= content_right(fb)
}

/// What one `write` call renders: every drawn glyph pixel that falls
/// inside the content rectangle holds the line's color at that glyph
/// pixel's intensity, and every byte not under a drawn glyph keeps
/// its previous value.
pub open spec fn rendered_line(
    pre: Framebuffer,
    post: Framebuffer,
    s: Seq<char>,
    color: Color,
    y0: int,
) -> bool {
    let left = content_left(pre);
    let width = pre.width as int;
    &&& forall|i: int, r: int, col: int|
        #![trigger glyph_of(s[i])[r][col]]
        0 <= i < s.len() && 0 <= r < 14 && 0 <= col < 8 && char_drawn(i, left, width) && left
            <= pen_at(i, left, width) + col <= content_right(pre) && content_top(pre) <= y0 + r
            <= content_bottom(pre) ==> post.pixel_is(
            pen_at(i, left, width) + col,
            y0 + r,
            color,
            glyph_of(s[i])[r][col],
        )
    &&& forall|b: int|
        #![trigger post.buffer@[b]]
        0 <= b < post.buffer@.len() && !covered(pre, s.len() as int, y0, b) ==> post.buffer@[b]
            == pre.buffer@[b]
}

/// Turns the byte-level frame condition of one glyph write into
/// preservation of every pixel outside the glyph box.
pub proof fn lemma_box_write_frame(pre: Framebuffer, post: Framebuffer, x0: int, y0: int)
    requires
        pre.wf(),
        post.wf(),
        post.same_geometry(pre),
        post.buffer@.len() == pre.buffer@.len(),
        forall|b: int|
            #![trigger post.buffer@[b]]
            0 <= b < post.buffer@.len() && !(x0 <= pre.byte_pixel_x(b) < x0 + 8 && y0
                <= pre.byte_pixel_y(b) < y0 + 14) ==> post.buffer@[b] == pre.buffer@[b],
    ensures
        forall|a: int, bb: int, c: Color, it: u8|
            0 <= a < pre.stride && 0 <= bb < pre.height && !(x0 <= a < x0 + 8 && y0 <= bb < y0 + 14)
                && #[trigger] pre.pixel_is(a, bb, c, it) ==> post.pixel_is(a, bb, c, it),
{
    assert forall|a: int, bb: int, c: Color, it: u8|
        0 <= a < pre.stride && 0 <= bb < pre.height && !(x0 <= a < x0 + 8 && y0 <= bb < y0 + 14)
            && #[trigger] pre.pixel_is(a, bb, c, it) implies post.pixel_is(a, bb, c, it) by {
        let s = pre.stride as int;
        let h = pre.height as int;
        let bp = pre.bytes_per_pixel as int;
        assert((bb * s + a) * bp + bp <= s * h * bp) by (nonlinear_arith)
            requires
                0 <= a < s,
                0 <= bb < h,
                1 <= bp,
        ;
        assert(0 <= (bb * s + a) * bp) by (nonlinear_arith)
            requires
                0 <= a,
                0 <= bb,
                0 <= s,
                0 <= bp,
        ;
        assert forall|k: int|
            0 <= k < post.bytes_per_pixel implies post.buffer@[post.pix_base(a, bb) + k]
            == pixel_byte(c, it, post.format, k) by {
            lemma_byte_pixel(pre, a, bb, k);
            assert(post.buffer@[pre.pix_base(a, bb) + k] == pre.buffer@[pre.pix_base(a, bb) + k]);
        }
    }
}

/// The line cursor after one `write` call.
pub open spec fn advanced_line(line_y: usize) -> int {
    if line_y + LINE_HEIGHT <= usize::MAX {
        line_y + LINE_HEIGHT
    } else {
        usize::MAX as int
    }
}

/// What one `write` call does to the console: the geometry is kept,
/// no byte outside the content rectangle changes, the line cursor
/// advances exactly when a framebuffer is present, and a console
/// without a framebuffer does not change at all.
pub open spec fn write_post(pre: Console, post: Console) -> bool {
    &&& post.framebuffer.same_geometry(pre.framebuffer)
    &&& post.framebuffer.buffer@.len() == pre.framebuffer.buffer@.len()
    &&& post.present == pre.present
    &&& (!pre.present ==> post == pre)
    &&& (pre.present ==> post.line_y == advanced_line(pre.line_y))
    &&& forall|i: int|
        #![trigger post.framebuffer.buffer@[i]]
        0 <= i < pre.framebuffer.buffer@.len() && !content_byte(pre.framebuffer, i)
            ==> post.framebuffer.buffer@[i] == pre.framebuffer.buffer@[i]
}

impl Console {
    /// Renders one line of text at the current cursor, then advances
    /// the cursor by one line height. Characters that would cross the
    /// right margin are dropped; every pixel is clipped to the
    /// content rectangle, so no byte outside it ever changes. Without
    /// a framebuffer the call is a no-op.
    pub fn write(&mut self, s: &str, color: Color)
        requires
            old(self).wf(),
        ensures
            final(self).wf(),
            write_post(*old(self), *final(self)),
            old(self).present && content_nonempty(old(self).framebuffer) ==> rendered_line(
                old(self).framebuffer,
                final(self).framebuffer,
                s@,
                color,
                start_row(old(self).line_y),
            ),
    {
        if !self.present {
            return ;
        }
        let y0 = self.line_y.saturating_add(PADDING);
        self.line_y = self.line_y.saturating_add(LINE_HEIGHT);
        let cs = corners_size(&self.framebuffer);
        proof {
            lemma_corners_size_bounds(self.framebuffer);
        }
        let width = self.framebuffer.width;
        let height = self.framebuffer.height;
        if height < 2 * PADDING + 1 || width < 2 * cs + 2 * PADDING + 1 {
            return ;
        }
        let top = PADDING;
        let bottom = height - PADDING - 1;
        let left = cs + PADDING;
        let right = width - cs - PADDING - 1;
        let n = s.unicode_len();
        let mut i: usize = 0;
        let mut x = left;
        while i < n
            invariant
                self.framebuffer.wf(),
                self.framebuffer.same_geometry(old(self).framebuffer),
                self.framebuffer.buffer@.len() == old(self).framebuffer.buffer@.len(),
                self.present == old(self).present,
                self.line_y == advanced_line(old(self).line_y),
                width == self.framebuffer.width,
                height == self.framebuffer.height,
                left == content_left(old(self).framebuffer),
                right == content_right(old(self).framebuffer),
                top == content_top(old(self).framebuffer),
                bottom == content_bottom(old(self).framebuffer),
                right < width,
                bottom < height,
                n == s@.len(),
                i <= n,
                y0 == start_row(old(self).line_y),
                x == pen_at(i as int, left as int, width as int),
                forall|j: int|
                    0 <= j < i && #[trigger] char_drawn(j, left as int, width as int) ==> pen_at(
                        j,
                        left as int,
                        width as int,
                    ) + 8 <= x,
                forall|j: int|
                    #![trigger self.framebuffer.buffer@[j]]
                    0 <= j < old(self).framebuffer.buffer@.len() && !content_byte(
                        old(self).framebuffer,
                        j,
                    ) ==> self.framebuffer.buffer@[j] == old(self).framebuffer.buffer@[j],
                forall|j: int, r: int, col: int|
                    #![trigger glyph_of(s@[j])[r][col]]
                    0 <= j < i && 0 <= r < 14 && 0 <= col < 8 && char_drawn(
                        j,
                        left as int,
                        width as int,
                    ) && left <= pen_at(j, left as int, width as int) + col <= right && top <= y0
                        + r <= bottom ==> self.framebuffer.pixel_is(
                        pen_at(j, left as int, width as int) + col,
                        y0 + r,
                        color,
                        glyph_of(s@[j])[r][col],
                    ),
                forall|b: int|
                    #![trigger self.framebuffer.buffer@[b]]
                    0 <= b < old(self).framebuffer.buffer@.len() && !covered(
                        old(self).framebuffer,
                        n as int,
                        y0 as int,
                        b,
                    ) ==> self.framebuffer.buffer@[b] == old(self).framebuffer.buffer@[b],
            decreases n - i,
        {
            let c = s.get_char(i);
            if x < width && width - x > 14 {
                let ghost pre_fb = self.framebuffer;
                let adv = write_char(
                    &mut self.framebuffer,
                    x,
                    y0,
                    c,
                    color,
                    left,
                    top,
                    right,
                    bottom,
                );
                proof {
                    assert(char_drawn(i as int, left as int, width as int));
                    assert forall|b: int|
                        0 <= b < self.framebuffer.buffer@.len() && !(x <= pre_fb.byte_pixel_x(b) < x
                            + 8 && y0 <= pre_fb.byte_pixel_y(b) < y0
                            + 14) implies #[trigger] self.framebuffer.buffer@[b] == pre_fb.buffer@[b] by {
                    }
                    lemma_box_write_frame(pre_fb, self.framebuffer, x as int, y0 as int);
                    assert forall|b: int|
                        0 <= b < old(self).framebuffer.buffer@.len() && !covered(
                            old(self).framebuffer,
                            n as int,
                            y0 as int,
                            b,
                        ) implies #[trigger] self.framebuffer.buffer@[b] == old(
                        self,
                    ).framebuffer.buffer@[b] by {
                        if x <= pre_fb.byte_pixel_x(b) < x + 8 && y0 <= pre_fb.byte_pixel_y(b) < y0
                            + 14 {
                            assert(under_glyph(
                                old(self).framebuffer,
                                pen_at(i as int, left as int, width as int),
                                y0 as int,
                                b,
                            ));
                            assert(covered(old(self).framebuffer, n as int, y0 as int, b));
                        } else {
                            assert(self.framebuffer.buffer@[b] == pre_fb.buffer@[b]);
                        }
                    }
                    assert forall|j: int, r: int, col: int|
                        0 <= j < i + 1 && 0 <= r < 14 && 0 <= col < 8 && char_drawn(
                            j,
                            left as int,
                            width as int,
                        ) && left <= pen_at(j, left as int, width as int) + col <= right && top
                            <= y0 + r <= bottom implies self.framebuffer.pixel_is(
                        pen_at(j, left as int, width as int) + col,
                        y0 + r,
                        color,
                        #[trigger] glyph_of(s@[j])[r][col],
                    ) by {
                        if j == i {
                            assert(s@[j] == c);
                            assert(pen_at(j, left as int, width as int) == x);
                        } else {
                            assert(pre_fb.pixel_is(
                                pen_at(j, left as int, width as int) + col,
                                y0 + r,
                                color,
                                glyph_of(s@[j])[r][col],
                            ));
                            assert(pen_at(j, left as int, width as int) + 8 <= x);
                        }
                    }
                }
                x = x + adv;
            }
            i = i + 1;
        }
        proof {
            assert(rendered_line(
                old(self).framebuffer,
                self.framebuffer,
                s@,
                color,
                start_row(old(self).line_y),
            ));
        }
    }
}

} // verus!
