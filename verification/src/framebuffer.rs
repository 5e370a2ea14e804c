//! The framebuffer console: pixels, rectangles and text on a linear
//! framebuffer.
//!
//! The writer paints into a buffer of its own, laid out as the display's
//! framebuffer is: rows of `stride` pixels, `bytes_per_pixel` bytes each,
//! of which the first `width` pixels of the first `height` rows are on the
//! screen. Whoever owns the display copies the buffer to it. Painting never
//! reaches outside the screen: what lies outside is cut off.

use noto_sans_mono_bitmap::{get_raster, FontWeight, RasterHeight};
use vstd::prelude::*;
use vstd::arithmetic::div_mod::{lemma_fundamental_div_mod, lemma_fundamental_div_mod_converse};

verus! {

/// Extra rows between two lines of text.
pub const LINE_SPACING: usize = 2;

/// Extra columns between two characters.
pub const LETTER_SPACING: usize = 0;

/// Distance of the text from the left and the upper edge of the screen.
pub const BORDER_PADDING: usize = 1;

/// Height of a character's raster in rows.
pub const CHAR_RASTER_HEIGHT: usize = 16;

/// Width of a character's raster in columns.
pub const CHAR_RASTER_WIDTH: usize = 7;

/// The character that stands in for those that the font does not have.
pub const FALLBACK_CHAR: char = '\u{fffd}';

/// A colour.
#[derive(Clone, Copy, Debug, PartialEq, Eq, Structural)]
pub struct Rgb {
    pub r: u8,
    pub g: u8,
    pub b: u8,
}

impl Rgb {
    /// Black.
    pub fn black() -> (c: Rgb)
        ensures
            c == (Rgb { r: 0, g: 0, b: 0 }),
    {
        Rgb { r: 0, g: 0, b: 0 }
    }

    /// White.
    pub fn white() -> (c: Rgb)
        ensures
            c == (Rgb { r: 255, g: 255, b: 255 }),
    {
        Rgb { r: 255, g: 255, b: 255 }
    }

    /// Red.
    pub fn red() -> (c: Rgb)
        ensures
            c == (Rgb { r: 255, g: 0, b: 0 }),
    {
        Rgb { r: 255, g: 0, b: 0 }
    }

    /// A medium green.
    pub fn green() -> (c: Rgb)
        ensures
            c == (Rgb { r: 0, g: 160, b: 0 }),
    {
        Rgb { r: 0, g: 160, b: 0 }
    }

    /// The brightest green.
    pub fn bright_green() -> (c: Rgb)
        ensures
            c == (Rgb { r: 0, g: 255, b: 0 }),
    {
        Rgb { r: 0, g: 255, b: 0 }
    }

    /// A dark grey.
    pub fn dark_gray() -> (c: Rgb)
        ensures
            c == (Rgb { r: 32, g: 32, b: 32 }),
    {
        Rgb { r: 32, g: 32, b: 32 }
    }
}

/// How the bytes of a pixel encode its colour.
#[derive(Clone, Copy, Debug, PartialEq, Eq, Structural)]
pub enum PixelFormat {
    /// Red, green, blue, one byte each.
    Rgb,
    /// Blue, green, red, one byte each.
    Bgr,
    /// One byte of grey.
    U8,
}

/// The layout of a framebuffer.
#[derive(Clone, Copy, Debug, PartialEq, Eq, Structural)]
pub struct FrameBufferInfo {
    /// Number of pixels of a row that are on the screen.
    pub width: usize,
    /// Number of rows that are on the screen.
    pub height: usize,
    /// Number of pixels from the start of one row to the start of the next.
    pub stride: usize,
    pub bytes_per_pixel: usize,
    pub pixel_format: PixelFormat,
}

/// The four bytes of a pixel, of which a framebuffer stores the first
/// `bytes_per_pixel`.
#[derive(Clone, Copy, Debug, PartialEq, Eq, Structural)]
pub struct PixelBytes {
    pub b0: u8,
    pub b1: u8,
    pub b2: u8,
    pub b3: u8,
}

impl PixelBytes {
    /// Byte `k` of the pixel.
    pub open spec fn at(self, k: int) -> u8 {
        if k == 0 {
            self.b0
        } else if k == 1 {
            self.b1
        } else if k == 2 {
            self.b2
        } else {
            self.b3
        }
    }

    /// Byte `k` of the pixel.
    fn get(&self, k: usize) -> (b: u8)
        ensures
            b == self.at(k as int),
    {
        if k == 0 {
            self.b0
        } else if k == 1 {
            self.b1
        } else if k == 2 {
            self.b2
        } else {
            self.b3
        }
    }
}

/// The bytes that encode a colour: the three channels in the order of the
/// format, or one byte that is `0xF` for anything but black.
pub open spec fn rgb_bytes(format: PixelFormat, c: Rgb) -> PixelBytes {
    match format {
        PixelFormat::Rgb => PixelBytes { b0: c.r, b1: c.g, b2: c.b, b3: 0 },
        PixelFormat::Bgr => PixelBytes { b0: c.b, b1: c.g, b2: c.r, b3: 0 },
        PixelFormat::U8 => PixelBytes {
            b0: if c.r + c.g + c.b > 0 {
                0xFu8
            } else {
                0u8
            },
            b1: 0,
            b2: 0,
            b3: 0,
        },
    }
}

/// The bytes that encode a shade of the text colour: full red and green
/// and half blue, or one byte that is `0xF` for the bright shades.
pub open spec fn intensity_bytes(format: PixelFormat, v: u8) -> PixelBytes {
    match format {
        PixelFormat::Rgb => PixelBytes { b0: v, b1: v, b2: v / 2, b3: 0 },
        PixelFormat::Bgr => PixelBytes { b0: v / 2, b1: v, b2: v, b3: 0 },
        PixelFormat::U8 => PixelBytes {
            b0: if v > 200 {
                0xFu8
            } else {
                0u8
            },
            b1: 0,
            b2: 0,
            b3: 0,
        },
    }
}

/// The bytes that encode a colour.
pub fn encode_rgb(format: PixelFormat, c: Rgb) -> (bytes: PixelBytes)
    ensures
        bytes == rgb_bytes(format, c),
{
    match format {
        PixelFormat::Rgb => PixelBytes { b0: c.r, b1: c.g, b2: c.b, b3: 0 },
        PixelFormat::Bgr => PixelBytes { b0: c.b, b1: c.g, b2: c.r, b3: 0 },
        PixelFormat::U8 => {
            let lit = c.r > 0 || c.g > 0 || c.b > 0;
            PixelBytes { b0: if lit { 0xF } else { 0 }, b1: 0, b2: 0, b3: 0 }
        },
    }
}

/// The bytes that encode a shade of the text colour.
pub fn encode_intensity(format: PixelFormat, v: u8) -> (bytes: PixelBytes)
    ensures
        bytes == intensity_bytes(format, v),
{
    match format {
        PixelFormat::Rgb => PixelBytes { b0: v, b1: v, b2: v / 2, b3: 0 },
        PixelFormat::Bgr => PixelBytes { b0: v / 2, b1: v, b2: v, b3: 0 },
        PixelFormat::U8 => PixelBytes { b0: if v > 200 { 0xF } else { 0 }, b1: 0, b2: 0, b3: 0 },
    }
}

/// Column of the pixel that byte `i` of the buffer belongs to.
pub open spec fn column_of(info: FrameBufferInfo, i: int) -> int {
    (i / info.bytes_per_pixel as int) % info.stride as int
}

/// Row of the pixel that byte `i` of the buffer belongs to.
pub open spec fn row_of(info: FrameBufferInfo, i: int) -> int {
    (i / info.bytes_per_pixel as int) / info.stride as int
}

/// Which of its pixel's bytes byte `i` of the buffer is.
pub open spec fn channel_of(info: FrameBufferInfo, i: int) -> int {
    i % info.bytes_per_pixel as int
}

/// Whether byte `i` of the buffer belongs to a pixel on the screen.
pub open spec fn on_screen(info: FrameBufferInfo, i: int) -> bool {
    column_of(info, i) < info.width && row_of(info, i) < info.height
}

/// A buffer of `len` bytes can hold the framebuffer: a pixel has one to four
/// bytes, rows are not shorter than the screen is wide, and all rows fit.
pub open spec fn info_fits(info: FrameBufferInfo, len: nat) -> bool {
    &&& 1 <= info.bytes_per_pixel <= 4
    &&& info.width <= info.stride
    &&& info.height * info.stride * info.bytes_per_pixel <= len
}

/// The buffer after the pixel at column `x`, row `y` was set.
pub open spec fn with_pixel(
    bytes: Seq<u8>,
    info: FrameBufferInfo,
    x: int,
    y: int,
    pixel: PixelBytes,
) -> Seq<u8> {
    Seq::new(
        bytes.len(),
        |i: int|
            if on_screen(info, i) && column_of(info, i) == x && row_of(info, i) == y {
                pixel.at(channel_of(info, i))
            } else {
                bytes[i]
            },
    )
}

/// Whether the pixel at column `cx`, row `cy` lies in the rows from `y0` up
/// to `yy` of the columns from `x0` up to `x1`, or in row `yy` in the
/// columns from `x0` up to `xx`.
pub open spec fn in_rows(cx: int, cy: int, x0: int, x1: int, y0: int, yy: int, xx: int) -> bool {
    (x0 <= cx < x1 && y0 <= cy < yy) || (cy == yy && x0 <= cx < xx)
}

/// The buffer after the pixels of the screen that `in_rows` holds of were
/// set.
pub open spec fn filled_rows(
    bytes: Seq<u8>,
    info: FrameBufferInfo,
    pixel: PixelBytes,
    x0: int,
    x1: int,
    y0: int,
    yy: int,
    xx: int,
) -> Seq<u8> {
    Seq::new(
        bytes.len(),
        |i: int|
            if on_screen(info, i) && in_rows(
                column_of(info, i),
                row_of(info, i),
                x0,
                x1,
                y0,
                yy,
                xx,
            ) {
                pixel.at(channel_of(info, i))
            } else {
                bytes[i]
            },
    )
}

/// The buffer after the part of the rectangle of `w` columns and `h` rows
/// at column `x`, row `y` that is on the screen was set.
pub open spec fn filled(
    bytes: Seq<u8>,
    info: FrameBufferInfo,
    pixel: PixelBytes,
    x: int,
    y: int,
    w: int,
    h: int,
) -> Seq<u8> {
    filled_rows(bytes, info, pixel, x, x + w, y, y + h, x)
}

/// A buffer of as many zero bytes.
pub open spec fn blank(bytes: Seq<u8>) -> Seq<u8> {
    Seq::new(bytes.len(), |i: int| 0u8)
}

/// The bytes of the pixel at column `x` of row `y` are those from
/// `(y * stride + x) * bytes_per_pixel` on, and no others.
proof fn lemma_pixel_bytes(info: FrameBufferInfo, x: int, y: int, i: int)
    requires
        info.bytes_per_pixel > 0,
        0 <= x < info.stride,
        0 <= y,
        0 <= i,
    ensures
        ({
            let off = (y * info.stride + x) * info.bytes_per_pixel;
            &&& (off <= i < off + info.bytes_per_pixel) <==> (column_of(info, i) == x && row_of(
                info,
                i,
            ) == y)
            &&& off <= i < off + info.bytes_per_pixel ==> channel_of(info, i) == i - off
        }),
{
    let bpp = info.bytes_per_pixel as int;
    let stride = info.stride as int;
    let p = y * stride + x;
    let off = p * bpp;
    let q = i / bpp;
    let r = i % bpp;
    lemma_fundamental_div_mod(i, bpp);
    assert(0 <= r < bpp) by (nonlinear_arith)
        requires
            r == i % bpp,
            bpp > 0,
    ;
    lemma_fundamental_div_mod_converse(p, stride, y, x);
    if off <= i < off + bpp {
        lemma_fundamental_div_mod_converse(i, bpp, p, i - off);
    }
    if q % stride == x && q / stride == y {
        lemma_fundamental_div_mod(q, stride);
        assert(stride * y == y * stride) by (nonlinear_arith);
        assert(q == p);
        assert(off <= i < off + bpp) by (nonlinear_arith)
            requires
                i == bpp * q + r,
                off == q * bpp,
                0 <= r < bpp,
        ;
    }
}

/// The bytes of the pixels on the screen lie inside the buffer.
proof fn lemma_pixel_in_buffer(info: FrameBufferInfo, len: nat, x: int, y: int)
    requires
        info_fits(info, len),
        0 <= x < info.width,
        0 <= y < info.height,
    ensures
        0 <= y * info.stride <= y * info.stride + x < info.height * info.stride,
        y * info.stride + x <= (y * info.stride + x) * info.bytes_per_pixel,
        0 <= (y * info.stride + x) * info.bytes_per_pixel,
        (y * info.stride + x) * info.bytes_per_pixel + info.bytes_per_pixel <= len,
{
    let bpp = info.bytes_per_pixel as int;
    let stride = info.stride as int;
    let height = info.height as int;
    assert(y * stride + x + 1 <= height * stride && 0 <= y * stride) by (nonlinear_arith)
        requires
            0 <= x < stride,
            0 <= y < height,
    ;
    assert((y * stride + x) * bpp + bpp <= height * stride * bpp && 0 <= (y * stride + x) * bpp)
        by (nonlinear_arith)
        requires
            0 <= y * stride + x,
            y * stride + x + 1 <= height * stride,
            bpp > 0,
    ;
    assert(y * stride + x <= (y * stride + x) * bpp) by (nonlinear_arith)
        requires
            0 <= y * stride + x,
            bpp >= 1,
    ;
}

/// A buffer together with its layout.
struct Canvas {
    bytes: Vec<u8>,
    info: FrameBufferInfo,
}

impl Canvas {
    spec fn fits(self) -> bool {
        info_fits(self.info, self.bytes@.len())
    }

    /// A canvas without pixels.
    fn none() -> (canvas: Canvas)
        ensures
            canvas.fits(),
            canvas.bytes@.len() == 0,
    {
        let info = FrameBufferInfo {
            width: 0,
            height: 0,
            stride: 0,
            bytes_per_pixel: 1,
            pixel_format: PixelFormat::Rgb,
        };
        assert(info.height * info.stride * info.bytes_per_pixel == 0) by (nonlinear_arith)
            requires
                info.height == 0,
        ;
        Canvas { bytes: Vec::new(), info }
    }

    /// Sets the pixel at column `x`, row `y`, which is on the screen.
    fn put(&mut self, x: usize, y: usize, pixel: PixelBytes)
        requires
            old(self).fits(),
            x < old(self).info.width,
            y < old(self).info.height,
        ensures
            final(self).info == old(self).info,
            final(self).fits(),
            final(self).bytes@ == with_pixel(old(self).bytes@, old(self).info, x as int, y as int, pixel),
    {
        let ghost info = self.info;
        let ghost before = self.bytes@;
        proof {
            lemma_pixel_in_buffer(info, before.len(), x as int, y as int);
        }
        let bpp = self.info.bytes_per_pixel;
        let len = self.bytes.len();
        let off = (y * self.info.stride + x) * bpp;
        let mut k: usize = 0;
        while k < bpp
            invariant
                k <= bpp,
                bpp == info.bytes_per_pixel,
                self.info == info,
                len == before.len(),
                off + bpp <= before.len(),
                self.bytes@.len() == before.len(),
                forall|i: int|
                    0 <= i < before.len() ==> #[trigger] self.bytes@[i] == if off <= i < off + k {
                        pixel.at(i - off)
                    } else {
                        before[i]
                    },
            decreases bpp - k,
        {
            self.bytes.set(off + k, pixel.get(k));
            k = k + 1;
        }
        proof {
            let after = with_pixel(before, info, x as int, y as int, pixel);
            assert forall|i: int| 0 <= i < before.len() implies self.bytes@[i] == after[i] by {
                lemma_pixel_bytes(info, x as int, y as int, i);
            }
            assert(self.bytes@ =~= after);
        }
    }

    /// Sets the pixels of the rectangle of `w` columns and `h` rows at
    /// column `x`, row `y`, as far as they are on the screen.
    #[verifier::rlimit(30)]
    fn fill(&mut self, x: usize, y: usize, w: usize, h: usize, pixel: PixelBytes)
        requires
            old(self).fits(),
        ensures
            final(self).info == old(self).info,
            final(self).fits(),
            final(self).bytes@ == filled(
                old(self).bytes@,
                old(self).info,
                pixel,
                x as int,
                y as int,
                w as int,
                h as int,
            ),
    {
        let ghost info = self.info;
        let ghost before = self.bytes@;
        let width = self.info.width;
        let height = self.info.height;
        let x_end: usize = if w > width || x > width - w {
            width
        } else {
            x + w
        };
        let y_end: usize = if h > height || y > height - h {
            height
        } else {
            y + h
        };
        let mut yy = y;
        assert(self.bytes@ =~= filled_rows(
            before,
            info,
            pixel,
            x as int,
            x + w,
            y as int,
            y as int,
            x as int,
        ));
        while yy < y_end
            invariant
                self.info == info,
                self.fits(),
                width == info.width,
                height == info.height,
                x_end <= width,
                y_end <= height,
                x_end == if x + w <= width { x + w } else { width as int },
                y_end == if y + h <= height { y + h } else { height as int },
                y <= yy,
                yy <= y_end || yy == y,
                self.bytes@ == filled_rows(
                    before,
                    info,
                    pixel,
                    x as int,
                    x + w,
                    y as int,
                    yy as int,
                    x as int,
                ),
            decreases y_end - yy,
        {
            let mut xx = x;
            while xx < x_end
                invariant
                    self.info == info,
                    self.fits(),
                    width == info.width,
                    height == info.height,
                    x_end <= width,
                    yy < y_end <= height,
                    x_end == if x + w <= width { x + w } else { width as int },
                    y <= yy,
                    x <= xx,
                    xx <= x_end || xx == x,
                    self.bytes@ == filled_rows(
                        before,
                        info,
                        pixel,
                        x as int,
                        x + w,
                        y as int,
                        yy as int,
                        xx as int,
                    ),
                decreases x_end - xx,
            {
                let ghost current = self.bytes@;
                self.put(xx, yy, pixel);
                assert(self.bytes@ =~= filled_rows(
                    before,
                    info,
                    pixel,
                    x as int,
                    x + w,
                    y as int,
                    yy as int,
                    xx as int + 1,
                ));
                xx = xx + 1;
            }
            assert(self.bytes@ =~= filled_rows(
                before,
                info,
                pixel,
                x as int,
                x + w,
                y as int,
                yy as int + 1,
                x as int,
            ));
            yy = yy + 1;
        }
        assert(self.bytes@ =~= filled(before, info, pixel, x as int, y as int, w as int, h as int));
    }

    /// Sets every byte of the buffer to zero.
    fn wipe(&mut self)
        requires
            old(self).fits(),
        ensures
            final(self).info == old(self).info,
            final(self).fits(),
            final(self).bytes@ == blank(old(self).bytes@),
    {
        let ghost before = self.bytes@;
        let mut i: usize = 0;
        while i < self.bytes.len()
            invariant
                self.info == old(self).info,
                self.bytes@.len() == before.len(),
                i <= self.bytes@.len(),
                forall|j: int| 0 <= j < i ==> self.bytes@[j] == 0,
            decreases self.bytes.len() - i,
        {
            self.bytes.set(i, 0);
            i = i + 1;
        }
        assert(self.bytes@ =~= blank(before));
    }
}

/// The raster of a character in the regular weight at 16 rows: its rows
/// from the top, each a row of intensities from the left. `None` for a
/// character that the font does not have.
pub uninterp spec fn glyph_raster(c: char) -> Option<Seq<Seq<u8>>>;

/// `noto_sans_mono_bitmap::get_raster` for the regular weight at 16 rows,
/// the raster copied row by row.
#[verifier::external_body]
fn raster_of(c: char) -> (rows: Option<Vec<Vec<u8>>>)
    ensures
        match rows {
            Some(r) => glyph_raster(c) matches Some(g) && r@.len() == g.len() && forall|i: int|
                0 <= i < r@.len() ==> (#[trigger] r@[i])@ == g[i],
            None => glyph_raster(c) is None,
        },
{
    get_raster(c, FontWeight::Regular, RasterHeight::Size16).map(
        |g| g.raster().iter().map(|row| row.to_vec()).collect(),
    )
}

/// The raster that a character is shown with: its own, or that of the
/// fallback character where the font does not have it.
pub open spec fn glyph_for(c: char) -> Option<Seq<Seq<u8>>> {
    match glyph_raster(c) {
        Some(g) => Some(g),
        None => glyph_raster('\u{fffd}'),
    }
}

/// Whether the pixel at column `cx`, row `cy` is covered by the first `ry`
/// rows of a raster drawn at column `x0`, row `y0`, or by the first `rx`
/// columns of its row `ry`.
pub open spec fn in_glyph(
    cx: int,
    cy: int,
    x0: int,
    y0: int,
    glyph: Seq<Seq<u8>>,
    ry: int,
    rx: int,
) -> bool {
    &&& x0 <= cx
    &&& y0 <= cy < y0 + glyph.len()
    &&& cx - x0 < glyph[cy - y0].len()
    &&& cy - y0 < ry || (cy - y0 == ry && cx - x0 < rx)
}

/// The buffer after the pixels of the screen that `in_glyph` holds of took
/// the shades of the raster.
pub open spec fn with_glyph_rows(
    bytes: Seq<u8>,
    info: FrameBufferInfo,
    x0: int,
    y0: int,
    glyph: Seq<Seq<u8>>,
    ry: int,
    rx: int,
) -> Seq<u8> {
    Seq::new(
        bytes.len(),
        |i: int|
            if on_screen(info, i) && in_glyph(
                column_of(info, i),
                row_of(info, i),
                x0,
                y0,
                glyph,
                ry,
                rx,
            ) {
                intensity_bytes(
                    info.pixel_format,
                    glyph[row_of(info, i) - y0][column_of(info, i) - x0],
                ).at(channel_of(info, i))
            } else {
                bytes[i]
            },
    )
}

/// The buffer after a raster was drawn with its upper left corner at column
/// `x0`, row `y0`, as far as it is on the screen.
pub open spec fn with_glyph(
    bytes: Seq<u8>,
    info: FrameBufferInfo,
    x0: int,
    y0: int,
    glyph: Seq<Seq<u8>>,
) -> Seq<u8> {
    with_glyph_rows(bytes, info, x0, y0, glyph, glyph.len() as int, 0)
}

impl Canvas {
    /// Draws a raster with its upper left corner at column `x0`, row `y0`,
    /// as far as it is on the screen.
    #[verifier::rlimit(30)]
    fn draw(&mut self, x0: usize, y0: usize, rows: &Vec<Vec<u8>>, Ghost(glyph): Ghost<Seq<Seq<u8>>>)
        requires
            old(self).fits(),
            rows@.len() == glyph.len(),
            forall|i: int| 0 <= i < rows@.len() ==> (#[trigger] rows@[i])@ == glyph[i],
        ensures
            final(self).info == old(self).info,
            final(self).fits(),
            final(self).bytes@ == with_glyph(
                old(self).bytes@,
                old(self).info,
                x0 as int,
                y0 as int,
                glyph,
            ),
    {
        let ghost info = self.info;
        let ghost before = self.bytes@;
        let width = self.info.width;
        let height = self.info.height;
        let format = self.info.pixel_format;
        if x0 >= width || y0 >= height {
            assert(self.bytes@ =~= with_glyph(before, info, x0 as int, y0 as int, glyph));
            return ;
        }
        let mut gy: usize = 0;
        assert(self.bytes@ =~= with_glyph_rows(before, info, x0 as int, y0 as int, glyph, 0, 0));
        while gy < rows.len() && gy < height - y0
            invariant
                self.info == info,
                self.fits(),
                width == info.width,
                height == info.height,
                format == info.pixel_format,
                x0 < width,
                y0 < height,
                gy <= rows@.len(),
                gy <= height - y0,
                rows@.len() == glyph.len(),
                forall|i: int| 0 <= i < rows@.len() ==> (#[trigger] rows@[i])@ == glyph[i],
                self.bytes@ == with_glyph_rows(
                    before,
                    info,
                    x0 as int,
                    y0 as int,
                    glyph,
                    gy as int,
                    0,
                ),
            decreases rows.len() - gy,
        {
            let row = &rows[gy];
            assert(row@ == glyph[gy as int]);
            let mut gx: usize = 0;
            while gx < row.len() && gx < width - x0
                invariant
                    self.info == info,
                    self.fits(),
                    width == info.width,
                    height == info.height,
                    format == info.pixel_format,
                    x0 < width,
                    y0 < height,
                    gy < rows@.len(),
                    gy < height - y0,
                    rows@.len() == glyph.len(),
                    row@ == glyph[gy as int],
                    gx <= row@.len(),
                    gx <= width - x0,
                    self.bytes@ == with_glyph_rows(
                        before,
                        info,
                        x0 as int,
                        y0 as int,
                        glyph,
                        gy as int,
                        gx as int,
                    ),
                decreases row.len() - gx,
            {
                self.put(x0 + gx, y0 + gy, encode_intensity(format, row[gx]));
                assert(self.bytes@ =~= with_glyph_rows(
                    before,
                    info,
                    x0 as int,
                    y0 as int,
                    glyph,
                    gy as int,
                    gx as int + 1,
                ));
                gx = gx + 1;
            }
            assert(self.bytes@ =~= with_glyph_rows(
                before,
                info,
                x0 as int,
                y0 as int,
                glyph,
                gy as int + 1,
                0,
            ));
            gy = gy + 1;
        }
        assert(self.bytes@ =~= with_glyph(before, info, x0 as int, y0 as int, glyph));
    }
}

/// What a writer shows and where it writes next.
pub struct Console {
    /// The bytes of the buffer.
    pub bytes: Seq<u8>,
    /// Column of the next character.
    pub x: int,
    /// Row of the next character.
    pub y: int,
}

/// A position that has run beyond the largest number stands at that number.
pub open spec fn capped(a: int) -> int {
    if a > usize::MAX {
        usize::MAX as int
    } else {
        a
    }
}

/// The console with the cursor at the start of the next line.
pub open spec fn line_fed(s: Console) -> Console {
    Console { bytes: s.bytes, x: 1, y: capped(s.y + 18) }
}

/// The console with all bytes zero and the cursor at the upper left.
pub open spec fn cleared(s: Console) -> Console {
    Console { bytes: blank(s.bytes), x: 1, y: 1 }
}

/// The console after a character was written. A line feed and a carriage
/// return move the cursor. Any other character is drawn at the cursor,
/// which moves on by a character's width: on the next line where the
/// character would reach the right edge, and on a cleared screen where it
/// would reach the lower edge.
pub open spec fn typed(info: FrameBufferInfo, s: Console, c: char) -> Console {
    if c == '\n' {
        line_fed(s)
    } else if c == '\r' {
        Console { bytes: s.bytes, x: 1, y: s.y }
    } else {
        let s1 = if s.x + 7 >= info.width {
            line_fed(s)
        } else {
            s
        };
        let s2 = if s1.y + 17 >= info.height {
            cleared(s1)
        } else {
            s1
        };
        match glyph_for(c) {
            Some(g) => Console {
                bytes: with_glyph(s2.bytes, info, s2.x, s2.y, g),
                x: capped(s2.x + 7),
                y: s2.y,
            },
            None => s2,
        }
    }
}

/// The console after the characters were written, one after the other.
pub open spec fn typed_all(info: FrameBufferInfo, s: Console, text: Seq<char>) -> Console
    decreases text.len(),
{
    if text.len() == 0 {
        s
    } else {
        typed(info, typed_all(info, s, text.drop_last()), text.last())
    }
}

/// The number of whole cells of `cell_size` pixels that fit the screen, in
/// columns and rows.
pub open spec fn grid_of(info: FrameBufferInfo, cell_size: usize) -> (usize, usize) {
    ((info.width / cell_size) as usize, (info.height / cell_size) as usize)
}

/// `a + b`, or the largest number where the sum is beyond it.
fn add_capped(a: usize, b: usize) -> (sum: usize)
    ensures
        sum == capped(a + b),
{
    if a > usize::MAX - b {
        usize::MAX
    } else {
        a + b
    }
}

/// Whether `height * stride * bytes_per_pixel` is at most `len`.
fn rows_fit(info: &FrameBufferInfo, len: usize) -> (fit: bool)
    requires
        info.bytes_per_pixel >= 1,
    ensures
        fit == (info.height * info.stride * info.bytes_per_pixel <= len),
{
    let pixels = match info.height.checked_mul(info.stride) {
        Some(pixels) => pixels,
        None => {
            assert(info.height * info.stride * info.bytes_per_pixel > len) by (nonlinear_arith)
                requires
                    info.height * info.stride > usize::MAX,
                    len <= usize::MAX,
                    info.bytes_per_pixel >= 1,
            ;
            return false;
        },
    };
    match pixels.checked_mul(info.bytes_per_pixel) {
        Some(bytes) => bytes <= len,
        None => false,
    }
}

/// Paints and writes text into a framebuffer.
pub struct FrameBufferWriter {
    canvas: Canvas,
    x_pos: usize,
    y_pos: usize,
}

impl View for FrameBufferWriter {
    type V = Console;

    closed spec fn view(&self) -> Console {
        Console { bytes: self.canvas.bytes@, x: self.x_pos as int, y: self.y_pos as int }
    }
}

impl FrameBufferWriter {
    #[verifier::type_invariant]
    spec fn layout_fits(self) -> bool {
        self.canvas.fits()
    }

    /// The layout of the framebuffer.
    pub closed spec fn info(self) -> FrameBufferInfo {
        self.canvas.info
    }

    /// A writer on `framebuffer`, cleared, if the layout fits the buffer.
    pub fn new(framebuffer: Vec<u8>, info: FrameBufferInfo) -> (writer: Option<FrameBufferWriter>)
        ensures
            writer is Some <==> info_fits(info, framebuffer@.len()),
            writer matches Some(w) ==> w.info() == info && w@ == cleared(
                Console { bytes: framebuffer@, x: 0, y: 0 },
            ),
    {
        if info.bytes_per_pixel < 1 || info.bytes_per_pixel > 4 || info.width > info.stride
            || !rows_fit(&info, framebuffer.len()) {
            return None;
        }
        let mut canvas = Canvas { bytes: framebuffer, info };
        canvas.wipe();
        Some(FrameBufferWriter { canvas, x_pos: BORDER_PADDING, y_pos: BORDER_PADDING })
    }

    /// The bytes of the buffer, for whoever shows them.
    pub fn buffer(&self) -> (bytes: &Vec<u8>)
        ensures
            bytes@ == self@.bytes,
    {
        &self.canvas.bytes
    }

    /// Number of pixels of a row that are on the screen.
    pub fn width(&self) -> (width: usize)
        ensures
            width == self.info().width,
    {
        self.canvas.info.width
    }

    /// Number of rows that are on the screen.
    pub fn height(&self) -> (height: usize)
        ensures
            height == self.info().height,
    {
        self.canvas.info.height
    }

    /// Width and height of the screen in pixels.
    pub fn dimensions(&self) -> (size: (usize, usize))
        ensures
            size == (self.info().width, self.info().height),
    {
        (self.canvas.info.width, self.canvas.info.height)
    }

    /// Number of whole cells of `cell_size` pixels that fit the screen, in
    /// columns and rows.
    pub fn grid_dimensions(&self, cell_size: usize) -> (grid: (usize, usize))
        requires
            cell_size > 0,
        ensures
            grid == grid_of(self.info(), cell_size),
    {
        (self.canvas.info.width / cell_size, self.canvas.info.height / cell_size)
    }

    /// Puts the cursor at the upper left, the border aside.
    pub fn reset_cursor(&mut self)
        ensures
            final(self).info() == old(self).info(),
            final(self)@ == (Console { bytes: old(self)@.bytes, x: 1, y: 1 }),
    {
        proof {
            use_type_invariant(&*self);
        }
        self.x_pos = BORDER_PADDING;
        self.y_pos = BORDER_PADDING;
    }

    /// Sets the pixel at column `x`, row `y` to the colour `c`. A pixel that
    /// is not on the screen is left alone.
    pub fn put_pixel_rgb(&mut self, x: usize, y: usize, c: Rgb)
        ensures
            final(self).info() == old(self).info(),
            final(self)@.x == old(self)@.x,
            final(self)@.y == old(self)@.y,
            final(self)@.bytes == if x < old(self).info().width && y < old(self).info().height {
                with_pixel(
                    old(self)@.bytes,
                    old(self).info(),
                    x as int,
                    y as int,
                    rgb_bytes(old(self).info().pixel_format, c),
                )
            } else {
                old(self)@.bytes
            },
    {
        proof {
            use_type_invariant(&*self);
        }
        if x >= self.canvas.info.width || y >= self.canvas.info.height {
            return ;
        }
        let pixel = encode_rgb(self.canvas.info.pixel_format, c);
        let mut canvas = Canvas::none();
        std::mem::swap(&mut self.canvas, &mut canvas);
        canvas.put(x, y, pixel);
        std::mem::swap(&mut self.canvas, &mut canvas);
    }

    /// Sets every byte of the buffer to zero and puts the cursor at the
    /// upper left.
    pub fn clear(&mut self)
        ensures
            final(self).info() == old(self).info(),
            final(self)@ == cleared(old(self)@),
    {
        proof {
            use_type_invariant(&*self);
        }
        let mut canvas = Canvas::none();
        std::mem::swap(&mut self.canvas, &mut canvas);
        canvas.wipe();
        std::mem::swap(&mut self.canvas, &mut canvas);
        self.x_pos = BORDER_PADDING;
        self.y_pos = BORDER_PADDING;
    }

    /// Sets the pixels of the rectangle of `w` columns and `h` rows at
    /// column `x`, row `y` to the colour `c`, as far as they are on the
    /// screen.
    pub fn fill_rect(&mut self, x: usize, y: usize, w: usize, h: usize, c: Rgb)
        ensures
            final(self).info() == old(self).info(),
            final(self)@.x == old(self)@.x,
            final(self)@.y == old(self)@.y,
            final(self)@.bytes == filled(
                old(self)@.bytes,
                old(self).info(),
                rgb_bytes(old(self).info().pixel_format, c),
                x as int,
                y as int,
                w as int,
                h as int,
            ),
    {
        proof {
            use_type_invariant(&*self);
        }
        let pixel = encode_rgb(self.canvas.info.pixel_format, c);
        let mut canvas = Canvas::none();
        std::mem::swap(&mut self.canvas, &mut canvas);
        canvas.fill(x, y, w, h, pixel);
        std::mem::swap(&mut self.canvas, &mut canvas);
    }

    /// Sets every pixel of the screen to the colour `c` and puts the cursor
    /// at the upper left.
    pub fn clear_color(&mut self, c: Rgb)
        ensures
            final(self).info() == old(self).info(),
            final(self)@.x == 1,
            final(self)@.y == 1,
            final(self)@.bytes == filled(
                old(self)@.bytes,
                old(self).info(),
                rgb_bytes(old(self).info().pixel_format, c),
                0,
                0,
                old(self).info().width as int,
                old(self).info().height as int,
            ),
    {
        let width = self.width();
        let height = self.height();
        self.fill_rect(0, 0, width, height, c);
        proof {
            use_type_invariant(&*self);
        }
        self.x_pos = BORDER_PADDING;
        self.y_pos = BORDER_PADDING;
    }

    /// Fills the cell in column `cx`, row `cy` of the grid of cells of
    /// `cell_size` pixels with the colour `color`, as far as it is on the
    /// screen.
    pub fn draw_cell(&mut self, cx: usize, cy: usize, cell_size: usize, color: Rgb)
        ensures
            final(self).info() == old(self).info(),
            final(self)@.x == old(self)@.x,
            final(self)@.y == old(self)@.y,
            final(self)@.bytes == filled(
                old(self)@.bytes,
                old(self).info(),
                rgb_bytes(old(self).info().pixel_format, color),
                cx * cell_size,
                cy * cell_size,
                cell_size as int,
                cell_size as int,
            ),
    {
        self.draw_cell_inset(cx, cy, cell_size, 0, color)
    }

    /// Fills the cell in column `cx`, row `cy` of the grid of cells of
    /// `cell_size` pixels, `inset` pixels in from each of its edges, with
    /// the colour `color`, as far as it is on the screen.
    pub fn draw_cell_inset(
        &mut self,
        cx: usize,
        cy: usize,
        cell_size: usize,
        inset: usize,
        color: Rgb,
    )
        ensures
            final(self).info() == old(self).info(),
            final(self)@.x == old(self)@.x,
            final(self)@.y == old(self)@.y,
            final(self)@.bytes == filled(
                old(self)@.bytes,
                old(self).info(),
                rgb_bytes(old(self).info().pixel_format, color),
                cx * cell_size + inset,
                cy * cell_size + inset,
                if cell_size >= 2 * inset {
                    cell_size - 2 * inset
                } else {
                    0
                },
                if cell_size >= 2 * inset {
                    cell_size - 2 * inset
                } else {
                    0
                },
            ),
    {
        proof {
            use_type_invariant(&*self);
        }
        let ghost info = self.info();
        let ghost pixel = rgb_bytes(info.pixel_format, color);
        let ghost size: int = if cell_size >= 2 * inset {
            cell_size - 2 * inset
        } else {
            0
        };
        let ghost target = filled(
            self@.bytes,
            info,
            pixel,
            cx * cell_size + inset,
            cy * cell_size + inset,
            size,
            size,
        );
        let side: usize = if inset > cell_size / 2 || cell_size - inset < inset {
            0
        } else {
            cell_size - inset - inset
        };
        assert(side == size);
        let left = match cx.checked_mul(cell_size) {
            Some(px) => if px > usize::MAX - inset {
                None
            } else {
                Some(px + inset)
            },
            None => None,
        };
        let top = match cy.checked_mul(cell_size) {
            Some(py) => if py > usize::MAX - inset {
                None
            } else {
                Some(py + inset)
            },
            None => None,
        };
        match (left, top) {
            (Some(px), Some(py)) => {
                self.fill_rect(px, py, side, side, color);
            },
            _ => {
                assert(self@.bytes =~= target);
            },
        }
    }

    /// Moves the cursor to the start of the next line.
    fn newline(&mut self)
        ensures
            final(self).info() == old(self).info(),
            final(self)@ == line_fed(old(self)@),
    {
        proof {
            use_type_invariant(&*self);
        }
        self.y_pos = add_capped(self.y_pos, CHAR_RASTER_HEIGHT + LINE_SPACING);
        self.x_pos = BORDER_PADDING;
    }

    /// Moves the cursor to the start of the line.
    fn carriage_return(&mut self)
        ensures
            final(self).info() == old(self).info(),
            final(self)@ == (Console { bytes: old(self)@.bytes, x: 1, y: old(self)@.y }),
    {
        proof {
            use_type_invariant(&*self);
        }
        self.x_pos = BORDER_PADDING;
    }

    /// Writes one character: see `typed`.
    pub fn write_char(&mut self, c: char)
        ensures
            final(self).info() == old(self).info(),
            final(self)@ == typed(old(self).info(), old(self)@, c),
    {
        proof {
            use_type_invariant(&*self);
        }
        if c == '\n' {
            self.newline();
        } else if c == '\r' {
            self.carriage_return();
        } else {
            if add_capped(self.x_pos, CHAR_RASTER_WIDTH) >= self.width() {
                self.newline();
            }
            if add_capped(self.y_pos, CHAR_RASTER_HEIGHT + BORDER_PADDING) >= self.height() {
                self.clear();
            }
            let rows = match raster_of(c) {
                Some(rows) => Some(rows),
                None => raster_of(FALLBACK_CHAR),
            };
            match rows {
                Some(rows) => {
                    self.write_rendered_char(&rows, Ghost(glyph_for(c).unwrap()));
                },
                None => {},
            }
        }
    }

    /// Draws a raster at the cursor and moves the cursor on by the width of
    /// a character.
    fn write_rendered_char(&mut self, rows: &Vec<Vec<u8>>, Ghost(glyph): Ghost<Seq<Seq<u8>>>)
        requires
            rows@.len() == glyph.len(),
            forall|i: int| 0 <= i < rows@.len() ==> (#[trigger] rows@[i])@ == glyph[i],
        ensures
            final(self).info() == old(self).info(),
            final(self)@ == (Console {
                bytes: with_glyph(
                    old(self)@.bytes,
                    old(self).info(),
                    old(self)@.x,
                    old(self)@.y,
                    glyph,
                ),
                x: capped(old(self)@.x + 7),
                y: old(self)@.y,
            }),
    {
        proof {
            use_type_invariant(&*self);
        }
        let x = self.x_pos;
        let y = self.y_pos;
        let mut canvas = Canvas::none();
        std::mem::swap(&mut self.canvas, &mut canvas);
        canvas.draw(x, y, rows, Ghost(glyph));
        std::mem::swap(&mut self.canvas, &mut canvas);
        self.x_pos = add_capped(self.x_pos, CHAR_RASTER_WIDTH + LETTER_SPACING);
    }

    /// Writes the characters of `s`, one after the other.
    pub fn write_str(&mut self, s: &str)
        ensures
            final(self).info() == old(self).info(),
            final(self)@ == typed_all(old(self).info(), old(self)@, s@),
    {
        let n = s.unicode_len();
        let mut i: usize = 0;
        assert(s@.subrange(0, 0) =~= Seq::<char>::empty());
        while i < n
            invariant
                n == s@.len(),
                i <= n,
                self.info() == old(self).info(),
                self@ == typed_all(old(self).info(), old(self)@, s@.subrange(0, i as int)),
            decreases n - i,
        {
            assert(s@.subrange(0, i as int + 1).drop_last() =~= s@.subrange(0, i as int));
            self.write_char(s.get_char(i));
            i = i + 1;
        }
        assert(s@.subrange(0, n as int) =~= s@);
    }
}

/// The display of the kernel: the writer, once the framebuffer is known,
/// and the size of the cells of the game grid, once it is set. Each is set
/// once and stays.
pub struct Screen {
    writer: Option<FrameBufferWriter>,
    cell_size: Option<usize>,
}

impl Screen {
    /// The writer, if the framebuffer is known.
    pub closed spec fn writer(self) -> Option<FrameBufferWriter> {
        self.writer
    }

    /// The size of the grid's cells, if it is set.
    pub closed spec fn cell(self) -> Option<usize> {
        self.cell_size
    }

    /// A display of which nothing is known yet.
    pub fn new() -> (screen: Screen)
        ensures
            screen.writer() is None,
            screen.cell() is None,
    {
        Screen { writer: None, cell_size: None }
    }

    /// The size of the grid's cells, if it is set.
    pub fn cell_size(&self) -> (size: Option<usize>)
        ensures
            size == self.cell(),
    {
        self.cell_size
    }

    /// Whether the framebuffer is known.
    pub fn is_initialized(&self) -> (known: bool)
        ensures
            known == self.writer() is Some,
    {
        self.writer.is_some()
    }

    /// The bytes of the buffer, for whoever shows them.
    pub fn buffer(&self) -> (bytes: Option<&Vec<u8>>)
        ensures
            match bytes {
                Some(b) => self.writer() matches Some(w) && b@ == w@.bytes,
                None => self.writer() is None,
            },
    {
        match &self.writer {
            Some(w) => Some(w.buffer()),
            None => None,
        }
    }
}

/// Makes the framebuffer known. Does nothing where it is known already, or
/// where the layout does not fit the buffer.
pub fn init_framebuffer_writer(screen: &mut Screen, framebuffer: Vec<u8>, info: FrameBufferInfo)
    ensures
        final(screen).cell() == old(screen).cell(),
        match old(screen).writer() {
            Some(w) => final(screen).writer() == Some(w),
            None => if info_fits(info, framebuffer@.len()) {
                final(screen).writer() matches Some(w) && w.info() == info && w@ == cleared(
                    Console { bytes: framebuffer@, x: 0, y: 0 },
                )
            } else {
                final(screen).writer() is None
            },
        },
{
    if screen.writer.is_none() {
        screen.writer = FrameBufferWriter::new(framebuffer, info);
    }
}

/// Sets every pixel of the screen to `color` and puts the cursor at the
/// upper left.
pub fn clear_color(screen: &mut Screen, color: Rgb)
    requires
        old(screen).writer() is Some,
    ensures
        final(screen).cell() == old(screen).cell(),
        final(screen).writer() matches Some(w) && w.info() == old(screen).writer().unwrap().info()
            && w@ == (Console {
            bytes: filled(
                old(screen).writer().unwrap()@.bytes,
                w.info(),
                rgb_bytes(w.info().pixel_format, color),
                0,
                0,
                w.info().width as int,
                w.info().height as int,
            ),
            x: 1,
            y: 1,
        }),
{
    let mut writer = screen.writer.take().unwrap();
    writer.clear_color(color);
    screen.writer = Some(writer);
}

/// Sets every byte of the buffer to zero and puts the cursor at the upper
/// left.
pub fn clear(screen: &mut Screen)
    requires
        old(screen).writer() is Some,
    ensures
        final(screen).cell() == old(screen).cell(),
        final(screen).writer() matches Some(w) && w.info() == old(screen).writer().unwrap().info()
            && w@ == cleared(old(screen).writer().unwrap()@),
{
    let mut writer = screen.writer.take().unwrap();
    writer.clear();
    screen.writer = Some(writer);
}

/// Puts the cursor at the upper left, the border aside.
pub fn reset_cursor(screen: &mut Screen)
    requires
        old(screen).writer() is Some,
    ensures
        final(screen).cell() == old(screen).cell(),
        final(screen).writer() matches Some(w) && w.info() == old(screen).writer().unwrap().info()
            && w@ == (Console { bytes: old(screen).writer().unwrap()@.bytes, x: 1, y: 1 }),
{
    let mut writer = screen.writer.take().unwrap();
    writer.reset_cursor();
    screen.writer = Some(writer);
}

/// Sets the size of the grid's cells, unless it is set already.
pub fn init_cell_size(screen: &mut Screen, cell_size: usize)
    ensures
        final(screen).writer() == old(screen).writer(),
        final(screen).cell() == match old(screen).cell() {
            Some(size) => Some(size),
            None => Some(cell_size),
        },
{
    if screen.cell_size.is_none() {
        screen.cell_size = Some(cell_size);
    }
}

/// Width and height of the screen in pixels.
pub fn framebuffer_size(screen: &Screen) -> (size: (usize, usize))
    requires
        screen.writer() is Some,
    ensures
        size == (screen.writer().unwrap().info().width, screen.writer().unwrap().info().height),
{
    match &screen.writer {
        Some(w) => w.dimensions(),
        None => (0, 0),
    }
}

/// Number of whole cells that fit the screen, in columns and rows, once the
/// size of the cells is set.
pub fn grid_size(screen: &Screen) -> (grid: Option<(usize, usize)>)
    requires
        screen.cell() matches Some(size) ==> size > 0 && screen.writer() is Some,
    ensures
        grid == match screen.cell() {
            Some(size) => Some(grid_of(screen.writer().unwrap().info(), size)),
            None => None,
        },
{
    match (screen.cell_size, &screen.writer) {
        (Some(size), Some(w)) => Some(w.grid_dimensions(size)),
        _ => None,
    }
}

/// Width and height of the screen in pixels, and the number of whole cells
/// of `cell_size` pixels that fit it.
pub fn framebuffer_dimensions(screen: &Screen, cell_size: usize) -> (sizes: (
    (usize, usize),
    (usize, usize),
))
    requires
        screen.writer() is Some,
        cell_size > 0,
    ensures
        sizes.0 == (screen.writer().unwrap().info().width, screen.writer().unwrap().info().height),
        sizes.1 == grid_of(screen.writer().unwrap().info(), cell_size),
{
    match &screen.writer {
        Some(w) => (w.dimensions(), w.grid_dimensions(cell_size)),
        None => ((0, 0), (0, 0)),
    }
}

/// Sets the pixel at column `x`, row `y` to `color`. A pixel that is not on
/// the screen is left alone.
pub fn put_pixel(screen: &mut Screen, x: usize, y: usize, color: Rgb)
    requires
        old(screen).writer() is Some,
    ensures
        final(screen).cell() == old(screen).cell(),
        final(screen).writer() matches Some(w) && ({
            let before = old(screen).writer().unwrap();
            &&& w.info() == before.info()
            &&& w@.x == before@.x
            &&& w@.y == before@.y
            &&& w@.bytes == if x < before.info().width && y < before.info().height {
                with_pixel(
                    before@.bytes,
                    before.info(),
                    x as int,
                    y as int,
                    rgb_bytes(before.info().pixel_format, color),
                )
            } else {
                before@.bytes
            }
        }),
{
    let mut writer = screen.writer.take().unwrap();
    writer.put_pixel_rgb(x, y, color);
    screen.writer = Some(writer);
}

/// Fills the cell in column `cx`, row `cy` of the grid of cells of
/// `cell_size` pixels with `color`, as far as it is on the screen.
pub fn draw_cell(screen: &mut Screen, cx: usize, cy: usize, cell_size: usize, color: Rgb)
    requires
        old(screen).writer() is Some,
    ensures
        final(screen).cell() == old(screen).cell(),
        final(screen).writer() matches Some(w) && ({
            let before = old(screen).writer().unwrap();
            &&& w.info() == before.info()
            &&& w@.x == before@.x
            &&& w@.y == before@.y
            &&& w@.bytes == filled(
                before@.bytes,
                before.info(),
                rgb_bytes(before.info().pixel_format, color),
                cx * cell_size,
                cy * cell_size,
                cell_size as int,
                cell_size as int,
            )
        }),
{
    let mut writer = screen.writer.take().unwrap();
    writer.draw_cell(cx, cy, cell_size, color);
    screen.writer = Some(writer);
}

/// Writes `text` at the cursor.
pub fn _print(screen: &mut Screen, text: &str)
    requires
        old(screen).writer() is Some,
    ensures
        final(screen).cell() == old(screen).cell(),
        final(screen).writer() matches Some(w) && w.info() == old(screen).writer().unwrap().info()
            && w@ == typed_all(w.info(), old(screen).writer().unwrap()@, text@),
{
    let mut writer = screen.writer.take().unwrap();
    writer.write_str(text);
    screen.writer = Some(writer);
}

} // verus!
