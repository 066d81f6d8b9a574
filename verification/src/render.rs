//! Pixel framebuffer rendering for the terminal screen contents.
//!
//! A framebuffer is a byte sequence of RGBA pixels laid out row by row: the
//! pixel at column `px` and row `py` of a `width`-pixel-wide frame starts at
//! byte `4 * (py * width + px)`.

use vstd::prelude::*;
use crate::geometry::{CELL_HEIGHT, CELL_WIDTH, PADDING};
use crate::pane::ScreenText;
use vstd::arithmetic::div_mod::{lemma_fundamental_div_mod, lemma_fundamental_div_mod_converse};

verus! {

/// RGBA background color for the terminal surface.
pub const BACKGROUND: [u8; 4] = [18, 18, 24, 255];
/// RGBA foreground color for rendered glyphs.
pub const FOREGROUND: [u8; 4] = [225, 229, 238, 255];
/// RGBA fill color for the terminal cursor cell.
pub const CURSOR: [u8; 4] = [120, 170, 255, 255];

/// One color channel of `fg` laid over `bg` with coverage `alpha` out of 255.
pub open spec fn blend_channel(fg: u8, bg: u8, alpha: u8) -> int {
    (fg * alpha + bg * (255 - alpha)) / 255
}

proof fn lemma_blend_bounds(fg: u8, bg: u8, alpha: u8)
    ensures
        0 <= fg * alpha + bg * (255 - alpha) <= 255 * 255,
        0 <= blend_channel(fg, bg, alpha) <= 255,
{
    assert(0 <= fg * alpha + bg * (255 - alpha) <= 255 * 255) by (nonlinear_arith)
        requires
            0 <= fg <= 255,
            0 <= bg <= 255,
            0 <= alpha <= 255,
    ;
}

/// Blends one channel in `u16` arithmetic.
fn blend_channel_exec(fg: u8, bg: u8, alpha: u8) -> (r: u8)
    ensures
        r == blend_channel(fg, bg, alpha),
{
    proof {
        lemma_blend_bounds(fg, bg, alpha);
    }
    let alpha = alpha as u16;
    let inverse_alpha = 255 - alpha;
    assert((fg as u16) * alpha <= 255 * 255) by (nonlinear_arith)
        requires fg <= 255, alpha <= 255;
    assert((bg as u16) * inverse_alpha <= 255 * 255) by (nonlinear_arith)
        requires bg <= 255, inverse_alpha <= 255;
    (((fg as u16) * alpha + (bg as u16) * inverse_alpha) / 255) as u8
}

/// Blending with no coverage keeps the existing channel.
pub proof fn lemma_blend_transparent(fg: u8, bg: u8)
    ensures
        blend_channel(fg, bg, 0) == bg,
{
    assert(fg * 0 + bg * 255 == bg * 255) by (nonlinear_arith);
}

/// Blending with full coverage gives the foreground channel.
pub proof fn lemma_blend_opaque(fg: u8, bg: u8)
    ensures
        blend_channel(fg, bg, 255) == fg,
{
    assert(fg * 255 + bg * 0 == fg * 255) by (nonlinear_arith);
}

/// A blended channel lies between the existing channel and the foreground.
pub proof fn lemma_blend_between(fg: u8, bg: u8, alpha: u8)
    ensures
        (if fg <= bg { fg as int } else { bg as int }) <= blend_channel(fg, bg, alpha),
        blend_channel(fg, bg, alpha) <= (if fg <= bg { bg as int } else { fg as int }),
{
    let lo: int = if fg <= bg { fg as int } else { bg as int };
    let hi: int = if fg <= bg { bg as int } else { fg as int };
    assert(lo * 255 <= fg * alpha + bg * (255 - alpha) <= hi * 255) by (nonlinear_arith)
        requires
            0 <= alpha <= 255,
            lo <= fg <= hi,
            lo <= bg <= hi,
    ;
    assert(lo * 255 / 255 == lo) by (nonlinear_arith);
    assert(hi * 255 / 255 == hi) by (nonlinear_arith);
    vstd::arithmetic::div_mod::lemma_div_is_ordered(lo * 255, fg * alpha + bg * (255 - alpha), 255);
    vstd::arithmetic::div_mod::lemma_div_is_ordered(fg * alpha + bg * (255 - alpha), hi * 255, 255);
}

/// Alpha-blends `color` with coverage `alpha` into the four bytes of `frame`
/// that start at `offset`, leaving the pixel opaque.
fn blend_at(frame: &mut [u8], offset: usize, color: [u8; 4], alpha: u8)
    requires
        offset + 4 <= old(frame)@.len(),
    ensures
        final(frame)@.len() == old(frame)@.len(),
        forall|k: int|
            0 <= k < 3 ==> final(frame)@[offset + k] == blend_channel(
                color[k],
                old(frame)@[offset + k],
                alpha,
            ),
        final(frame)@[offset + 3] == 255,
        forall|i: int|
            0 <= i < old(frame)@.len() && !(offset <= i < offset + 4) ==> final(frame)@[i] == old(
                frame,
            )@[i],
{
    frame[offset] = blend_channel_exec(color[0], frame[offset], alpha);
    frame[offset + 1] = blend_channel_exec(color[1], frame[offset + 1], alpha);
    frame[offset + 2] = blend_channel_exec(color[2], frame[offset + 2], alpha);
    frame[offset + 3] = 255;
}

/// Alpha-blends one foreground color into an existing RGBA framebuffer pixel.
///
/// The color channels become `(color * alpha + old * (255 - alpha)) / 255`
/// and the pixel ends up opaque; bytes past the first four are left alone.
pub fn blend_pixel(pixel: &mut [u8], color: [u8; 4], alpha: u8)
    requires
        old(pixel)@.len() >= 4,
    ensures
        final(pixel)@.len() == old(pixel)@.len(),
        forall|k: int| 0 <= k < 3 ==> final(pixel)@[k] == blend_channel(color[k], old(pixel)@[k], alpha),
        final(pixel)@[3] == 255,
        forall|k: int| 4 <= k < old(pixel)@.len() ==> final(pixel)@[k] == old(pixel)@[k],
{
    blend_at(pixel, 0, color, alpha);
}

/// The column of the pixel that frame byte `i` belongs to.
pub open spec fn pixel_col(i: int, width: int) -> int {
    (i / 4) % width
}

/// The row of the pixel that frame byte `i` belongs to.
pub open spec fn pixel_row(i: int, width: int) -> int {
    (i / 4) / width
}

/// Where a span that starts at `start` and is `extent` long ends once it is
/// clipped to `limit`.
pub open spec fn clipped_end(start: int, extent: int, limit: int) -> int {
    if start + extent < limit { start + extent } else { limit }
}

/// Frame byte `i` belongs to a pixel with column in `x .. max_x` and row in
/// `y .. max_y`.
pub open spec fn byte_in_rect(i: int, width: int, x: int, y: int, max_x: int, max_y: int) -> bool {
    &&& width > 0
    &&& x <= pixel_col(i, width) < max_x
    &&& y <= pixel_row(i, width) < max_y
}

/// The frame after the rectangle at `(x, y)` of the given size, clipped to
/// `width` by `height` pixels, is filled with `color`.
pub open spec fn rect_fill(
    frame: Seq<u8>,
    width: u32,
    height: u32,
    x: u32,
    y: u32,
    rect_width: u32,
    rect_height: u32,
    color: [u8; 4],
) -> Seq<u8> {
    let max_x = clipped_end(x as int, rect_width as int, width as int);
    let max_y = clipped_end(y as int, rect_height as int, height as int);
    Seq::new(
        frame.len(),
        |i: int|
            if byte_in_rect(i, width as int, x as int, y as int, max_x, max_y) {
                color[i % 4]
            } else {
                frame[i]
            },
    )
}

/// The clipped rectangle can be filled in a frame of `len` bytes: its edges
/// are representable, and every byte it touches lies in the frame at an
/// offset representable as a `u32`.
pub open spec fn rect_fits(
    len: int,
    width: u32,
    height: u32,
    x: u32,
    y: u32,
    rect_width: u32,
    rect_height: u32,
) -> bool {
    let max_x = clipped_end(x as int, rect_width as int, width as int);
    let max_y = clipped_end(y as int, rect_height as int, height as int);
    &&& x + rect_width <= u32::MAX
    &&& y + rect_height <= u32::MAX
    &&& (x < max_x && y < max_y) ==> {
        &&& 4 * ((max_y - 1) * width + max_x) <= len
        &&& 4 * ((max_y - 1) * width + max_x - 1) <= u32::MAX
    }
}

/// Byte `i` lies in pixel `(px, py)` exactly when it lies in the four bytes
/// that start at `4 * (py * width + px)`.
proof fn lemma_byte_of_pixel(i: int, width: int, px: int, py: int)
    requires
        0 <= px < width,
        0 <= py,
        0 <= i,
    ensures
        (pixel_col(i, width) == px && pixel_row(i, width) == py) <==> (4 * (py * width + px) <= i
            < 4 * (py * width + px) + 4),
{
    let q = py * width + px;
    lemma_fundamental_div_mod(i / 4, width);
    if 4 * q <= i < 4 * q + 4 {
        lemma_fundamental_div_mod_converse(i / 4, width, py, px);
    }
    assert(width * py == py * width) by (nonlinear_arith);
    if pixel_col(i, width) == px && pixel_row(i, width) == py {
        assert(i / 4 == py * width + px);
    }
}

/// Two bytes of one pixel share its column and row.
proof fn lemma_pixel_of_byte(i: int, width: int)
    requires
        width > 0,
        0 <= i,
    ensures
        0 <= pixel_col(i, width) < width,
        0 <= pixel_row(i, width),
        i / 4 == pixel_row(i, width) * width + pixel_col(i, width),
{
    lemma_fundamental_div_mod(i / 4, width);
    assert(width * pixel_row(i, width) == pixel_row(i, width) * width) by (nonlinear_arith);
    assert(pixel_row(i, width) >= 0) by (nonlinear_arith)
        requires i / 4 >= 0, width > 0, pixel_row(i, width) == (i / 4) / width;
}

/// The offset of the first byte of pixel `(px, py)`.
proof fn lemma_offset_bound(width: int, px: int, py: int, max_x: int, max_y: int)
    requires
        0 <= px < max_x,
        0 <= py < max_y,
        max_x <= width,
    ensures
        py * width + px <= (max_y - 1) * width + max_x - 1,
        0 <= py * width + px,
{
    assert(py * width <= (max_y - 1) * width) by (nonlinear_arith)
        requires py <= max_y - 1, width >= 0;
    assert(0 <= py * width) by (nonlinear_arith)
        requires py >= 0, width >= 0;
}

/// Fills a clipped rectangle in the framebuffer.
///
/// Every byte of a pixel whose column lies in `x .. min(x + rect_width, width)`
/// and whose row lies in `y .. min(y + rect_height, height)` takes the
/// matching channel of `color`; all other bytes keep their value.
pub fn fill_rect(
    frame: &mut [u8],
    width: u32,
    height: u32,
    x: u32,
    y: u32,
    rect_width: u32,
    rect_height: u32,
    color: [u8; 4],
)
    requires
        rect_fits(old(frame)@.len() as int, width, height, x, y, rect_width, rect_height),
    ensures
        final(frame)@ == rect_fill(old(frame)@, width, height, x, y, rect_width, rect_height, color),
{
    let ghost start = frame@;
    let max_y = if y + rect_height < height { y + rect_height } else { height };
    let max_x = if x + rect_width < width { x + rect_width } else { width };
    let ghost filled = rect_fill(start, width, height, x, y, rect_width, rect_height, color);
    let mut pixel_y = y;
    while pixel_y < max_y
        invariant
            y <= pixel_y,
            max_y == clipped_end(y as int, rect_height as int, height as int),
            max_x == clipped_end(x as int, rect_width as int, width as int),
            rect_fits(start.len() as int, width, height, x, y, rect_width, rect_height),
            filled == rect_fill(start, width, height, x, y, rect_width, rect_height, color),
            frame@.len() == start.len(),
            forall|i: int|
                0 <= i < start.len() ==> #[trigger] frame@[i] == if pixel_row(i, width as int)
                    < pixel_y { filled[i] } else { start[i] },
        decreases max_y - pixel_y,
    {
        let mut pixel_x = x;
        while pixel_x < max_x
            invariant
                y <= pixel_y < max_y,
                x <= pixel_x,
                max_y == clipped_end(y as int, rect_height as int, height as int),
                max_x == clipped_end(x as int, rect_width as int, width as int),
                rect_fits(start.len() as int, width, height, x, y, rect_width, rect_height),
                filled == rect_fill(start, width, height, x, y, rect_width, rect_height, color),
                frame@.len() == start.len(),
                forall|i: int|
                    0 <= i < start.len() ==> #[trigger] frame@[i] == if pixel_row(i, width as int)
                        < pixel_y || (pixel_row(i, width as int) == pixel_y && pixel_col(
                        i,
                        width as int,
                    ) < pixel_x) {
                        filled[i]
                    } else {
                        start[i]
                    },
            decreases max_x - pixel_x,
        {
            proof {
                lemma_offset_bound(width as int, pixel_x as int, pixel_y as int, max_x as int, max_y as int);
            }
            let offset = ((pixel_y * width + pixel_x) * 4) as usize;
            let ghost before = frame@;
            frame[offset] = color[0];
            frame[offset + 1] = color[1];
            frame[offset + 2] = color[2];
            frame[offset + 3] = color[3];
            proof {
                assert forall|i: int| 0 <= i < start.len() implies #[trigger] frame@[i] == if pixel_row(
                    i,
                    width as int,
                ) < pixel_y || (pixel_row(i, width as int) == pixel_y && pixel_col(i, width as int)
                    < pixel_x + 1) {
                    filled[i]
                } else {
                    start[i]
                } by {
                    lemma_byte_of_pixel(i, width as int, pixel_x as int, pixel_y as int);
                    lemma_pixel_of_byte(i, width as int);
                    if offset <= i < offset + 4 {
                        assert(i % 4 == i - offset);
                        assert(byte_in_rect(i, width as int, x as int, y as int, max_x as int, max_y as int));
                    } else {
                        assert(frame@[i] == before[i]);
                    }
                }
            }
            pixel_x = pixel_x + 1;
        }
        proof {
            assert forall|i: int| 0 <= i < start.len() implies #[trigger] frame@[i] == if pixel_row(
                i,
                width as int,
            ) < pixel_y + 1 {
                filled[i]
            } else {
                start[i]
            } by {
                if width > 0 {
                    lemma_pixel_of_byte(i, width as int);
                }
                if pixel_row(i, width as int) == pixel_y && pixel_col(i, width as int) >= max_x {
                    assert(!byte_in_rect(i, width as int, x as int, y as int, max_x as int, max_y as int));
                }
                if pixel_row(i, width as int) == pixel_y && pixel_col(i, width as int) < x {
                    assert(!byte_in_rect(i, width as int, x as int, y as int, max_x as int, max_y as int));
                }
            }
        }
        pixel_y = pixel_y + 1;
    }
    proof {
        assert forall|i: int| 0 <= i < start.len() implies #[trigger] frame@[i] == filled[i] by {
            if width > 0 {
                lemma_pixel_of_byte(i, width as int);
            }
            if pixel_row(i, width as int) >= pixel_y || width == 0 {
                assert(!byte_in_rect(i, width as int, x as int, y as int, max_x as int, max_y as int));
            }
        }
        assert(frame@ =~= filled);
    }
}

/// Vertical distance in pixels from the top of a cell to the text baseline.
pub const BASELINE: i64 = 14;

/// What a rasterized glyph is: a `width` by `height` bitmap of coverage
/// values, row by row, placed `xmin` pixels right of the pen and with its
/// bottom edge `ymin` pixels above the baseline.
pub struct GlyphShape {
    pub xmin: int,
    pub ymin: int,
    pub width: int,
    pub height: int,
    pub coverage: Seq<u8>,
}

impl GlyphShape {
    /// The coverage of the glyph pixel in row `row` and column `col`.
    pub open spec fn coverage_at(self, row: int, col: int) -> u8 {
        self.coverage[row * self.width + col]
    }
}

/// A rasterized glyph ready to be blended into a framebuffer.
pub struct Glyph {
    xmin: i32,
    ymin: i32,
    width: usize,
    height: usize,
    coverage: Vec<u8>,
}

impl View for Glyph {
    type V = GlyphShape;

    closed spec fn view(&self) -> GlyphShape {
        GlyphShape {
            xmin: self.xmin as int,
            ymin: self.ymin as int,
            width: self.width as int,
            height: self.height as int,
            coverage: self.coverage@,
        }
    }
}

impl Glyph {
    /// The bitmap holds exactly `width * height` coverage values and both
    /// sides fit in an `i32`.
    #[verifier::type_invariant]
    closed spec fn well_formed(self) -> bool {
        &&& self.coverage@.len() == self.width * self.height
        &&& self.width <= i32::MAX
        &&& self.height <= i32::MAX
    }

    /// Builds a glyph from its placement and its row-major coverage bitmap.
    ///
    /// Returns `None` when the bitmap does not hold exactly `width * height`
    /// values or a side does not fit in an `i32`.
    pub fn new(xmin: i32, ymin: i32, width: usize, height: usize, coverage: Vec<u8>) -> (r: Option<
        Glyph,
    >)
        ensures
            r is Some <==> (coverage@.len() == width * height && width <= i32::MAX && height
                <= i32::MAX),
            r matches Some(g) ==> g@ == (GlyphShape {
                xmin: xmin as int,
                ymin: ymin as int,
                width: width as int,
                height: height as int,
                coverage: coverage@,
            }),
    {
        let len = coverage.len();
        if width > 2147483647 || height > 2147483647 {
            return None;
        }
        match width.checked_mul(height) {
            Some(area) => {
                if area == len {
                    Some(Glyph { xmin, ymin, width, height, coverage })
                } else {
                    None
                }
            },
            None => None,
        }
    }

    /// The pixel width of the glyph bitmap.
    pub fn width(&self) -> (r: usize)
        ensures
            r == self@.width,
    {
        self.width
    }

    /// The pixel height of the glyph bitmap.
    pub fn height(&self) -> (r: usize)
        ensures
            r == self@.height,
    {
        self.height
    }
}

/// The framebuffer holds `width * height` pixels whose byte offsets are
/// representable as `u32`.
pub open spec fn frame_fits(len: int, width: u32, height: u32) -> bool {
    &&& 4 * width * height <= len
    &&& 4 * width * height <= u32::MAX
}

/// Byte `i` of the frame after glyph `g` is blended in in the foreground color
/// with its top left corner at pixel `(gx, gy)`, clipped to the frame.
pub open spec fn glyph_byte(
    frame: Seq<u8>,
    width: int,
    height: int,
    g: GlyphShape,
    gx: int,
    gy: int,
    i: int,
) -> u8 {
    let col = pixel_col(i, width) - gx;
    let row = pixel_row(i, width) - gy;
    if width > 0 && pixel_row(i, width) < height && 0 <= col < g.width && 0 <= row < g.height
        && g.coverage_at(row, col) != 0 {
        if i % 4 == 3 {
            255
        } else {
            blend_channel(FOREGROUND[i % 4], frame[i], g.coverage_at(row, col)) as u8
        }
    } else {
        frame[i]
    }
}

/// The frame after glyph `g` is blended in with its top left corner at pixel
/// `(gx, gy)`.
pub open spec fn glyph_pass(frame: Seq<u8>, width: int, height: int, g: GlyphShape, gx: int, gy: int) -> Seq<u8> {
    Seq::new(frame.len(), |i: int| glyph_byte(frame, width, height, g, gx, gy, i))
}

/// A drawn glyph reads its bitmap row by row: the frame pixel in column
/// `gx + c` and row `gy + r` of the glyph's box, inside the frame, takes the
/// coverage `a = coverage[r * width + c]` of the glyph; where `a` is not zero
/// its color channels become the foreground blended over the frame with
/// weight `a` out of 255 and its alpha channel becomes opaque. Every other
/// byte keeps its value.
pub proof fn lemma_glyph_pixel(frame: Seq<u8>, width: int, height: int, g: GlyphShape, gx: int, gy: int, i: int)
    requires
        0 <= i < frame.len(),
        width > 0,
    ensures
        ({
            let c = (i / 4) % width - gx;
            let r = (i / 4) / width - gy;
            let inside = (i / 4) / width < height && 0 <= c < g.width && 0 <= r < g.height;
            let a = g.coverage[r * g.width + c];
            glyph_pass(frame, width, height, g, gx, gy)[i] == if inside && a != 0 {
                if i % 4 == 3 {
                    255
                } else {
                    ((FOREGROUND[i % 4] * a + frame[i] * (255 - a)) / 255) as u8
                }
            } else {
                frame[i]
            }
        }),
{
}

/// A single glyph drawn from a cell at `(x, y)` is placed with its left edge
/// `xmin` pixels right of `x` and its bottom edge `ymin` pixels above the
/// baseline, which lies `BASELINE` pixels below `y`.
pub proof fn lemma_single_glyph_placement(frame: Seq<u8>, width: int, height: int, g: GlyphShape, x: int, y: int)
    ensures
        text_pass(frame, width, height, seq![g], x, y) == glyph_pass(
            frame,
            width,
            height,
            g,
            x + g.xmin,
            y + 14 - g.height - g.ymin,
        ),
{
    assert(seq![g].drop_last() =~= Seq::<GlyphShape>::empty());
    assert(text_pass(frame, width, height, Seq::<GlyphShape>::empty(), x, y) == frame);
    assert(seq![g][0] == g);
}

proof fn lemma_coverage_index(row: int, col: int, width: int, height: int)
    requires
        0 <= row < height,
        0 <= col < width,
    ensures
        0 <= row * width,
        0 <= row * width + col < width * height,
{
    assert(0 <= row * width) by (nonlinear_arith)
        requires 0 <= row, 0 <= col < width;
    assert(0 <= row * width + col < width * height) by (nonlinear_arith)
        requires 0 <= row < height, 0 <= col < width;
}

proof fn lemma_frame_offset(width: int, height: int, px: int, py: int)
    requires
        0 <= px < width,
        0 <= py < height,
    ensures
        0 <= py * width + px,
        4 * (py * width + px) + 4 <= 4 * width * height,
{
    lemma_offset_bound(width, px, py, width, height);
    assert((height - 1) * width + width == width * height) by (nonlinear_arith);
    assert(4 * width * height == 4 * (width * height)) by (nonlinear_arith);
}

/// Blends one glyph into the frame with its top left corner at pixel
/// `(glyph_x, glyph_y)`, skipping pixels outside the frame and transparent
/// pixels of the glyph.
fn draw_glyph(frame: &mut [u8], width: u32, height: u32, glyph: &Glyph, glyph_x: i64, glyph_y: i64)
    requires
        frame_fits(old(frame)@.len() as int, width, height),
        -0x100_0000_0000 <= glyph_x <= 0x100_0000_0000,
        -0x100_0000_0000 <= glyph_y <= 0x100_0000_0000,
    ensures
        final(frame)@ == glyph_pass(old(frame)@, width as int, height as int, glyph@, glyph_x as int, glyph_y as int),
{
    proof {
        use_type_invariant(glyph);
    }
    let ghost start = frame@;
    let ghost g = glyph@;
    let ghost pass = glyph_pass(start, width as int, height as int, g, glyph_x as int, glyph_y as int);
    let glyph_width = glyph.width;
    let glyph_height = glyph.height;
    let coverage_len = glyph.coverage.len();
    let mut glyph_row: usize = 0;
    while glyph_row < glyph_height
        invariant
            glyph_width == g.width,
            glyph_height == g.height,
            g == glyph@,
            g.coverage.len() == g.width * g.height,
            glyph.coverage@ == g.coverage,
            coverage_len == g.coverage.len(),
            glyph_width <= i32::MAX,
            glyph_height <= i32::MAX,
            glyph_row <= glyph_height,
            -0x100_0000_0000 <= glyph_x <= 0x100_0000_0000,
            -0x100_0000_0000 <= glyph_y <= 0x100_0000_0000,
            frame_fits(start.len() as int, width, height),
            pass == glyph_pass(start, width as int, height as int, g, glyph_x as int, glyph_y as int),
            frame@.len() == start.len(),
            forall|i: int|
                0 <= i < start.len() ==> #[trigger] frame@[i] == if pixel_row(i, width as int)
                    - glyph_y < glyph_row { pass[i] } else { start[i] },
        decreases glyph_height - glyph_row,
    {
        let mut glyph_col: usize = 0;
        while glyph_col < glyph_width
            invariant
                glyph_width == g.width,
                glyph_height == g.height,
                g == glyph@,
                g.coverage.len() == g.width * g.height,
                glyph.coverage@ == g.coverage,
                coverage_len == g.coverage.len(),
                glyph_width <= i32::MAX,
                glyph_height <= i32::MAX,
                glyph_row < glyph_height,
                glyph_col <= glyph_width,
                -0x100_0000_0000 <= glyph_x <= 0x100_0000_0000,
                -0x100_0000_0000 <= glyph_y <= 0x100_0000_0000,
                frame_fits(start.len() as int, width, height),
                pass == glyph_pass(start, width as int, height as int, g, glyph_x as int, glyph_y as int),
                frame@.len() == start.len(),
                forall|i: int|
                    0 <= i < start.len() ==> #[trigger] frame@[i] == if pixel_row(i, width as int)
                        - glyph_y < glyph_row || (pixel_row(i, width as int) - glyph_y == glyph_row
                        && pixel_col(i, width as int) - glyph_x < glyph_col) {
                        pass[i]
                    } else {
                        start[i]
                    },
            decreases glyph_width - glyph_col,
        {
            proof {
                lemma_coverage_index(glyph_row as int, glyph_col as int, glyph_width as int, glyph_height as int);
            }
            let alpha = glyph.coverage[glyph_row * glyph_width + glyph_col];
            let pixel_x = glyph_x + glyph_col as i64;
            let pixel_y = glyph_y + glyph_row as i64;
            let ghost before = frame@;
            let inside = !(pixel_x < 0 || pixel_y < 0 || pixel_x >= width as i64 || pixel_y
                >= height as i64);
            if alpha != 0 && inside {
                proof {
                    lemma_frame_offset(width as int, height as int, pixel_x as int, pixel_y as int);
                }
                let offset = (((pixel_y as u32) * width + (pixel_x as u32)) * 4) as usize;
                blend_at(frame, offset, FOREGROUND, alpha);
            }
            proof {
                assert forall|i: int| 0 <= i < start.len() implies #[trigger] frame@[i] == if pixel_row(
                    i,
                    width as int,
                ) - glyph_y < glyph_row || (pixel_row(i, width as int) - glyph_y == glyph_row
                    && pixel_col(i, width as int) - glyph_x < glyph_col + 1) {
                    pass[i]
                } else {
                    start[i]
                } by {
                    if width > 0 {
                        lemma_pixel_of_byte(i, width as int);
                    }
                    let here = width > 0 && pixel_row(i, width as int) == pixel_y && pixel_col(
                        i,
                        width as int,
                    ) == pixel_x;
                    if inside {
                        lemma_byte_of_pixel(i, width as int, pixel_x as int, pixel_y as int);
                        let offset = 4 * (pixel_y * width + pixel_x);
                        if here {
                            assert(i % 4 == i - offset);
                            assert(g.coverage_at(glyph_row as int, glyph_col as int) == alpha);
                        } else if alpha != 0 {
                            assert(frame@[i] == before[i]);
                        }
                    }
                }
            }
            glyph_col = glyph_col + 1;
        }
        glyph_row = glyph_row + 1;
    }
    proof {
        assert forall|i: int| 0 <= i < start.len() implies #[trigger] frame@[i] == pass[i] by {
            if width > 0 {
                lemma_pixel_of_byte(i, width as int);
            }
        }
        assert(frame@ =~= pass);
    }
}

/// What a sequence of glyphs is.
pub open spec fn glyph_shapes(glyphs: Seq<Glyph>) -> Seq<GlyphShape> {
    glyphs.map_values(|g: Glyph| g@)
}

/// The frame after a run of glyphs is drawn left to right from a cell whose
/// top left corner is at pixel `(x, y)`: glyph `k` is blended in with the pen
/// at `x + k * CELL_WIDTH`, placed by its own offsets around the baseline
/// `y + BASELINE`.
pub open spec fn text_pass(
    frame: Seq<u8>,
    width: int,
    height: int,
    glyphs: Seq<GlyphShape>,
    x: int,
    y: int,
) -> Seq<u8>
    decreases glyphs.len(),
{
    if glyphs.len() == 0 {
        frame
    } else {
        let k = glyphs.len() - 1;
        let g = glyphs[k];
        glyph_pass(
            text_pass(frame, width, height, glyphs.drop_last(), x, y),
            width,
            height,
            g,
            x + CELL_WIDTH * k + g.xmin,
            y + BASELINE - g.height - g.ymin,
        )
    }
}

/// Drawing text keeps the length of the frame.
pub proof fn lemma_text_pass_len(
    frame: Seq<u8>,
    width: int,
    height: int,
    glyphs: Seq<GlyphShape>,
    x: int,
    y: int,
)
    ensures
        text_pass(frame, width, height, glyphs, x, y).len() == frame.len(),
    decreases glyphs.len(),
{
    if glyphs.len() > 0 {
        lemma_text_pass_len(frame, width, height, glyphs.drop_last(), x, y);
    }
}

/// Drawing the glyphs of `s` followed by those of `t` from `x` is drawing
/// `s` from `x`, then `t` from `x + CELL_WIDTH * |s|`: each character moves
/// the pen by exactly one cell.
pub proof fn lemma_text_pass_concat(
    frame: Seq<u8>,
    width: int,
    height: int,
    s: Seq<GlyphShape>,
    t: Seq<GlyphShape>,
    x: int,
    y: int,
)
    ensures
        text_pass(frame, width, height, s + t, x, y) == text_pass(
            text_pass(frame, width, height, s, x, y),
            width,
            height,
            t,
            x + CELL_WIDTH * s.len(),
            y,
        ),
    decreases t.len(),
{
    if t.len() == 0 {
        assert(s + t =~= s);
    } else {
        lemma_text_pass_concat(frame, width, height, s, t.drop_last(), x, y);
        assert((s + t).drop_last() =~= s + t.drop_last());
        assert((s + t)[(s + t).len() - 1] == t[t.len() - 1]);
        assert(x + CELL_WIDTH * ((s + t).len() - 1) == x + CELL_WIDTH * s.len() + CELL_WIDTH * (t.len()
            - 1));
    }
}

/// Rasterized text, one glyph per character, blended into the framebuffer
/// from a terminal cell origin with a fixed-width pen advance.
pub fn draw_text(frame: &mut [u8], width: u32, height: u32, glyphs: &[Glyph], x: u32, y: u32)
    requires
        frame_fits(old(frame)@.len() as int, width, height),
        x + CELL_WIDTH * glyphs@.len() <= u32::MAX,
    ensures
        final(frame)@ == text_pass(old(frame)@, width as int, height as int, glyph_shapes(glyphs@), x as int, y as int),
{
    let ghost start = frame@;
    let ghost shapes = glyph_shapes(glyphs@);
    let mut pen_x = x;
    let mut k: usize = 0;
    while k < glyphs.len()
        invariant
            k <= glyphs@.len(),
            pen_x == x + CELL_WIDTH * k,
            x + CELL_WIDTH * glyphs@.len() <= u32::MAX,
            shapes == glyph_shapes(glyphs@),
            frame_fits(start.len() as int, width, height),
            frame@ == text_pass(start, width as int, height as int, shapes.take(k as int), x as int, y as int),
        decreases glyphs@.len() - k,
    {
        let glyph = &glyphs[k];
        proof {
            use_type_invariant(glyph);
            lemma_text_pass_len(start, width as int, height as int, shapes.take(k as int), x as int, y as int);
        }
        let glyph_x = pen_x as i64 + glyph.xmin as i64;
        let baseline_y = y as i64 + BASELINE;
        let glyph_y = baseline_y - glyph.height as i64 - glyph.ymin as i64;
        draw_glyph(frame, width, height, glyph, glyph_x, glyph_y);
        proof {
            assert(shapes.take(k + 1).drop_last() =~= shapes.take(k as int));
            assert(shapes.take(k + 1)[k as int] == glyph@);
        }
        pen_x = pen_x + CELL_WIDTH;
        k = k + 1;
    }
    proof {
        assert(shapes.take(glyphs@.len() as int) =~= shapes);
    }
}

/// Most characters a cell can carry.
pub const CELL_TEXT_MAX: usize = 65535;

/// `c` has the Unicode `White_Space` property.
pub open spec fn is_whitespace(c: char) -> bool {
    let v = c as u32;
    ||| 0x09 <= v <= 0x0D
    ||| v == 0x20
    ||| v == 0x85
    ||| v == 0xA0
    ||| v == 0x1680
    ||| 0x2000 <= v <= 0x200A
    ||| v == 0x2028
    ||| v == 0x2029
    ||| v == 0x202F
    ||| v == 0x205F
    ||| v == 0x3000
}

/// Text that trims down to nothing: every character is whitespace.
pub open spec fn is_blank(text: Seq<char>) -> bool {
    forall|k: int| 0 <= k < text.len() ==> is_whitespace(#[trigger] text[k])
}

/// Whether `c` has the Unicode `White_Space` property.
pub fn char_is_whitespace(c: char) -> (r: bool)
    ensures
        r == is_whitespace(c),
{
    let v = c as u32;
    (0x09 <= v && v <= 0x0D) || v == 0x20 || v == 0x85 || v == 0xA0 || v == 0x1680 || (0x2000 <= v
        && v <= 0x200A) || v == 0x2028 || v == 0x2029 || v == 0x202F || v == 0x205F || v == 0x3000
}

/// Whether the text is empty once surrounding whitespace is trimmed.
pub fn text_is_blank(text: &[char]) -> (r: bool)
    ensures
        r == is_blank(text@),
{
    let mut k: usize = 0;
    while k < text.len()
        invariant
            k <= text@.len(),
            forall|j: int| 0 <= j < k ==> is_whitespace(#[trigger] text@[j]),
        decreases text@.len() - k,
    {
        if !char_is_whitespace(text[k]) {
            return false;
        }
        k = k + 1;
    }
    true
}

/// What a screen cell is: its text and the glyphs rasterized for it.
pub struct CellShape {
    pub contents: Seq<char>,
    pub glyphs: Seq<GlyphShape>,
}

/// One terminal cell ready to draw: its text and one rasterized glyph per
/// character of it.
pub struct ScreenCell {
    contents: Vec<char>,
    glyphs: Vec<Glyph>,
}

impl View for ScreenCell {
    type V = CellShape;

    closed spec fn view(&self) -> CellShape {
        CellShape { contents: self.contents@, glyphs: glyph_shapes(self.glyphs@) }
    }
}

impl ScreenCell {
    /// One glyph per character, and no more than `CELL_TEXT_MAX` of them.
    #[verifier::type_invariant]
    closed spec fn well_formed(self) -> bool {
        &&& self.glyphs@.len() == self.contents@.len()
        &&& self.contents@.len() <= CELL_TEXT_MAX
    }

    /// Builds a cell from its text and the glyph of each of its characters.
    ///
    /// Returns `None` when the glyph count differs from the character count
    /// or exceeds `CELL_TEXT_MAX`.
    pub fn new(contents: Vec<char>, glyphs: Vec<Glyph>) -> (r: Option<ScreenCell>)
        ensures
            r is Some <==> (glyphs@.len() == contents@.len() && contents@.len() <= CELL_TEXT_MAX),
            r matches Some(c) ==> c@ == (CellShape {
                contents: contents@,
                glyphs: glyph_shapes(glyphs@),
            }),
    {
        if glyphs.len() == contents.len() && contents.len() <= CELL_TEXT_MAX {
            Some(ScreenCell { contents, glyphs })
        } else {
            None
        }
    }
}

/// What a screen is: its size, cursor and cells in row-major order.
pub struct ScreenShape {
    pub rows: int,
    pub cols: int,
    pub cursor_row: int,
    pub cursor_col: int,
    pub cells: Seq<CellShape>,
}

impl ScreenShape {
    /// Size and cursor fit in a `u16`, and there is one cell per row and
    /// column.
    pub open spec fn well_formed(self) -> bool {
        &&& 0 <= self.rows <= 65535
        &&& 0 <= self.cols <= 65535
        &&& 0 <= self.cursor_row <= 65535
        &&& 0 <= self.cursor_col <= 65535
        &&& self.cells.len() == self.rows * self.cols
    }
}

/// The parsed terminal screen, ready to draw.
pub struct ScreenView {
    rows: u16,
    cols: u16,
    cursor_row: u16,
    cursor_col: u16,
    cells: Vec<ScreenCell>,
}

impl View for ScreenView {
    type V = ScreenShape;

    closed spec fn view(&self) -> ScreenShape {
        ScreenShape {
            rows: self.rows as int,
            cols: self.cols as int,
            cursor_row: self.cursor_row as int,
            cursor_col: self.cursor_col as int,
            cells: self.cells@.map_values(|c: ScreenCell| c@),
        }
    }
}

impl ScreenView {
    /// One cell per row and column.
    #[verifier::type_invariant]
    closed spec fn well_formed(self) -> bool {
        self.cells@.len() == self.rows * self.cols
    }

    /// Builds a screen of `rows` by `cols` cells, given in row-major order,
    /// with the cursor at `(cursor_row, cursor_col)`.
    ///
    /// Returns `None` when there are not exactly `rows * cols` cells.
    pub fn new(rows: u16, cols: u16, cursor_row: u16, cursor_col: u16, cells: Vec<ScreenCell>) -> (r:
        Option<ScreenView>)
        ensures
            r is Some <==> cells@.len() == rows * cols,
            r matches Some(s) ==> s@.well_formed(),
            r matches Some(s) ==> s@ == (ScreenShape {
                rows: rows as int,
                cols: cols as int,
                cursor_row: cursor_row as int,
                cursor_col: cursor_col as int,
                cells: cells@.map_values(|c: ScreenCell| c@),
            }),
    {
        assert((rows as int) * (cols as int) <= 65535 * 65535) by (nonlinear_arith)
            requires rows <= 65535, cols <= 65535;
        let count = (rows as usize) * (cols as usize);
        if cells.len() == count {
            Some(ScreenView { rows, cols, cursor_row, cursor_col, cells })
        } else {
            None
        }
    }
}

impl ScreenView {
    /// Builds the drawable screen from the text of a parsed screen and the
    /// glyphs rasterized for each cell, one list per cell in row-major order
    /// with one glyph per character.
    ///
    /// Keeps the size, cursor and text of `text`; returns `None` when the
    /// glyph lists do not match the cells one for one.
    pub fn from_text(text: ScreenText, glyphs: Vec<Vec<Glyph>>) -> (r: Option<ScreenView>)
        ensures
            r is Some <==> (glyphs@.len() == text@.cells.len() && forall|i: int|
                0 <= i < glyphs@.len() ==> #[trigger] glyphs@[i]@.len() == text@.cells[i].len()),
            r matches Some(v) ==> {
                &&& v@.well_formed()
                &&& v@.rows == text@.rows
                &&& v@.cols == text@.cols
                &&& v@.cursor_row == text@.cursor_row
                &&& v@.cursor_col == text@.cursor_col
                &&& v@.cells.len() == text@.cells.len()
                &&& forall|i: int|
                    0 <= i < v@.cells.len() ==> #[trigger] v@.cells[i] == (CellShape {
                        contents: text@.cells[i],
                        glyphs: glyph_shapes(glyphs@[i]@),
                    })
            },
    {
        let ghost shape = text@;
        let ghost all_glyphs = glyphs@;
        let (rows, cols, cursor_row, cursor_col, mut contents) = text.into_parts();
        let ghost all_contents = contents@;
        let mut pending = glyphs;
        let n = contents.len();
        if pending.len() != n {
            return None;
        }
        proof {
            assert forall|i: int| 0 <= i < n implies #[trigger] all_contents[i]@ == shape.cells[i] by {
                assert(all_contents.map_values(|v: Vec<char>| v@)[i] == all_contents[i]@);
            }
        }
        let mut reversed: Vec<ScreenCell> = Vec::new();
        while contents.len() > 0
            invariant
                n == all_contents.len(),
                n == all_glyphs.len(),
                n == shape.cells.len(),
                forall|i: int| 0 <= i < n ==> #[trigger] all_contents[i]@ == shape.cells[i],
                forall|i: int| 0 <= i < n ==> #[trigger] all_contents[i]@.len() <= CELL_TEXT_MAX,
                shape == text@,
                all_glyphs == glyphs@,
                contents@.len() == pending@.len(),
                contents@.len() + reversed@.len() == n,
                contents@ == all_contents.take(contents@.len() as int),
                pending@ == all_glyphs.take(pending@.len() as int),
                forall|i: int| contents@.len() <= i < n ==> #[trigger] all_glyphs[i]@.len() == shape.cells[i].len(),
                forall|k: int|
                    0 <= k < reversed@.len() ==> #[trigger] reversed@[k]@ == (CellShape {
                        contents: shape.cells[n - 1 - k],
                        glyphs: glyph_shapes(all_glyphs[n - 1 - k]@),
                    }),
            decreases contents@.len(),
        {
            let ghost i = contents@.len() - 1;
            let chars = match contents.pop() {
                Some(chars) => chars,
                None => return None,
            };
            let cell_glyphs = match pending.pop() {
                Some(g) => g,
                None => return None,
            };
            proof {
                assert(chars == all_contents[i]);
                assert(cell_glyphs == all_glyphs[i]);
                assert(contents@ =~= all_contents.take(contents@.len() as int));
                assert(pending@ =~= all_glyphs.take(pending@.len() as int));
            }
            match ScreenCell::new(chars, cell_glyphs) {
                Some(cell) => {
                    reversed.push(cell);
                },
                None => {
                    proof {
                        assert(all_glyphs[i]@.len() != shape.cells[i].len());
                    }
                    return None;
                },
            }
        }
        let ghost backwards = reversed@;
        let mut cells: Vec<ScreenCell> = Vec::new();
        while reversed.len() > 0
            invariant
                n == backwards.len(),
                cells@.len() + reversed@.len() == n,
                reversed@ == backwards.take(reversed@.len() as int),
                forall|j: int| 0 <= j < cells@.len() ==> #[trigger] cells@[j] == backwards[n - 1 - j],
            decreases reversed@.len(),
        {
            let cell = match reversed.pop() {
                Some(cell) => cell,
                None => return None,
            };
            proof {
                assert(reversed@ =~= backwards.take(reversed@.len() as int));
            }
            cells.push(cell);
        }
        proof {
            assert(rows * cols == n);
        }
        let view = ScreenView::new(rows, cols, cursor_row, cursor_col, cells);
        proof {
            assert forall|i: int| 0 <= i < n implies #[trigger] cells@[i]@ == (CellShape {
                contents: shape.cells[i],
                glyphs: glyph_shapes(all_glyphs[i]@),
            }) by {
                let k = n - 1 - i;
                assert(cells@[i] == backwards[k]);
                assert(backwards[k]@ == (CellShape {
                    contents: shape.cells[n - 1 - k],
                    glyphs: glyph_shapes(all_glyphs[n - 1 - k]@),
                }));
                assert(n - 1 - k == i);
            }
        }
        view
    }
}

/// The frame with every whole pixel painted in the background color; a
/// trailing partial pixel keeps its bytes.
pub open spec fn cleared(frame: Seq<u8>) -> Seq<u8> {
    Seq::new(
        frame.len(),
        |i: int|
            if i < frame.len() - frame.len() % 4 {
                BACKGROUND[i % 4]
            } else {
                frame[i]
            },
    )
}

/// The pixel column where the cell in column `col` starts.
pub open spec fn cell_x(col: int) -> int {
    PADDING + col * CELL_WIDTH
}

/// The pixel row where the cell in row `row` starts.
pub open spec fn cell_y(row: int) -> int {
    PADDING + row * CELL_HEIGHT
}

/// The frame after the cell at `(row, col)` is drawn: the cursor cell is
/// filled first, then non-blank text is blended on top.
pub open spec fn cell_pass(frame: Seq<u8>, width: u32, height: u32, screen: ScreenShape, row: int, col: int) -> Seq<u8> {
    let with_cursor = if row == screen.cursor_row && col == screen.cursor_col {
        rect_fill(
            frame,
            width,
            height,
            cell_x(col) as u32,
            cell_y(row) as u32,
            CELL_WIDTH,
            CELL_HEIGHT,
            CURSOR,
        )
    } else {
        frame
    };
    let cell = screen.cells[row * screen.cols + col];
    if is_blank(cell.contents) {
        with_cursor
    } else {
        text_pass(with_cursor, width as int, height as int, cell.glyphs, cell_x(col), cell_y(row))
    }
}

/// The frame after the first `n` cells, in row-major order, are drawn.
pub open spec fn cells_pass(frame: Seq<u8>, width: u32, height: u32, screen: ScreenShape, n: nat) -> Seq<u8>
    decreases n,
{
    if n == 0 {
        frame
    } else {
        let k = n - 1;
        cell_pass(
            cells_pass(frame, width, height, screen, (n - 1) as nat),
            width,
            height,
            screen,
            k / screen.cols,
            k % screen.cols,
        )
    }
}

/// The frame after the whole screen is drawn over a cleared background.
pub open spec fn terminal_frame(frame: Seq<u8>, width: u32, height: u32, screen: ScreenShape) -> Seq<u8> {
    cells_pass(cleared(frame), width, height, screen, (screen.rows * screen.cols) as nat)
}

/// Paints every whole pixel of the frame in the background color.
#[verifier::spinoff_prover]
#[verifier::rlimit(40)]
fn clear_frame(frame: &mut [u8])
    ensures
        final(frame)@ == cleared(old(frame)@),
{
    let ghost start = frame@;
    let len = frame.len();
    let end = len - len % 4;
    let mut offset: usize = 0;
    while offset < end
        invariant
            len == start.len(),
            end == len - len % 4,
            offset <= end,
            offset % 4 == 0,
            frame@.len() == len,
            forall|i: int|
                0 <= i < len ==> #[trigger] frame@[i] == if i < offset {
                    cleared(start)[i]
                } else {
                    start[i]
                },
        decreases end - offset,
    {
        frame[offset] = BACKGROUND[0];
        frame[offset + 1] = BACKGROUND[1];
        frame[offset + 2] = BACKGROUND[2];
        frame[offset + 3] = BACKGROUND[3];
        proof {
            assert forall|i: int| 0 <= i < len implies #[trigger] frame@[i] == if i < offset + 4 {
                cleared(start)[i]
            } else {
                start[i]
            } by {
                if offset <= i < offset + 4 {
                    assert(i % 4 == i - offset);
                }
            }
        }
        offset = offset + 4;
    }
    proof {
        assert(frame@ =~= cleared(start));
    }
}

proof fn lemma_cell_rect_fits(len: int, width: u32, height: u32, row: int, col: int)
    requires
        frame_fits(len, width, height),
        0 <= row <= 65535,
        0 <= col <= 65535,
    ensures
        rect_fits(len, width, height, cell_x(col) as u32, cell_y(row) as u32, CELL_WIDTH, CELL_HEIGHT),
{
    let x = cell_x(col);
    let y = cell_y(row);
    let max_x = clipped_end(x, CELL_WIDTH as int, width as int);
    let max_y = clipped_end(y, CELL_HEIGHT as int, height as int);
    if x < max_x && y < max_y {
        assert((max_y - 1) * width <= (height - 1) * width) by (nonlinear_arith)
            requires max_y <= height, width >= 0;
        assert((height - 1) * width + width == 4 * width * height / 4) by (nonlinear_arith);
    }
}

proof fn lemma_cell_index(row: int, col: int, rows: int, cols: int)
    requires
        0 <= row < rows,
        0 <= col < cols,
    ensures
        0 <= row * cols + col < rows * cols,
        (row * cols + col) / cols == row,
        (row * cols + col) % cols == col,
        row * cols + col + 1 <= rows * cols,
{
    lemma_coverage_index(row, col, cols, rows);
    lemma_fundamental_div_mod_converse(row * cols + col, cols, row, col);
    assert(rows * cols == cols * rows) by (nonlinear_arith);
}

/// Draws the parsed terminal screen into the RGBA framebuffer.
///
/// The frame is cleared first, then each cell is visited row by row: the
/// cursor cell is filled before its glyphs so text remains visible on top of
/// it, and each non-blank cell's glyphs are blended in with a fixed-width pen
/// advance from the cell origin.
pub fn draw_terminal(frame: &mut [u8], width: u32, height: u32, screen: &ScreenView)
    requires
        frame_fits(old(frame)@.len() as int, width, height),
    ensures
        final(frame)@ == terminal_frame(old(frame)@, width, height, screen@),
{
    proof {
        use_type_invariant(screen);
    }
    let ghost start = frame@;
    let ghost shape = screen@;
    clear_frame(frame);
    let rows = screen.rows;
    let cols = screen.cols;
    let mut row: u16 = 0;
    while row < rows
        invariant
            rows == shape.rows,
            cols == shape.cols,
            shape == screen@,
            screen.cells@.len() == rows * cols,
            row <= rows,
            frame_fits(start.len() as int, width, height),
            frame@ == cells_pass(cleared(start), width, height, shape, (row * cols) as nat),
        decreases rows - row,
    {
        let mut col: u16 = 0;
        while col < cols
            invariant
                rows == shape.rows,
                cols == shape.cols,
                shape == screen@,
                screen.cells@.len() == rows * cols,
                row < rows,
                col <= cols,
                frame_fits(start.len() as int, width, height),
                frame@ == cells_pass(cleared(start), width, height, shape, (row * cols + col) as nat),
            decreases cols - col,
        {
            proof {
                lemma_cell_index(row as int, col as int, rows as int, cols as int);
                lemma_cells_pass_len(cleared(start), width, height, shape, (row * cols + col) as nat);
            }
            let ghost before = frame@;
            let x = PADDING + (col as u32) * CELL_WIDTH;
            let y = PADDING + (row as u32) * CELL_HEIGHT;
            if row == screen.cursor_row && col == screen.cursor_col {
                proof {
                    lemma_cell_rect_fits(before.len() as int, width, height, row as int, col as int);
                }
                fill_rect(frame, width, height, x, y, CELL_WIDTH, CELL_HEIGHT, CURSOR);
            }
            proof {
                assert((row as int) * (cols as int) <= 65535 * 65535) by (nonlinear_arith)
                    requires row <= 65535, cols <= 65535;
            }
            let index = (row as usize) * (cols as usize) + (col as usize);
            let cell = &screen.cells[index];
            proof {
                use_type_invariant(cell);
                assert(shape.cells[index as int] == cell@);
            }
            if !text_is_blank(cell.contents.as_slice()) {
                draw_text(frame, width, height, cell.glyphs.as_slice(), x, y);
            }
            proof {
                assert(cell@.contents == cell.contents@);
            }
            col = col + 1;
        }
        proof {
            assert((row + 1) * cols == row * cols + cols) by (nonlinear_arith);
        }
        row = row + 1;
    }
}

/// The cell in row `row` and column `col` is drawn with its top left corner at
/// pixel `(PADDING + col * CELL_WIDTH, PADDING + row * CELL_HEIGHT)`: rows sit
/// one `CELL_HEIGHT` apart and columns one `CELL_WIDTH` apart. The cursor cell
/// is filled there as a `CELL_WIDTH` by `CELL_HEIGHT` block, and the text of a
/// non-blank cell is drawn from there on top.
pub proof fn lemma_cell_origin(frame: Seq<u8>, width: u32, height: u32, screen: ScreenShape, row: int, col: int)
    ensures
        cell_pass(frame, width, height, screen, row, col) == ({
            let x = PADDING + col * CELL_WIDTH;
            let y = PADDING + row * CELL_HEIGHT;
            let with_cursor = if row == screen.cursor_row && col == screen.cursor_col {
                rect_fill(frame, width, height, x as u32, y as u32, CELL_WIDTH, CELL_HEIGHT, CURSOR)
            } else {
                frame
            };
            let cell = screen.cells[row * screen.cols + col];
            if is_blank(cell.contents) {
                with_cursor
            } else {
                text_pass(with_cursor, width as int, height as int, cell.glyphs, x, y)
            }
        }),
{
}

/// Cells are drawn in row-major order: after the cells before `(row, col)`
/// are drawn, the next one drawn is the cell in row `row` and column `col`.
pub proof fn lemma_cells_row_major(frame: Seq<u8>, width: u32, height: u32, screen: ScreenShape, row: int, col: int)
    requires
        0 <= row < screen.rows,
        0 <= col < screen.cols,
    ensures
        cells_pass(frame, width, height, screen, (row * screen.cols + col + 1) as nat) == cell_pass(
            cells_pass(frame, width, height, screen, (row * screen.cols + col) as nat),
            width,
            height,
            screen,
            row,
            col,
        ),
{
    lemma_cell_index(row, col, screen.rows, screen.cols);
    assert((row * screen.cols + col + 1) as nat - 1 == (row * screen.cols + col) as nat);
}

/// Text drawn from `(x, y)` whose glyphs each lie, vertically, within pixel
/// rows `top .. bottom` leaves every byte of a pixel outside those rows as it
/// was.
pub proof fn lemma_text_pass_rows(
    frame: Seq<u8>,
    width: int,
    height: int,
    glyphs: Seq<GlyphShape>,
    x: int,
    y: int,
    top: int,
    bottom: int,
)
    requires
        width > 0,
        forall|k: int|
            0 <= k < glyphs.len() ==> top <= y + 14 - (#[trigger] glyphs[k]).height - glyphs[k].ymin
                && y + 14 - glyphs[k].ymin <= bottom,
    ensures
        forall|i: int|
            0 <= i < frame.len() && ((i / 4) / width < top || (i / 4) / width >= bottom) ==> #[trigger] text_pass(
                frame,
                width,
                height,
                glyphs,
                x,
                y,
            )[i] == frame[i],
    decreases glyphs.len(),
{
    if glyphs.len() > 0 {
        let k = glyphs.len() - 1;
        let g = glyphs[k];
        let prev = text_pass(frame, width, height, glyphs.drop_last(), x, y);
        assert forall|j: int| 0 <= j < glyphs.drop_last().len() implies top <= y + 14 - (
        #[trigger] glyphs.drop_last()[j]).height - glyphs.drop_last()[j].ymin && y + 14
            - glyphs.drop_last()[j].ymin <= bottom by {
            assert(glyphs.drop_last()[j] == glyphs[j]);
        }
        lemma_text_pass_rows(frame, width, height, glyphs.drop_last(), x, y, top, bottom);
        lemma_text_pass_len(frame, width, height, glyphs.drop_last(), x, y);
        assert(top <= y + 14 - g.height - g.ymin && y + 14 - g.ymin <= bottom);
        assert forall|i: int|
            0 <= i < frame.len() && ((i / 4) / width < top || (i / 4) / width >= bottom) implies #[trigger] text_pass(
            frame,
            width,
            height,
            glyphs,
            x,
            y,
        )[i] == frame[i] by {
            assert(prev[i] == frame[i]);
        }
    }
}

/// Each cell touches only its own band of `CELL_HEIGHT` pixel rows, the one
/// from `PADDING + row * CELL_HEIGHT` down, so distinct rows never draw over
/// each other: every byte of a pixel outside the band keeps its value, as long
/// as the cell's glyphs fit vertically in a cell around the baseline.
pub proof fn lemma_cell_stays_in_its_rows(
    frame: Seq<u8>,
    width: u32,
    height: u32,
    screen: ScreenShape,
    row: int,
    col: int,
)
    requires
        width > 0,
        0 <= row <= 65535,
        0 <= col <= 65535,
        forall|k: int|
            0 <= k < screen.cells[row * screen.cols + col].glyphs.len() ==> 0 <= BASELINE - (
            #[trigger] screen.cells[row * screen.cols + col].glyphs[k]).height
                - screen.cells[row * screen.cols + col].glyphs[k].ymin && BASELINE
                - screen.cells[row * screen.cols + col].glyphs[k].ymin <= CELL_HEIGHT,
    ensures
        forall|i: int|
            0 <= i < frame.len() && ((i / 4) / (width as int) < PADDING + row * CELL_HEIGHT || (i / 4) / (
            width as int) >= PADDING + (row + 1) * CELL_HEIGHT) ==> #[trigger] cell_pass(
                frame,
                width,
                height,
                screen,
                row,
                col,
            )[i] == frame[i],
{
    let top = PADDING + row * CELL_HEIGHT;
    let bottom = top + CELL_HEIGHT;
    let cell = screen.cells[row * screen.cols + col];
    let with_cursor = if row == screen.cursor_row && col == screen.cursor_col {
        rect_fill(frame, width, height, cell_x(col) as u32, cell_y(row) as u32, CELL_WIDTH, CELL_HEIGHT, CURSOR)
    } else {
        frame
    };
    assert(with_cursor.len() == frame.len());
    assert forall|i: int|
        0 <= i < frame.len() && ((i / 4) / (width as int) < top || (i / 4) / (width as int) >= bottom) implies with_cursor[i]
        == frame[i] by {
    }
    if !is_blank(cell.contents) {
        lemma_text_pass_rows(with_cursor, width as int, height as int, cell.glyphs, cell_x(col), cell_y(row), top, bottom);
    }
}

/// Drawing cells keeps the length of the frame.
proof fn lemma_cells_pass_len(frame: Seq<u8>, width: u32, height: u32, screen: ScreenShape, n: nat)
    ensures
        cells_pass(frame, width, height, screen, n).len() == frame.len(),
    decreases n,
{
    if n > 0 {
        let k = n - 1;
        let prev = cells_pass(frame, width, height, screen, (n - 1) as nat);
        lemma_cells_pass_len(frame, width, height, screen, (n - 1) as nat);
        let row = k / screen.cols;
        let col = k % screen.cols;
        let cell = screen.cells[row * screen.cols + col];
        let with_cursor = if row == screen.cursor_row && col == screen.cursor_col {
            rect_fill(prev, width, height, cell_x(col) as u32, cell_y(row) as u32, CELL_WIDTH, CELL_HEIGHT, CURSOR)
        } else {
            prev
        };
        lemma_text_pass_len(with_cursor, width as int, height as int, cell.glyphs, cell_x(col), cell_y(row));
    }
}

/// Filling the same rectangle twice gives the frame that one fill gives.
pub proof fn lemma_fill_rect_idempotent(
    frame: Seq<u8>,
    width: u32,
    height: u32,
    x: u32,
    y: u32,
    rect_width: u32,
    rect_height: u32,
    color: [u8; 4],
)
    ensures
        rect_fill(
            rect_fill(frame, width, height, x, y, rect_width, rect_height, color),
            width,
            height,
            x,
            y,
            rect_width,
            rect_height,
            color,
        ) == rect_fill(frame, width, height, x, y, rect_width, rect_height, color),
{
    let once = rect_fill(frame, width, height, x, y, rect_width, rect_height, color);
    assert(rect_fill(once, width, height, x, y, rect_width, rect_height, color) =~= once);
}

/// A glyph whose coverage is zero everywhere leaves the frame as it was.
pub proof fn lemma_transparent_glyph(frame: Seq<u8>, width: int, height: int, g: GlyphShape, gx: int, gy: int)
    requires
        forall|k: int| 0 <= k < g.coverage.len() ==> #[trigger] g.coverage[k] == 0,
        g.coverage.len() == g.width * g.height,
    ensures
        glyph_pass(frame, width, height, g, gx, gy) == frame,
{
    assert forall|i: int| 0 <= i < frame.len() implies #[trigger] glyph_pass(
        frame,
        width,
        height,
        g,
        gx,
        gy,
    )[i] == frame[i] by {
        let col = pixel_col(i, width) - gx;
        let row = pixel_row(i, width) - gy;
        if 0 <= col < g.width && 0 <= row < g.height {
            lemma_coverage_index(row, col, g.width, g.height);
        }
    }
    assert(glyph_pass(frame, width, height, g, gx, gy) =~= frame);
}

/// A screen of blank cells with the cursor below its last row draws nothing
/// but the cleared background.
pub proof fn lemma_blank_screen_is_background(frame: Seq<u8>, width: u32, height: u32, screen: ScreenShape)
    requires
        screen.cols > 0,
        screen.rows >= 0,
        screen.cells.len() == screen.rows * screen.cols,
        screen.cursor_row >= screen.rows,
        forall|k: int| 0 <= k < screen.cells.len() ==> is_blank(#[trigger] screen.cells[k].contents),
    ensures
        terminal_frame(frame, width, height, screen) == cleared(frame),
{
    assert(screen.rows * screen.cols >= 0) by (nonlinear_arith)
        requires screen.rows >= 0, screen.cols > 0;
    lemma_blank_cells_keep_frame(cleared(frame), width, height, screen, (screen.rows * screen.cols) as nat);
}

proof fn lemma_blank_cells_keep_frame(frame: Seq<u8>, width: u32, height: u32, screen: ScreenShape, n: nat)
    requires
        screen.cols > 0,
        n <= screen.rows * screen.cols,
        screen.cells.len() == screen.rows * screen.cols,
        screen.cursor_row >= screen.rows,
        forall|k: int| 0 <= k < screen.cells.len() ==> is_blank(#[trigger] screen.cells[k].contents),
    ensures
        cells_pass(frame, width, height, screen, n) == frame,
    decreases n,
{
    if n > 0 {
        let k = n - 1;
        lemma_blank_cells_keep_frame(frame, width, height, screen, (n - 1) as nat);
        let row = k / screen.cols;
        let col = k % screen.cols;
        lemma_fundamental_div_mod(k, screen.cols);
        assert(row < screen.rows) by (nonlinear_arith)
            requires
                k < screen.rows * screen.cols,
                k == screen.cols * row + col,
                0 <= col,
                screen.cols > 0,
        ;
        assert(0 <= row) by (nonlinear_arith)
            requires k >= 0, screen.cols > 0, row == k / screen.cols;
        assert(row * screen.cols + col == k) by (nonlinear_arith)
            requires k == screen.cols * row + col;
        assert(is_blank(screen.cells[k].contents));
    }
}

} // verus!
