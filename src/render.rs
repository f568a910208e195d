use vstd::prelude::*;
use vstd::arithmetic::div_mod::lemma_fundamental_div_mod_converse;
use crate::color::Rgba;

verus! {

/// A decoded pixel-art document, as the renderer reads it: the frame size,
/// the background color, the animation rate, and for each enabled frame the
/// color of each position in row-major order (`None` for an empty cell).
pub struct PixelDocument {
    pub width: u16,
    pub height: u16,
    pub background: Option<Rgba>,
    pub fps: u8,
    pub frames: Vec<Vec<Option<Rgba>>>,
}

/// Why a thumbnail could not be made.
#[derive(Debug, Clone, Copy, PartialEq, Eq, Structural)]
pub enum RenderError {
    /// The scale is zero, or the document is malformed.
    InvalidArgument,
    /// The image is too large to hold, or the encoder rejected it.
    EncodingFailure,
}

/// The smallest side, in output pixels, that a thumbnail should reach.
pub const THUMBNAIL_MIN_SIDE: usize = 800;

impl PixelDocument {
    /// At least one frame, each with one cell per position, and a positive
    /// rate where there is more than one frame.
    pub open spec fn well_formed(&self) -> bool {
        &&& self.frames@.len() >= 1
        &&& self.frames@.len() <= u32::MAX
        &&& forall|f: int|
            0 <= f < self.frames@.len() ==> (#[trigger] self.frames@[f])@.len() == self.width
                * self.height
        &&& self.frames@.len() > 1 ==> self.fps >= 1
    }

    /// The color shown at `(x, y)` of frame `f`: the document's own color,
    /// else the background, else fully transparent.
    pub open spec fn resolved(&self, f: int, x: int, y: int) -> Rgba {
        match self.frames@[f]@[y * self.width + x] {
            Some(c) => c,
            None => match self.background {
                Some(bg) => bg,
                None => Rgba { r: 0, g: 0, b: 0, a: 0 },
            },
        }
    }

    /// The output width at `scale`.
    pub open spec fn out_width(&self, scale: int) -> int {
        self.width * scale
    }

    /// The output height at `scale`.
    pub open spec fn out_height(&self, scale: int) -> int {
        self.height * scale
    }

    /// Whether the output at `scale` fits the image format and memory.
    pub open spec fn fits(&self, scale: int) -> bool {
        &&& self.out_width(scale) <= u32::MAX
        &&& self.out_height(scale) <= u32::MAX
        &&& self.out_width(scale) * self.out_height(scale) * 4 <= usize::MAX
    }

    /// The color of output pixel `p` (row-major) of frame `f`: the source
    /// pixel whose `scale × scale` block holds it.
    pub open spec fn out_pixel(&self, f: int, scale: int, p: int) -> Rgba {
        let w = self.out_width(scale);
        self.resolved(f, (p % w) / scale, (p / w) / scale)
    }

    /// The RGBA bytes of frame `f` at `scale`, row-major, four per pixel.
    pub open spec fn raster(&self, f: int, scale: int) -> Seq<u8> {
        Seq::new(
            (self.out_width(scale) * self.out_height(scale) * 4) as nat,
            |i: int| channel(self.out_pixel(f, scale, i / 4), i % 4),
        )
    }

    /// The rasters of all frames at `scale`.
    pub open spec fn rasters(&self, scale: int) -> Seq<Seq<u8>> {
        Seq::new(self.frames@.len(), |f: int| self.raster(f, scale))
    }

    /// The animation that the encoder is asked for: none for a single
    /// frame, else the frame count and the delay between frames.
    pub open spec fn animation(&self) -> Option<(u32, u16)> {
        if self.frames@.len() > 1 {
            Some((self.frames@.len() as u32, frame_delay(self.fps as int) as u16))
        } else {
            None
        }
    }

    /// What `to_thumbnail_png` returns for this document at `scale`.
    pub open spec fn thumbnail(&self, scale: int) -> Result<Seq<u8>, RenderError> {
        if scale <= 0 || !self.well_formed() {
            Err(RenderError::InvalidArgument)
        } else if !self.fits(scale) {
            Err(RenderError::EncodingFailure)
        } else {
            match png_encoding(
                self.out_width(scale) as u32,
                self.out_height(scale) as u32,
                self.animation(),
                self.rasters(scale),
            ) {
                Some(bytes) => Ok(bytes),
                None => Err(RenderError::EncodingFailure),
            }
        }
    }
}

/// Channel `k` of `c`: red, green, blue, alpha for `0..=3`.
pub open spec fn channel(c: Rgba, k: int) -> u8 {
    if k == 0 {
        c.r
    } else if k == 1 {
        c.g
    } else if k == 2 {
        c.b
    } else {
        c.a
    }
}

/// The delay between frames in centiseconds: `100 / fps` rounded, at least 1.
pub open spec fn frame_delay(fps: int) -> int {
    let d = (200 + fps) / (2 * fps);
    if d < 1 {
        1
    } else {
        d
    }
}

/// The bytes of a PNG image, 8-bit RGBA, of the given size, holding the
/// given frames (animated with the given frame count and delay in
/// centiseconds where an animation is given); `None` where the encoder
/// rejects them.
pub uninterp spec fn png_encoding(
    width: u32,
    height: u32,
    animation: Option<(u32, u16)>,
    frames: Seq<Seq<u8>>,
) -> Option<Seq<u8>>;

/// Relies on the `png` crate's `Encoder` and `Writer`: an 8-bit RGBA stream
/// of the given size, animated with `set_animated` and `set_frame_delay`
/// where an animation is given, one `write_image_data` per frame. The
/// encoding depends on its arguments alone. The writer computes a frame's
/// byte count before it checks the data, so the size must fit in `usize`.
#[verifier::external_body]
fn encode_png(width: u32, height: u32, animation: Option<(u32, u16)>, frames: &Vec<Vec<u8>>) -> (r: Option<Vec<u8>>)
    requires
        width as int * height as int * 4 <= usize::MAX,
    ensures
        png_encoding(width, height, animation, frames@.map_values(|f: Vec<u8>| f@)) == (match r {
            Some(v) => Some(v@),
            None => None,
        }),
{
    let mut out = Vec::new();
    let mut encoder = png::Encoder::new(&mut out, width, height);
    encoder.set_color(png::ColorType::Rgba);
    encoder.set_depth(png::BitDepth::Eight);
    if let Some((num_frames, delay)) = animation {
        encoder.set_animated(num_frames, 0).ok()?;
        encoder.set_frame_delay(delay, 100).ok()?;
    }
    let mut writer = encoder.write_header().ok()?;
    for frame in frames {
        writer.write_image_data(frame).ok()?;
    }
    writer.finish().ok()?;
    Some(out)
}

proof fn lemma_block(y: int, scale: int, n: int)
    requires
        0 <= y < n * scale,
        scale > 0,
    ensures
        0 <= y / scale < n,
{
    vstd::arithmetic::div_mod::lemma_fundamental_div_mod(y, scale);
    let q = y / scale;
    let r = y % scale;
    assert(0 <= q < n) by (nonlinear_arith)
        requires
            y == scale * q + r,
            0 <= r < scale,
            0 <= y < n * scale,
            scale > 0,
    ;
}

proof fn lemma_out_byte(doc: &PixelDocument, f: int, scale: int, y: int, x: int, k: int)
    requires
        scale > 0,
        0 <= x < doc.out_width(scale),
        0 <= y,
        0 <= k < 4,
    ensures
        channel(doc.out_pixel(f, scale, ((y * doc.out_width(scale) + x) * 4 + k) / 4), ((y
            * doc.out_width(scale) + x) * 4 + k) % 4) == channel(
            doc.resolved(f, x / scale, y / scale),
            k,
        ),
{
    let w = doc.out_width(scale);
    let p = y * w + x;
    assert(p >= 0) by (nonlinear_arith)
        requires
            p == y * w + x,
            y >= 0,
            x >= 0,
            w >= 0,
    ;
    lemma_fundamental_div_mod_converse(p * 4 + k, 4, p, k);
    lemma_fundamental_div_mod_converse(p, w, y, x);
}

/// The RGBA bytes of frame `f` of `doc` at `scale`.
fn render_frame(doc: &PixelDocument, f: usize, scale: usize) -> (bytes: Vec<u8>)
    requires
        doc.well_formed(),
        f < doc.frames@.len(),
        scale >= 1,
        doc.fits(scale as int),
    ensures
        bytes@ == doc.raster(f as int, scale as int),
{
    let ghost s = scale as int;
    let width = doc.width as usize;
    let w = width * scale;
    let h = doc.height as usize * scale;
    let frame = &doc.frames[f];
    let frame_len = frame.len();
    assert(frame@.len() == doc.width * doc.height);
    let mut bytes: Vec<u8> = Vec::new();
    let mut y: usize = 0;
    while y < h
        invariant
            doc.well_formed(),
            f < doc.frames@.len(),
            frame == &doc.frames@[f as int],
            frame@.len() == doc.width * doc.height,
            frame@.len() == frame_len,
            width == doc.width,
            scale >= 1,
            s == scale,
            w == doc.out_width(s),
            h == doc.out_height(s),
            doc.fits(s),
            0 <= y <= h,
            bytes@.len() == y * w * 4,
            forall|i: int|
                0 <= i < bytes@.len() ==> bytes@[i] == channel(
                    doc.out_pixel(f as int, s, i / 4),
                    i % 4,
                ),
        decreases h - y,
    {
        proof {
            lemma_block(y as int, s, doc.height as int);
        }
        let sy = y / scale;
        let mut x: usize = 0;
        while x < w
            invariant
                doc.well_formed(),
                f < doc.frames@.len(),
                frame == &doc.frames@[f as int],
                frame@.len() == doc.width * doc.height,
                frame@.len() <= usize::MAX,
                width == doc.width,
                scale >= 1,
                s == scale,
                w == doc.out_width(s),
                h == doc.out_height(s),
                doc.fits(s),
                0 <= y < h,
                sy == y / scale,
                sy < doc.height,
                0 <= x <= w,
                bytes@.len() == (y * w + x) * 4,
                forall|i: int|
                    0 <= i < bytes@.len() ==> bytes@[i] == channel(
                        doc.out_pixel(f as int, s, i / 4),
                        i % 4,
                    ),
            decreases w - x,
        {
            proof {
                lemma_block(x as int, s, doc.width as int);
            }
            let sx = x / scale;
            assert(sy * width + sx < doc.width * doc.height && sy * width <= doc.width * doc.height)
                by (nonlinear_arith)
                requires
                    sy < doc.height,
                    sx < doc.width,
                    width == doc.width,
            ;
            let c = match frame[sy * width + sx] {
                Some(c) => c,
                None => match doc.background {
                    Some(bg) => bg,
                    None => Rgba { r: 0, g: 0, b: 0, a: 0 },
                },
            };
            assert(c == doc.resolved(f as int, sx as int, sy as int));
            let ghost before = bytes@;
            bytes.push(c.r);
            bytes.push(c.g);
            bytes.push(c.b);
            bytes.push(c.a);
            proof {
                let base = (y * w + x) * 4;
                assert forall|i: int|
                    0 <= i < bytes@.len() implies bytes@[i] == channel(
                    doc.out_pixel(f as int, s, i / 4),
                    i % 4,
                ) by {
                    if i >= base {
                        lemma_out_byte(doc, f as int, s, y as int, x as int, i - base);
                        assert(i == (y * w + x) * 4 + (i - base));
                    } else {
                        assert(bytes@[i] == before[i]);
                    }
                }
                assert(bytes@.len() == (y * w + (x + 1)) * 4) by (nonlinear_arith)
                    requires
                        bytes@.len() == base + 4,
                        base == (y * w + x) * 4,
                ;
            }
            x = x + 1;
        }
        assert((y * w + w) * 4 == (y + 1) * w * 4) by (nonlinear_arith);
        y = y + 1;
    }
    assert(y * w * 4 == doc.out_width(s) * doc.out_height(s) * 4) by (nonlinear_arith)
        requires
            y == h,
            w == doc.out_width(s),
            h == doc.out_height(s),
    ;
    assert(bytes@ =~= doc.raster(f as int, s));
    bytes
}

impl PixelDocument {
    /// Whether the document is well formed: at least one frame, each with
    /// one cell per position, and a positive rate where it is animated.
    pub fn is_well_formed(&self) -> (r: bool)
        ensures
            r == self.well_formed(),
    {
        let n = self.frames.len();
        if n == 0 || n > u32::MAX as usize || (n > 1 && self.fps == 0) {
            return false;
        }
        assert(self.width * self.height <= 65535 * 65535) by (nonlinear_arith)
            requires
                self.width <= 65535,
                self.height <= 65535,
        ;
        let cells = self.width as usize * self.height as usize;
        let mut f: usize = 0;
        while f < n
            invariant
                n == self.frames@.len(),
                cells == self.width * self.height,
                0 <= f <= n,
                forall|g: int| 0 <= g < f ==> (#[trigger] self.frames@[g])@.len() == cells,
            decreases n - f,
        {
            if self.frames[f].len() != cells {
                return false;
            }
            f = f + 1;
        }
        true
    }

    /// Whether the output at `scale` fits the image format and memory.
    pub fn fits_at(&self, scale: usize) -> (r: bool)
        ensures
            r == self.fits(scale as int),
    {
        assert(self.width * scale <= 65535 * 0xffff_ffff_ffff_ffff && self.height * scale <= 65535
            * 0xffff_ffff_ffff_ffff) by (nonlinear_arith)
            requires
                self.width <= 65535,
                self.height <= 65535,
                scale <= 0xffff_ffff_ffff_ffff,
        ;
        let w = self.width as u128 * scale as u128;
        let h = self.height as u128 * scale as u128;
        if w > u32::MAX as u128 || h > u32::MAX as u128 {
            return false;
        }
        assert(w * h * 4 <= 0xffff_ffff * 0xffff_ffff * 4) by (nonlinear_arith)
            requires
                w <= 0xffff_ffff,
                h <= 0xffff_ffff,
        ;
        w * h * 4 <= usize::MAX as u128
    }
}

/// Renders `doc` at `scale` as a PNG image: `width * scale` by
/// `height * scale` pixels, each source pixel a uniform `scale × scale`
/// block of its resolved color, one image frame per document frame, and
/// animated (with the delay between frames from the document's rate) where
/// there is more than one frame. A zero scale or a malformed document is
/// `InvalidArgument`; a size that does not fit, or an encoder error, is
/// `EncodingFailure`.
pub fn to_thumbnail_png(doc: &PixelDocument, scale: usize) -> (r: Result<Vec<u8>, RenderError>)
    ensures
        match r {
            Ok(v) => doc.thumbnail(scale as int) == Ok::<Seq<u8>, RenderError>(v@),
            Err(e) => doc.thumbnail(scale as int) == Err::<Seq<u8>, RenderError>(e),
        },
{
    if scale == 0 || !doc.is_well_formed() {
        return Err(RenderError::InvalidArgument);
    }
    if !doc.fits_at(scale) {
        return Err(RenderError::EncodingFailure);
    }
    let n = doc.frames.len();
    let mut frames: Vec<Vec<u8>> = Vec::new();
    let mut f: usize = 0;
    while f < n
        invariant
            doc.well_formed(),
            doc.fits(scale as int),
            scale >= 1,
            n == doc.frames@.len(),
            0 <= f <= n,
            frames@.len() == f,
            forall|g: int| 0 <= g < f ==> (#[trigger] frames@[g])@ == doc.raster(g, scale as int),
        decreases n - f,
    {
        let bytes = render_frame(doc, f, scale);
        frames.push(bytes);
        f = f + 1;
    }
    let animation = if n > 1 {
        Some((n as u32, delay_centiseconds(doc.fps)))
    } else {
        None
    };
    let width = (doc.width as usize * scale) as u32;
    let height = (doc.height as usize * scale) as u32;
    let encoded = encode_png(width, height, animation, &frames);
    assert(frames@.map_values(|v: Vec<u8>| v@) =~= doc.rasters(scale as int));
    match encoded {
        Some(v) => Ok(v),
        None => Err(RenderError::EncodingFailure),
    }
}

/// The byte for channel `k` of the output pixel at column `x`, row `y`.
pub open spec fn out_byte(bytes: Seq<u8>, out_width: int, x: int, y: int, k: int) -> u8 {
    bytes[(y * out_width + x) * 4 + k]
}

/// Nearest-neighbour upscaling: every output pixel of the `scale × scale`
/// block of source position `(sx, sy)` has exactly the resolved color of
/// that position.
pub proof fn law_block_is_uniform(
    doc: &PixelDocument,
    f: int,
    scale: int,
    sx: int,
    sy: int,
    dx: int,
    dy: int,
    k: int,
)
    requires
        scale > 0,
        0 <= sx < doc.width,
        0 <= sy < doc.height,
        0 <= dx < scale,
        0 <= dy < scale,
        0 <= k < 4,
    ensures
        out_byte(doc.raster(f, scale), doc.out_width(scale), sx * scale + dx, sy * scale + dy, k)
            == channel(doc.resolved(f, sx, sy), k),
{
    let w = doc.out_width(scale);
    let h = doc.out_height(scale);
    let x = sx * scale + dx;
    let y = sy * scale + dy;
    assert(0 <= x < w && 0 <= y < h) by (nonlinear_arith)
        requires
            x == sx * scale + dx,
            y == sy * scale + dy,
            w == doc.width * scale,
            h == doc.height * scale,
            0 <= sx < doc.width,
            0 <= sy < doc.height,
            0 <= dx < scale,
            0 <= dy < scale,
    ;
    assert(0 <= (y * w + x) * 4 + k < w * h * 4) by (nonlinear_arith)
        requires
            0 <= x < w,
            0 <= y < h,
            0 <= k < 4,
    ;
    lemma_out_byte(doc, f, scale, y, x, k);
    lemma_fundamental_div_mod_converse(x, scale, sx, dx);
    lemma_fundamental_div_mod_converse(y, scale, sy, dy);
}

/// Where the document has no color at `(sx, sy)`, its whole output block
/// is the background color exactly, or fully transparent (all four channels
/// zero) where there is no background.
pub proof fn law_empty_cell_fallback(
    doc: &PixelDocument,
    f: int,
    scale: int,
    sx: int,
    sy: int,
    dx: int,
    dy: int,
    k: int,
)
    requires
        scale > 0,
        0 <= sx < doc.width,
        0 <= sy < doc.height,
        0 <= dx < scale,
        0 <= dy < scale,
        0 <= k < 4,
        doc.frames@[f]@[sy * doc.width + sx] is None,
    ensures
        out_byte(doc.raster(f, scale), doc.out_width(scale), sx * scale + dx, sy * scale + dy, k)
            == match doc.background {
            Some(bg) => channel(bg, k),
            None => 0u8,
        },
{
    law_block_is_uniform(doc, f, scale, sx, sy, dx, dy, k);
}

/// Two documents with the same size, background, rate and cells.
pub open spec fn same_document(a: &PixelDocument, b: &PixelDocument) -> bool {
    &&& a.width == b.width
    &&& a.height == b.height
    &&& a.background == b.background
    &&& a.fps == b.fps
    &&& a.frames@.len() == b.frames@.len()
    &&& forall|f: int| 0 <= f < a.frames@.len() ==> (#[trigger] a.frames@[f])@ == b.frames@[f]@
}

/// Rendering is deterministic: documents with the same content give the
/// same result at the same scale.
pub proof fn law_thumbnail_deterministic(a: &PixelDocument, b: &PixelDocument, scale: int)
    requires
        same_document(a, b),
    ensures
        a.thumbnail(scale) == b.thumbnail(scale),
{
    assert forall|f: int| 0 <= f < a.frames@.len() implies #[trigger] a.raster(f, scale) == b.raster(f, scale) by {
        assert(a.raster(f, scale) =~= b.raster(f, scale));
    }
    assert(a.rasters(scale) =~= b.rasters(scale));
    assert forall|f: int| 0 <= f < a.frames@.len() implies (#[trigger] a.frames@[f])@.len()
        == b.frames@[f]@.len() by {}
    if b.well_formed() {
        assert forall|f: int| 0 <= f < a.frames@.len() implies (#[trigger] a.frames@[f])@.len()
            == a.width * a.height by {
            assert(b.frames@[f]@.len() == b.width * b.height);
        }
    }
    if a.well_formed() {
        assert forall|f: int| 0 <= f < b.frames@.len() implies (#[trigger] b.frames@[f])@.len()
            == b.width * b.height by {
            assert(a.frames@[f]@.len() == a.width * a.height);
        }
    }
    assert(a.well_formed() == b.well_formed());
}

/// A single frame asks the encoder for no animation; `n > 1` frames ask for
/// exactly `n` frames, with a delay that is `100 / fps` centiseconds rounded
/// to the nearest integer (halves up), and at least 1.
pub proof fn law_animation_parameters(doc: &PixelDocument)
    requires
        doc.well_formed(),
    ensures
        doc.frames@.len() == 1 ==> doc.animation() is None,
        doc.frames@.len() > 1 ==> ({
            let d = frame_delay(doc.fps as int);
            &&& doc.animation() == Some((doc.frames@.len() as u32, d as u16))
            &&& d >= 1
            &&& doc.fps <= 200 ==> -(doc.fps as int) < 2 * (d * doc.fps - 100) <= doc.fps
        }),
{
    if doc.frames@.len() > 1 {
        let fps = doc.fps as int;
        let q = (200 + fps) / (2 * fps);
        vstd::arithmetic::div_mod::lemma_fundamental_div_mod(200 + fps, 2 * fps);
        let r = (200 + fps) % (2 * fps);
        if fps <= 200 {
            assert(q >= 1) by (nonlinear_arith)
                requires
                    1 <= fps <= 200,
                    200 + fps == 2 * fps * q + r,
                    0 <= r < 2 * fps,
            ;
            assert(-fps < 2 * (q * fps - 100) <= fps) by (nonlinear_arith)
                requires
                    1 <= fps <= 200,
                    200 + fps == 2 * fps * q + r,
                    0 <= r < 2 * fps,
            ;
        }
    }
}

/// The delay between frames, in centiseconds, for a rate of `fps` frames
/// per second.
pub fn delay_centiseconds(fps: u8) -> (d: u16)
    requires
        fps >= 1,
    ensures
        d as int == frame_delay(fps as int),
{
    let f = fps as u16;
    let d = (200 + f) / (2 * f);
    if d < 1 {
        1
    } else {
        d
    }
}

/// The scale that brings the smaller side of a `width × height` frame to at
/// least `THUMBNAIL_MIN_SIDE` pixels; `0` for an empty frame.
pub fn thumbnail_scale(width: u16, height: u16) -> (s: usize)
    ensures
        ({
            let m = if width <= height { width as int } else { height as int };
            &&& m == 0 ==> s == 0
            &&& m > 0 ==> s as int == (THUMBNAIL_MIN_SIDE + m - 1) / m
        }),
{
    let m = if width <= height { width } else { height };
    if m == 0 {
        0
    } else {
        (THUMBNAIL_MIN_SIDE + m as usize - 1) / m as usize
    }
}

} // verus!
