//! The canvas: an owned RGBA buffer, pixel blending, and coverage-sample
//! drawing with silent clipping at the canvas edge.
//!
//! Alpha and coverage are fixed point with 255 standing for one: a blend
//! weight is `alpha * coverage / 65025`.  Blended channels are truncated to
//! integer values, and the alpha channel of every touched pixel is forced
//! fully opaque.

use vstd::arithmetic::div_mod::{lemma_div_is_ordered, lemma_div_multiples_vanish};
use vstd::arithmetic::mul::lemma_mul_inequality;
use vstd::prelude::*;

use crate::overlay::CoverError;

verus! {

/// How a text color is combined with the pixel under it.
#[derive(Clone, Copy, Debug, PartialEq, Eq, Structural)]
pub enum BlendMode {
    /// Linear alpha-over of the text color.
    Normal,
    /// Photographic overlay composite of the text color, then alpha-over.
    Overlay,
}

/// Where a text block is anchored and how its lines are scaled.
#[derive(Clone, Copy, Debug, PartialEq, Eq, Structural)]
pub enum PositionType {
    /// Fixed small scale, each line centered, stacked down from the top.
    TopCenter,
    /// Each line autosized to the canvas width, left-aligned, stacked up
    /// from the bottom.
    BottomStretch,
    /// Fixed large scale, lines anchored left and right alternately,
    /// stacked up from the bottom.
    BottomSides,
    /// One autosize scale from the longest line, left-aligned, stacked up
    /// from the bottom.
    BottomLeft,
    /// The same shared autosize scale, each line centered, stacked up from
    /// the bottom.
    BottomCenter,
}

/// One coverage sample of a rasterized glyph: an absolute pixel coordinate
/// (before the overlay offset) and the coverage there, in 255ths.
#[derive(Clone, Copy, Debug, PartialEq, Eq, Structural)]
pub struct GlyphSample {
    /// Horizontal pixel coordinate.
    pub x: i64,
    /// Vertical pixel coordinate.
    pub y: i64,
    /// Antialiasing coverage, 255 standing for full coverage.
    pub coverage: u8,
}

impl GlyphSample {
    /// Builds the sample for one glyph-local coverage cell: the absolute
    /// coordinate is the glyph's pixel bounding-box origin plus the local
    /// coordinate inside it.
    pub fn at(local_x: u32, local_y: u32, box_x: i32, box_y: i32, coverage: u8) -> (r: GlyphSample)
        ensures
            r.x == local_x as int + box_x as int,
            r.y == local_y as int + box_y as int,
            r.coverage == coverage,
    {
        GlyphSample {
            x: local_x as i64 + box_x as i64,
            y: local_y as i64 + box_y as i64,
            coverage,
        }
    }
}

/// `dest` mixed toward `src` with weight `alpha * cov / 65025`, truncated.
pub open spec fn mix_channel(dest: int, src: int, alpha: int, cov: int) -> int {
    (dest * (65025 - alpha * cov) + src * (alpha * cov)) / 65025
}

/// The overlay composite of one channel: multiply below mid-gray, screen at
/// and above it, truncated.
pub open spec fn overlay_channel(dest: int, color: int) -> int {
    if dest < 128 {
        2 * dest * color / 255
    } else {
        255 - 2 * (255 - dest) * (255 - color) / 255
    }
}

/// One blended channel: the mode picks what `dest` is mixed toward.
pub open spec fn blend_channel(mode: BlendMode, dest: int, color: int, alpha: int, cov: int) -> int {
    match mode {
        BlendMode::Normal => mix_channel(dest, color, alpha, cov),
        BlendMode::Overlay => mix_channel(dest, overlay_channel(dest, color), alpha, cov),
    }
}

pub proof fn lemma_mix_channel_range(dest: int, src: int, alpha: int, cov: int)
    requires
        0 <= dest <= 255,
        0 <= src <= 255,
        0 <= alpha <= 255,
        0 <= cov <= 255,
    ensures
        0 <= mix_channel(dest, src, alpha, cov) <= 255,
{
    let av = alpha * cov;
    assert(0 <= alpha * cov) by (nonlinear_arith)
        requires
            0 <= alpha,
            0 <= cov,
    ;
    assert(alpha * cov <= 65025) by (nonlinear_arith)
        requires
            0 <= alpha <= 255,
            0 <= cov <= 255,
    ;
    assert(0 <= dest * (65025 - av) + src * av <= 255 * 65025) by (nonlinear_arith)
        requires
            0 <= dest <= 255,
            0 <= src <= 255,
            0 <= av <= 65025,
    ;
    lemma_div_is_ordered(0int, dest * (65025 - av) + src * av, 65025);
    lemma_div_is_ordered(dest * (65025 - av) + src * av, 255int * 65025, 65025);
    assert(255int * 65025 / 65025 == 255);
}

pub proof fn lemma_overlay_channel_range(dest: int, color: int)
    requires
        0 <= dest <= 255,
        0 <= color <= 255,
    ensures
        0 <= overlay_channel(dest, color) <= 255,
{
    if dest < 128 {
        assert(0 <= 2 * dest * color <= 64770) by (nonlinear_arith)
            requires
                0 <= dest < 128,
                0 <= color <= 255,
        ;
        lemma_div_is_ordered(0int, 2 * dest * color, 255);
        lemma_div_is_ordered(2 * dest * color, 64770int, 255);
        assert(64770int / 255 == 254);
    } else {
        assert(0 <= 2 * (255 - dest) * (255 - color) <= 64770) by (nonlinear_arith)
            requires
                128 <= dest <= 255,
                0 <= color <= 255,
        ;
        lemma_div_is_ordered(0int, 2 * (255 - dest) * (255 - color), 255);
        lemma_div_is_ordered(2 * (255 - dest) * (255 - color), 64770int, 255);
        assert(64770int / 255 == 254);
    }
}

pub proof fn lemma_blend_channel_range(mode: BlendMode, dest: int, color: int, alpha: int, cov: int)
    requires
        0 <= dest <= 255,
        0 <= color <= 255,
        0 <= alpha <= 255,
        0 <= cov <= 255,
    ensures
        0 <= blend_channel(mode, dest, color, alpha, cov) <= 255,
{
    match mode {
        BlendMode::Normal => {
            lemma_mix_channel_range(dest, color, alpha, cov);
        },
        BlendMode::Overlay => {
            lemma_overlay_channel_range(dest, color);
            lemma_mix_channel_range(dest, overlay_channel(dest, color), alpha, cov);
        },
    }
}

proof fn lemma_mix_channel_zero(dest: int, src: int, cov: int)
    ensures
        mix_channel(dest, src, 0, cov) == dest,
{
    assert(dest * (65025 - 0 * cov) + src * (0 * cov) == 65025 * dest) by (nonlinear_arith);
    lemma_div_multiples_vanish(dest, 65025);
}

/// A pixel mixed with weight zero keeps its value.
pub proof fn lemma_blend_channel_zero_alpha(mode: BlendMode, dest: int, color: int, cov: int)
    ensures
        blend_channel(mode, dest, color, 0, cov) == dest,
{
    match mode {
        BlendMode::Normal => {
            lemma_mix_channel_zero(dest, color, cov);
        },
        BlendMode::Overlay => {
            lemma_mix_channel_zero(dest, overlay_channel(dest, color), cov);
        },
    }
}

/// Linear blending at full alpha and full coverage yields the text color.
pub proof fn lemma_blend_none_full(dest: int, color: int)
    ensures
        blend_channel(BlendMode::Normal, dest, color, 255, 255) == color,
{
    assert(dest * (65025 - 255 * 255) + color * (255 * 255) == 65025 * color) by (nonlinear_arith);
    lemma_div_multiples_vanish(color, 65025);
}

fn mix_exec(dest: u8, src: u8, alpha: u8, v: u8) -> (r: u8)
    ensures
        r as int == mix_channel(dest as int, src as int, alpha as int, v as int),
{
    proof {
        lemma_mix_channel_range(dest as int, src as int, alpha as int, v as int);
        assert(0 <= (alpha as int) * (v as int) <= 65025) by (nonlinear_arith)
            requires
                0 <= alpha <= 255,
                0 <= v <= 255,
        ;
    }
    let av: u32 = (alpha as u32) * (v as u32);
    proof {
        assert(0 <= (dest as int) * (65025 - av as int) <= 255 * 65025) by (nonlinear_arith)
            requires
                0 <= dest <= 255,
                0 <= av <= 65025,
        ;
        assert(0 <= (src as int) * (av as int) <= 255 * 65025) by (nonlinear_arith)
            requires
                0 <= src <= 255,
                0 <= av <= 65025,
        ;
    }
    let num: u32 = (dest as u32) * (65025 - av) + (src as u32) * av;
    (num / 65025) as u8
}

fn overlay_exec(dest: u8, color: u8) -> (r: u8)
    ensures
        r as int == overlay_channel(dest as int, color as int),
{
    proof {
        lemma_overlay_channel_range(dest as int, color as int);
        assert(0 <= 2 * (dest as int) * (color as int) <= 130050) by (nonlinear_arith)
            requires
                0 <= dest <= 255,
                0 <= color <= 255,
        ;
        assert(0 <= 2 * (255 - dest as int) * (255 - color as int) <= 131070) by (nonlinear_arith)
            requires
                0 <= dest <= 255,
                0 <= color <= 255,
        ;
    }
    if dest < 128 {
        ((2 * (dest as u32) * (color as u32)) / 255) as u8
    } else {
        (255 - (2 * (255 - dest as u32) * (255 - color as u32)) / 255) as u8
    }
}

/// The image canvas: a width by height RGBA buffer, mutated in place.
#[derive(Debug)]
pub struct Image {
    /// Canvas width in pixels.
    pub width: u32,
    /// Canvas height in pixels.
    pub height: u32,
    /// RGBA bytes, row-major, four per pixel.
    pub pixels: Vec<u8>,
    /// Where the source image came from, when known.
    pub url: String,
}

impl Image {
    /// The buffer holds exactly four bytes per canvas pixel.
    pub open spec fn wf(self) -> bool {
        self.pixels@.len() == 4 * (self.width as int) * (self.height as int)
    }

    /// Computes one blended pixel: the destination mixed toward the text
    /// color (or its overlay composite) with weight `alpha * v / 65025`,
    /// each channel truncated, the alpha channel forced fully opaque.
    pub fn blend_mode(mode: BlendMode, pixel_rgb: (u8, u8, u8), color_rgb: (u8, u8, u8), alpha: u8, v: u8) -> (r: [u8; 4])
        ensures
            r@[0] as int == blend_channel(mode, pixel_rgb.0 as int, color_rgb.0 as int, alpha as int, v as int),
            r@[1] as int == blend_channel(mode, pixel_rgb.1 as int, color_rgb.1 as int, alpha as int, v as int),
            r@[2] as int == blend_channel(mode, pixel_rgb.2 as int, color_rgb.2 as int, alpha as int, v as int),
            r@[3] == 255,
    {
        match mode {
            BlendMode::Normal => [
                mix_exec(pixel_rgb.0, color_rgb.0, alpha, v),
                mix_exec(pixel_rgb.1, color_rgb.1, alpha, v),
                mix_exec(pixel_rgb.2, color_rgb.2, alpha, v),
                255,
            ],
            BlendMode::Overlay => [
                mix_exec(pixel_rgb.0, overlay_exec(pixel_rgb.0, color_rgb.0), alpha, v),
                mix_exec(pixel_rgb.1, overlay_exec(pixel_rgb.1, color_rgb.1), alpha, v),
                mix_exec(pixel_rgb.2, overlay_exec(pixel_rgb.2, color_rgb.2), alpha, v),
                255,
            ],
        }
    }
}

/// What the image codec decodes the given container bytes to: `None` for
/// malformed input, else the image's dimensions and its RGBA bytes,
/// row-major, four bytes per pixel.
pub uninterp spec fn decode_of(bytes: Seq<u8>) -> Option<(u32, u32, Seq<u8>)>;

/// Relies on `image::load_from_memory` (the container format is guessed from
/// the bytes) and `DynamicImage::to_rgba8`: the decoded pixels depend on the
/// bytes alone, malformed input gives `Err`, never a panic.
#[verifier::external_body]
fn decode_rgba(bytes: &Vec<u8>) -> (r: Option<(u32, u32, Vec<u8>)>)
    ensures
        match r {
            Some((w, h, p)) => decode_of(bytes@) == Some((w, h, p@)),
            None => decode_of(bytes@) is None,
        },
{
    match ::image::load_from_memory(bytes.as_slice()) {
        Ok(img) => {
            let rgba = img.to_rgba8();
            Some((rgba.width(), rgba.height(), rgba.into_raw()))
        },
        Err(_) => None,
    }
}

/// Byte index of the first channel of pixel `(x, y)` in a buffer `w` wide.
pub open spec fn byte_index(w: int, x: int, y: int) -> int {
    4 * (y * w + x)
}

/// Whether the sample `s`, shifted by `off`, lands on pixel `(x, y)` of a
/// `w` by `h` canvas.
pub open spec fn sample_hits(s: GlyphSample, off: (int, int), w: int, h: int, x: int, y: int) -> bool {
    &&& s.x + off.0 == x
    &&& s.y + off.1 == y
    &&& 0 <= x < w
    &&& 0 <= y < h
}

/// One sample blended into the buffer: the pixel it lands on gets its three
/// color channels blended and its alpha channel forced opaque; a sample off
/// the canvas changes nothing.
pub open spec fn apply_sample_spec(
    pix: Seq<u8>,
    s: GlyphSample,
    alpha: u8,
    color: (u8, u8, u8),
    off: (int, int),
    mode: BlendMode,
    w: int,
    h: int,
) -> Seq<u8> {
    let x = s.x + off.0;
    let y = s.y + off.1;
    if 0 <= x && x < w && 0 <= y && y < h {
        let idx = byte_index(w, x, y);
        pix.update(
            idx,
            blend_channel(mode, pix[idx] as int, color.0 as int, alpha as int, s.coverage as int) as u8,
        ).update(
            idx + 1,
            blend_channel(mode, pix[idx + 1] as int, color.1 as int, alpha as int, s.coverage as int) as u8,
        ).update(
            idx + 2,
            blend_channel(mode, pix[idx + 2] as int, color.2 as int, alpha as int, s.coverage as int) as u8,
        ).update(idx + 3, 255u8)
    } else {
        pix
    }
}

/// The samples blended into the buffer one after the other, in order.
pub open spec fn draw_fold(
    pix: Seq<u8>,
    samples: Seq<GlyphSample>,
    alpha: u8,
    color: (u8, u8, u8),
    off: (int, int),
    mode: BlendMode,
    w: int,
    h: int,
) -> Seq<u8>
    decreases samples.len(),
{
    if samples.len() == 0 {
        pix
    } else {
        draw_fold(
            apply_sample_spec(pix, samples[0], alpha, color, off, mode, w, h),
            samples.drop_first(),
            alpha,
            color,
            off,
            mode,
            w,
            h,
        )
    }
}

proof fn lemma_byte_index_bounds(w: int, h: int, x: int, y: int)
    requires
        0 <= x < w,
        0 <= y < h,
    ensures
        0 <= byte_index(w, x, y),
        byte_index(w, x, y) + 3 < 4 * w * h,
        0 <= y * w,
        y * w + x < w * h,
{
    assert(0 <= y * w && 0 <= y * w + x && y * w + x < w * h) by (nonlinear_arith)
        requires
            0 <= x < w,
            0 <= y < h,
    ;
    assert(4 * (y * w + x) + 3 < 4 * (w * h)) by (nonlinear_arith)
        requires
            y * w + x < w * h,
    ;
    assert(4 * (w * h) == 4 * w * h) by (nonlinear_arith);
}

proof fn lemma_cells_distinct(w: int, x1: int, y1: int, x2: int, y2: int)
    requires
        0 <= x1 < w,
        0 <= x2 < w,
        0 <= y1,
        0 <= y2,
        !(x1 == x2 && y1 == y2),
    ensures
        y1 * w + x1 != y2 * w + x2,
{
    if y1 == y2 {
    } else if y1 < y2 {
        lemma_mul_inequality(y1 + 1, y2, w);
        assert((y1 + 1) * w == y1 * w + w) by (nonlinear_arith);
    } else {
        lemma_mul_inequality(y2 + 1, y1, w);
        assert((y2 + 1) * w == y2 * w + w) by (nonlinear_arith);
    }
}

proof fn lemma_apply_sample_len(
    pix: Seq<u8>,
    s: GlyphSample,
    alpha: u8,
    color: (u8, u8, u8),
    off: (int, int),
    mode: BlendMode,
    w: int,
    h: int,
)
    requires
        pix.len() == 4 * w * h,
    ensures
        apply_sample_spec(pix, s, alpha, color, off, mode, w, h).len() == pix.len(),
{
    let x = s.x + off.0;
    let y = s.y + off.1;
    if 0 <= x && x < w && 0 <= y && y < h {
        lemma_byte_index_bounds(w, h, x, y);
    }
}

proof fn lemma_draw_fold_push(
    pix: Seq<u8>,
    samples: Seq<GlyphSample>,
    s: GlyphSample,
    alpha: u8,
    color: (u8, u8, u8),
    off: (int, int),
    mode: BlendMode,
    w: int,
    h: int,
)
    ensures
        draw_fold(pix, samples.push(s), alpha, color, off, mode, w, h) == apply_sample_spec(
            draw_fold(pix, samples, alpha, color, off, mode, w, h),
            s,
            alpha,
            color,
            off,
            mode,
            w,
            h,
        ),
    decreases samples.len(),
{
    if samples.len() == 0 {
        assert(samples.push(s)[0] == s);
        assert(samples.push(s).drop_first() =~= Seq::<GlyphSample>::empty());
        assert(draw_fold(pix, samples.push(s), alpha, color, off, mode, w, h)
            == draw_fold(
            apply_sample_spec(pix, s, alpha, color, off, mode, w, h),
            Seq::<GlyphSample>::empty(),
            alpha,
            color,
            off,
            mode,
            w,
            h,
        ));
        assert(draw_fold(pix, samples, alpha, color, off, mode, w, h) == pix);
    } else {
        assert(samples.push(s)[0] == samples[0]);
        assert(samples.push(s).drop_first() =~= samples.drop_first().push(s));
        assert(draw_fold(pix, samples.push(s), alpha, color, off, mode, w, h)
            == draw_fold(
            apply_sample_spec(pix, samples[0], alpha, color, off, mode, w, h),
            samples.drop_first().push(s),
            alpha,
            color,
            off,
            mode,
            w,
            h,
        ));
        lemma_draw_fold_push(
            apply_sample_spec(pix, samples[0], alpha, color, off, mode, w, h),
            samples.drop_first(),
            s,
            alpha,
            color,
            off,
            mode,
            w,
            h,
        );
    }
}

impl Image {
    /// Decodes container bytes into a canvas: exactly the pixels the codec
    /// decodes the bytes to, under their decoded dimensions.  Malformed
    /// bytes, and a decoded buffer that is not four bytes per pixel, are
    /// rejected as [`CoverError::DecodeError`].
    pub fn from_bytes(bytes: Vec<u8>) -> (r: Result<Image, CoverError>)
        ensures
            r is Ok ==> r->Ok_0.wf() && r->Ok_0.url@ == Seq::<char>::empty(),
            match decode_of(bytes@) {
                Some((w, h, p)) => {
                    &&& (r is Ok <==> p.len() == 4 * (w as int) * (h as int))
                    &&& (r is Ok ==> r->Ok_0.width == w && r->Ok_0.height == h
                        && r->Ok_0.pixels@ == p)
                },
                None => r is Err,
            },
            r is Err ==> r->Err_0 == CoverError::DecodeError,
    {
        match decode_rgba(&bytes) {
            Some((width, height, pixels)) => {
                proof {
                    assert(4 * (width as int) * (height as int) <= u128::MAX) by (nonlinear_arith)
                        requires
                            width <= u32::MAX,
                            height <= u32::MAX,
                    ;
                }
                let need: u128 = 4u128 * (width as u128) * (height as u128);
                if (pixels.len() as u128) == need {
                    Ok(Image { width, height, pixels, url: String::new() })
                } else {
                    Err(CoverError::DecodeError)
                }
            },
            Option::None => Err(CoverError::DecodeError),
        }
    }

    fn get_rgb(&self, x: u32, y: u32) -> (rgb: (u8, u8, u8))
        requires
            self.wf(),
            x < self.width,
            y < self.height,
        ensures
            rgb.0 == self.pixels@[byte_index(self.width as int, x as int, y as int)],
            rgb.1 == self.pixels@[byte_index(self.width as int, x as int, y as int) + 1],
            rgb.2 == self.pixels@[byte_index(self.width as int, x as int, y as int) + 2],
    {
        let buf_len = self.pixels.len();
        proof {
            assert(buf_len == self.pixels@.len());
            lemma_byte_index_bounds(self.width as int, self.height as int, x as int, y as int);
        }
        let idx: usize = 4 * ((y as usize) * (self.width as usize) + (x as usize));
        (self.pixels[idx], self.pixels[idx + 1], self.pixels[idx + 2])
    }

    fn put_rgba(&mut self, x: u32, y: u32, rgba: [u8; 4])
        requires
            old(self).wf(),
            x < old(self).width,
            y < old(self).height,
        ensures
            final(self).width == old(self).width,
            final(self).height == old(self).height,
            final(self).url == old(self).url,
            final(self).wf(),
            final(self).pixels@ == old(self).pixels@.update(
                byte_index(old(self).width as int, x as int, y as int),
                rgba@[0],
            ).update(
                byte_index(old(self).width as int, x as int, y as int) + 1,
                rgba@[1],
            ).update(
                byte_index(old(self).width as int, x as int, y as int) + 2,
                rgba@[2],
            ).update(byte_index(old(self).width as int, x as int, y as int) + 3, rgba@[3]),
    {
        let buf_len = self.pixels.len();
        proof {
            assert(buf_len == self.pixels@.len());
            lemma_byte_index_bounds(self.width as int, self.height as int, x as int, y as int);
        }
        let idx: usize = 4 * ((y as usize) * (self.width as usize) + (x as usize));
        self.pixels.set(idx, rgba[0]);
        self.pixels.set(idx + 1, rgba[1]);
        self.pixels.set(idx + 2, rgba[2]);
        self.pixels.set(idx + 3, rgba[3]);
    }
}

/// Blends every coverage sample into the canvas, in order, each sample
/// shifted by `offset` and silently dropped when it falls off the canvas.
/// Later samples blend over the already-modified pixels.
pub fn draw_glyphs(
    samples: Vec<GlyphSample>,
    alpha: u8,
    color: (u8, u8, u8),
    offset: (i32, i32),
    mode: BlendMode,
    image: Image,
) -> (r: Image)
    requires
        image.wf(),
    ensures
        r.width == image.width,
        r.height == image.height,
        r.url == image.url,
        r.wf(),
        r.pixels@ == draw_fold(
            image.pixels@,
            samples@,
            alpha,
            color,
            (offset.0 as int, offset.1 as int),
            mode,
            image.width as int,
            image.height as int,
        ),
{
    let ghost off = (offset.0 as int, offset.1 as int);
    let ghost w = image.width as int;
    let ghost h = image.height as int;
    let ghost orig = image.pixels@;
    let mut img = image;
    let mut i: usize = 0;
    proof {
        assert(samples@.take(0) =~= Seq::<GlyphSample>::empty());
    }
    while i < samples.len()
        invariant
            i <= samples@.len(),
            img.wf(),
            img.width as int == w,
            img.height as int == h,
            img.url == image.url,
            orig == image.pixels@,
            orig.len() == 4 * w * h,
            off == (offset.0 as int, offset.1 as int),
            w == image.width as int,
            h == image.height as int,
            img.pixels@ == draw_fold(orig, samples@.take(i as int), alpha, color, off, mode, w, h),
        decreases samples@.len() - i,
    {
        let s = samples[i];
        let ghost prev = img.pixels@;
        proof {
            assert(samples@.take(i as int + 1) =~= samples@.take(i as int).push(samples@[i as int]));
            lemma_draw_fold_push(orig, samples@.take(i as int), samples@[i as int], alpha, color, off, mode, w, h);
        }
        let x128: i128 = (s.x as i128) + (offset.0 as i128);
        let y128: i128 = (s.y as i128) + (offset.1 as i128);
        if 0 <= x128 && x128 < img.width as i128 && 0 <= y128 && y128 < img.height as i128 {
            let x = x128 as u32;
            let y = y128 as u32;
            let dest = img.get_rgb(x, y);
            let rgba = Image::blend_mode(mode, dest, color, alpha, s.coverage);
            proof {
                lemma_blend_channel_range(mode, dest.0 as int, color.0 as int, alpha as int, s.coverage as int);
                lemma_blend_channel_range(mode, dest.1 as int, color.1 as int, alpha as int, s.coverage as int);
                lemma_blend_channel_range(mode, dest.2 as int, color.2 as int, alpha as int, s.coverage as int);
            }
            img.put_rgba(x, y, rgba);
            proof {
                assert(img.pixels@ == apply_sample_spec(prev, s, alpha, color, off, mode, w, h));
            }
        } else {
            proof {
                assert(apply_sample_spec(prev, s, alpha, color, off, mode, w, h) == prev);
            }
        }
        i = i + 1;
    }
    proof {
        assert(samples@.take(samples@.len() as int) =~= samples@);
    }
    img
}

/// Drawing writes only under its samples: a pixel no shifted sample lands on
/// keeps all four of its bytes, and nothing outside the canvas is written at
/// all, since every write goes to the cell of a sample that hit the canvas.
pub proof fn lemma_draw_untouched(
    pix: Seq<u8>,
    samples: Seq<GlyphSample>,
    alpha: u8,
    color: (u8, u8, u8),
    off: (int, int),
    mode: BlendMode,
    w: int,
    h: int,
    x: int,
    y: int,
)
    requires
        pix.len() == 4 * w * h,
        0 <= x < w,
        0 <= y < h,
        forall|j: int|
            0 <= j < samples.len() ==> !sample_hits(#[trigger] samples[j], off, w, h, x, y),
    ensures
        forall|k: int|
            byte_index(w, x, y) <= k < byte_index(w, x, y) + 4 ==> #[trigger] draw_fold(
                pix,
                samples,
                alpha,
                color,
                off,
                mode,
                w,
                h,
            )[k] == pix[k],
    decreases samples.len(),
{
    if samples.len() > 0 {
        let s0 = samples[0];
        let pix1 = apply_sample_spec(pix, s0, alpha, color, off, mode, w, h);
        lemma_apply_sample_len(pix, s0, alpha, color, off, mode, w, h);
        lemma_byte_index_bounds(w, h, x, y);
        let sx = s0.x + off.0;
        let sy = s0.y + off.1;
        if 0 <= sx && sx < w && 0 <= sy && sy < h {
            lemma_byte_index_bounds(w, h, sx, sy);
            lemma_cells_distinct(w, sx, sy, x, y);
        }
        assert(forall|k: int|
            byte_index(w, x, y) <= k < byte_index(w, x, y) + 4 ==> #[trigger] pix1[k] == pix[k]);
        assert(draw_fold(pix, samples, alpha, color, off, mode, w, h) == draw_fold(
            pix1,
            samples.drop_first(),
            alpha,
            color,
            off,
            mode,
            w,
            h,
        ));
        assert(forall|j: int|
            0 <= j < samples.drop_first().len() ==> !sample_hits(
                #[trigger] samples.drop_first()[j],
                off,
                w,
                h,
                x,
                y,
            ));
        lemma_draw_untouched(pix1, samples.drop_first(), alpha, color, off, mode, w, h, x, y);
    }
}

/// Drawing with alpha zero leaves the three color channels of every pixel
/// exactly as they were, in either blend mode.
pub proof fn lemma_draw_zero_alpha(
    pix: Seq<u8>,
    samples: Seq<GlyphSample>,
    color: (u8, u8, u8),
    off: (int, int),
    mode: BlendMode,
    w: int,
    h: int,
    x: int,
    y: int,
)
    requires
        pix.len() == 4 * w * h,
        0 <= x < w,
        0 <= y < h,
    ensures
        forall|k: int|
            byte_index(w, x, y) <= k < byte_index(w, x, y) + 3 ==> #[trigger] draw_fold(
                pix,
                samples,
                0u8,
                color,
                off,
                mode,
                w,
                h,
            )[k] == pix[k],
    decreases samples.len(),
{
    if samples.len() > 0 {
        let s0 = samples[0];
        let pix1 = apply_sample_spec(pix, s0, 0u8, color, off, mode, w, h);
        lemma_apply_sample_len(pix, s0, 0u8, color, off, mode, w, h);
        lemma_byte_index_bounds(w, h, x, y);
        let sx = s0.x + off.0;
        let sy = s0.y + off.1;
        if 0 <= sx && sx < w && 0 <= sy && sy < h {
            lemma_byte_index_bounds(w, h, sx, sy);
            let idx = byte_index(w, sx, sy);
            lemma_blend_channel_zero_alpha(mode, pix[idx] as int, color.0 as int, s0.coverage as int);
            lemma_blend_channel_zero_alpha(
                mode,
                pix[idx + 1] as int,
                color.1 as int,
                s0.coverage as int,
            );
            lemma_blend_channel_zero_alpha(
                mode,
                pix[idx + 2] as int,
                color.2 as int,
                s0.coverage as int,
            );
            if sx == x && sy == y {
            } else {
                lemma_cells_distinct(w, sx, sy, x, y);
            }
        }
        assert(forall|k: int|
            byte_index(w, x, y) <= k < byte_index(w, x, y) + 3 ==> #[trigger] pix1[k] == pix[k]);
        assert(draw_fold(pix, samples, 0u8, color, off, mode, w, h) == draw_fold(
            pix1,
            samples.drop_first(),
            0u8,
            color,
            off,
            mode,
            w,
            h,
        ));
        lemma_draw_zero_alpha(pix1, samples.drop_first(), color, off, mode, w, h, x, y);
    }
}

proof fn lemma_draw_alpha_sticky(
    pix: Seq<u8>,
    samples: Seq<GlyphSample>,
    alpha: u8,
    color: (u8, u8, u8),
    off: (int, int),
    mode: BlendMode,
    w: int,
    h: int,
    x: int,
    y: int,
)
    requires
        pix.len() == 4 * w * h,
        0 <= x < w,
        0 <= y < h,
        pix[byte_index(w, x, y) + 3] == 255,
    ensures
        draw_fold(pix, samples, alpha, color, off, mode, w, h)[byte_index(w, x, y) + 3] == 255,
    decreases samples.len(),
{
    if samples.len() > 0 {
        let s0 = samples[0];
        let pix1 = apply_sample_spec(pix, s0, alpha, color, off, mode, w, h);
        lemma_apply_sample_len(pix, s0, alpha, color, off, mode, w, h);
        lemma_byte_index_bounds(w, h, x, y);
        let sx = s0.x + off.0;
        let sy = s0.y + off.1;
        if 0 <= sx && sx < w && 0 <= sy && sy < h {
            lemma_byte_index_bounds(w, h, sx, sy);
            if sx == x && sy == y {
            } else {
                lemma_cells_distinct(w, sx, sy, x, y);
            }
        }
        assert(pix1[byte_index(w, x, y) + 3] == 255);
        lemma_draw_alpha_sticky(pix1, samples.drop_first(), alpha, color, off, mode, w, h, x, y);
    }
}

/// After drawing, any pixel that some shifted sample landed on carries a
/// fully opaque alpha channel, whatever the mode, alpha and coverage.
pub proof fn lemma_draw_opaque(
    pix: Seq<u8>,
    samples: Seq<GlyphSample>,
    alpha: u8,
    color: (u8, u8, u8),
    off: (int, int),
    mode: BlendMode,
    w: int,
    h: int,
    x: int,
    y: int,
)
    requires
        pix.len() == 4 * w * h,
        0 <= x < w,
        0 <= y < h,
        exists|j: int| 0 <= j < samples.len() && sample_hits(#[trigger] samples[j], off, w, h, x, y),
    ensures
        draw_fold(pix, samples, alpha, color, off, mode, w, h)[byte_index(w, x, y) + 3] == 255,
    decreases samples.len(),
{
    let s0 = samples[0];
    let pix1 = apply_sample_spec(pix, s0, alpha, color, off, mode, w, h);
    lemma_apply_sample_len(pix, s0, alpha, color, off, mode, w, h);
    lemma_byte_index_bounds(w, h, x, y);
    if sample_hits(s0, off, w, h, x, y) {
        assert(pix1[byte_index(w, x, y) + 3] == 255);
        lemma_draw_alpha_sticky(pix1, samples.drop_first(), alpha, color, off, mode, w, h, x, y);
    } else {
        let j = choose|j: int|
            0 <= j < samples.len() && sample_hits(#[trigger] samples[j], off, w, h, x, y);
        assert(samples.drop_first()[j - 1] == samples[j]);
        lemma_draw_opaque(pix1, samples.drop_first(), alpha, color, off, mode, w, h, x, y);
    }
}

} // verus!
