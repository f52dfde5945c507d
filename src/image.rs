//! Decoded frames: a grid of RGB pixels, how it is read out of a PNG file,
//! and the average color of each of its columns.
use vstd::prelude::*;

use crate::color::Rgb;

verus! {

/// A decoded frame: `width` columns, `height` rows, pixels stored row by row.
pub struct PixelGrid {
    width: usize,
    height: usize,
    pixels: Vec<Rgb>,
}

/// Why a frame could not be turned into a pixel grid.
#[derive(Clone, Copy, Debug, PartialEq, Eq, Structural)]
pub enum FrameError {
    /// The PNG decoder refused the data.
    Decode,
    /// The decoded samples are of a color type that carries no RGB value
    /// (an indexed image that was not expanded).
    UnsupportedFormat,
    /// The number of decoded samples does not match the image's size.
    SampleCount,
}

impl PixelGrid {
    #[verifier::type_invariant]
    spec fn inv(self) -> bool {
        self.pixels@.len() == self.width * self.height
    }

    /// Number of columns.
    pub closed spec fn spec_width(self) -> nat {
        self.width as nat
    }

    /// Number of rows.
    pub closed spec fn spec_height(self) -> nat {
        self.height as nat
    }

    /// The pixels, row after row.
    pub closed spec fn spec_pixels(self) -> Seq<Rgb> {
        self.pixels@
    }

    /// A grid of `width` by `height` pixels given row by row; `None` when
    /// the number of pixels is not `width * height`.
    pub fn new(width: usize, height: usize, pixels: Vec<Rgb>) -> (r: Option<PixelGrid>)
        ensures
            r is Some <==> pixels@.len() == width * height,
            r matches Some(g) ==> g.spec_width() == width && g.spec_height() == height
                && g.spec_pixels() == pixels@,
    {
        let len: usize = pixels.len();
        match width.checked_mul(height) {
            Some(n) => {
                if len == n {
                    Some(PixelGrid { width, height, pixels })
                } else {
                    None
                }
            },
            None => None,
        }
    }

    /// Number of columns.
    pub fn width(&self) -> (r: usize)
        ensures
            r == self.spec_width(),
    {
        self.width
    }

    /// Number of rows.
    pub fn height(&self) -> (r: usize)
        ensures
            r == self.spec_height(),
    {
        self.height
    }

    /// The pixels row by row; there is one for each row and column.
    pub fn pixels(&self) -> (r: &Vec<Rgb>)
        ensures
            r@ == self.spec_pixels(),
            r@.len() == self.spec_width() * self.spec_height(),
    {
        proof {
            use_type_invariant(self);
        }
        &self.pixels
    }
}

/// One channel of a color: 0 for red, 1 for green, 2 for blue.
pub open spec fn channel(p: Rgb, ch: int) -> int {
    if ch == 0 {
        p.0 as int
    } else if ch == 1 {
        p.1 as int
    } else {
        p.2 as int
    }
}

/// The sum of one channel over a list of colors.
pub open spec fn channel_sum(colors: Seq<Rgb>, ch: int) -> int
    decreases colors.len(),
{
    if colors.len() == 0 {
        0
    } else {
        channel_sum(colors.drop_last(), ch) + channel(colors.last(), ch)
    }
}

/// The mean of a non-empty list of colors, channel by channel, rounded down.
pub open spec fn average_spec(colors: Seq<Rgb>) -> Rgb {
    (
        (channel_sum(colors, 0) / colors.len() as int) as u8,
        (channel_sum(colors, 1) / colors.len() as int) as u8,
        (channel_sum(colors, 2) / colors.len() as int) as u8,
    )
}

/// The pixels of column `col` of a grid `width` pixels wide and `height`
/// high, top to bottom.
pub open spec fn column_of(pixels: Seq<Rgb>, width: int, height: int, col: int) -> Seq<Rgb> {
    Seq::new(height as nat, |row: int| pixels[row * width + col])
}

/// The mean color of column `col`.
pub open spec fn column_average(pixels: Seq<Rgb>, width: int, height: int, col: int) -> Rgb {
    average_spec(column_of(pixels, width, height, col))
}

/// The pixels that decoded samples describe.
pub open spec fn pixels_of_samples(width: int, height: int, color_type: u8, samples: Seq<u8>) -> Seq<
    Rgb,
> {
    Seq::new((width * height) as nat, |i: int| sample_pixel(color_type, samples, i))
}

proof fn lemma_channel_sum_bounds(colors: Seq<Rgb>, ch: int)
    ensures
        0 <= channel_sum(colors, ch) <= 255 * colors.len(),
    decreases colors.len(),
{
    if colors.len() > 0 {
        lemma_channel_sum_bounds(colors.drop_last(), ch);
    }
}

proof fn lemma_average_fits(sum: int, n: int)
    requires
        0 <= sum <= 255 * n,
        n > 0,
    ensures
        0 <= sum / n <= 255,
{
    vstd::arithmetic::div_mod::lemma_div_is_ordered(sum, n * 255, n);
    vstd::arithmetic::div_mod::lemma_div_multiples_vanish(255, n);
    vstd::arithmetic::div_mod::lemma_div_pos_is_pos(sum, n);
}

/// The mean of a non-empty list of colors, channel by channel, each sum
/// taken in a wide integer and divided by the count, rounding down.
pub fn average_colors(colors: &Vec<Rgb>) -> (r: Rgb)
    requires
        colors@.len() > 0,
    ensures
        r == average_spec(colors@),
{
    let n: usize = colors.len();
    let mut r: u128 = 0;
    let mut g: u128 = 0;
    let mut b: u128 = 0;
    let mut i: usize = 0;
    while i < n
        invariant
            n == colors@.len(),
            i <= n,
            r == channel_sum(colors@.take(i as int), 0),
            g == channel_sum(colors@.take(i as int), 1),
            b == channel_sum(colors@.take(i as int), 2),
        decreases n - i,
    {
        proof {
            assert(colors@.take(i + 1).drop_last() =~= colors@.take(i as int));
            lemma_channel_sum_bounds(colors@.take(i as int), 0);
            lemma_channel_sum_bounds(colors@.take(i as int), 1);
            lemma_channel_sum_bounds(colors@.take(i as int), 2);
        }
        let c: Rgb = colors[i];
        r = r + c.0 as u128;
        g = g + c.1 as u128;
        b = b + c.2 as u128;
        i = i + 1;
    }
    proof {
        assert(colors@.take(n as int) =~= colors@);
        lemma_channel_sum_bounds(colors@, 0);
        lemma_channel_sum_bounds(colors@, 1);
        lemma_channel_sum_bounds(colors@, 2);
        lemma_average_fits(r as int, n as int);
        lemma_average_fits(g as int, n as int);
        lemma_average_fits(b as int, n as int);
    }
    let div: u128 = n as u128;
    ((r / div) as u8, (g / div) as u8, (b / div) as u8)
}

/// The pixels of column `col`, top to bottom.
pub fn column_pixels(grid: &PixelGrid, col: usize) -> (r: Vec<Rgb>)
    requires
        col < grid.spec_width(),
    ensures
        r@ == column_of(grid.spec_pixels(), grid.spec_width() as int, grid.spec_height() as int, col as int),
{
    let width: usize = grid.width();
    let height: usize = grid.height();
    let pixels: &Vec<Rgb> = grid.pixels();
    let total: usize = pixels.len();
    let mut r: Vec<Rgb> = Vec::new();
    let mut row: usize = 0;
    while row < height
        invariant
            width == grid.spec_width(),
            height == grid.spec_height(),
            pixels@ == grid.spec_pixels(),
            pixels@.len() == width * height,
            total == pixels@.len(),
            col < width,
            row <= height,
            r@ =~= column_of(
                grid.spec_pixels(),
                grid.spec_width() as int,
                grid.spec_height() as int,
                col as int,
            ).take(row as int),
        decreases height - row,
    {
        assert(row * width + col < width * height) by (nonlinear_arith)
            requires
                row < height,
                col < width,
        ;
        let idx: usize = row * width + col;
        r.push(pixels[idx]);
        row = row + 1;
    }
    r
}

/// png's decoding error, carried from the decoder to [`decode_frame`], which
/// reports it as [`FrameError::Decode`].
#[verifier::external_type_specification]
#[verifier::external_body]
pub struct ExDecodingError(png::DecodingError);

/// What the PNG decoder reads out of a file's bytes: width, height, color
/// type code (0 gray, 2 RGB, 3 indexed, 4 gray with alpha, 6 RGBA) and the
/// samples, row by row; `None` when it refuses them.
pub uninterp spec fn png_frame(bytes: Seq<u8>) -> Option<(u32, u32, u8, Seq<u8>)>;

/// Relies on png's `Decoder::read_info` and `Reader::next_frame`, run with the
/// decoder's default transformations and limits: whether they succeed, and
/// the first frame's size, output color type and samples when they do, are
/// fixed by the bytes.
#[verifier::external_body]
fn decode_png(bytes: &[u8]) -> (r: Result<(u32, u32, u8, Vec<u8>), png::DecodingError>)
    ensures
        r is Ok <==> png_frame(bytes@) is Some,
        r matches Ok(f) ==> png_frame(bytes@) == Some((f.0, f.1, f.2, f.3@)),
{
    let decoder = png::Decoder::new(bytes);
    let (info, mut reader) = decoder.read_info()?;
    let mut samples = vec![0u8; info.buffer_size()];
    reader.next_frame(&mut samples)?;
    Ok((info.width, info.height, info.color_type as u8, samples))
}

/// Samples per pixel of a color type code, or 0 for one that holds no RGB
/// value of its own (indexed).
pub open spec fn samples_per_pixel(color_type: u8) -> int {
    if color_type == 0 {
        1
    } else if color_type == 2 {
        3
    } else if color_type == 4 {
        2
    } else if color_type == 6 {
        4
    } else {
        0
    }
}

/// Pixel `i` of a list of samples as RGB: gray is repeated on the three
/// channels, alpha is dropped.
pub open spec fn sample_pixel(color_type: u8, samples: Seq<u8>, i: int) -> Rgb {
    let b = i * samples_per_pixel(color_type);
    if color_type == 0 || color_type == 4 {
        (samples[b], samples[b], samples[b])
    } else {
        (samples[b], samples[b + 1], samples[b + 2])
    }
}

/// The samples hold exactly one pixel of a supported color type for each
/// row and column.
pub open spec fn samples_fit(width: int, height: int, color_type: u8, samples: Seq<u8>) -> bool {
    samples_per_pixel(color_type) > 0 && samples.len() == width * height * samples_per_pixel(
        color_type,
    )
}

/// `g` is the grid that the samples describe.
pub open spec fn grid_of_samples(
    g: PixelGrid,
    width: int,
    height: int,
    color_type: u8,
    samples: Seq<u8>,
) -> bool {
    &&& g.spec_width() == width
    &&& g.spec_height() == height
    &&& g.spec_pixels() == pixels_of_samples(width, height, color_type, samples)
}

/// The pixel grid of decoded samples of the given color type, each pixel
/// brought to RGB.
pub fn grid_from_samples(width: u32, height: u32, color_type: u8, samples: &Vec<u8>) -> (r: Result<
    PixelGrid,
    FrameError,
>)
    ensures
        samples_per_pixel(color_type) == 0 ==> r matches Err(FrameError::UnsupportedFormat),
        samples_per_pixel(color_type) > 0 && !samples_fit(
            width as int,
            height as int,
            color_type,
            samples@,
        ) ==> r matches Err(FrameError::SampleCount),
        samples_fit(width as int, height as int, color_type, samples@) ==> (r matches Ok(g)
            && grid_of_samples(g, width as int, height as int, color_type, samples@)),
{
    let spp: usize = if color_type == 0 {
        1
    } else if color_type == 2 {
        3
    } else if color_type == 4 {
        2
    } else if color_type == 6 {
        4
    } else {
        return Err(FrameError::UnsupportedFormat);
    };
    let w: usize = width as usize;
    let h: usize = height as usize;
    let len: usize = samples.len();
    let n: usize = match w.checked_mul(h) {
        Some(n) => n,
        None => {
            assert(w * h * spp >= w * h) by (nonlinear_arith)
                requires
                    spp >= 1,
                    w * h >= 0,
            ;
            return Err(FrameError::SampleCount);
        },
    };
    let needed: usize = match n.checked_mul(spp) {
        Some(m) => m,
        None => {
            return Err(FrameError::SampleCount);
        },
    };
    if len != needed {
        return Err(FrameError::SampleCount);
    }
    let mut pixels: Vec<Rgb> = Vec::new();
    let mut i: usize = 0;
    while i < n
        invariant
            spp as int == samples_per_pixel(color_type),
            1 <= spp <= 4,
            spp < 3 <==> (color_type == 0 || color_type == 4),
            n == w * h,
            len == samples@.len(),
            len == n * spp,
            i <= n,
            pixels@ =~= Seq::new(n as nat, |k: int| sample_pixel(color_type, samples@, k)).take(
                i as int,
            ),
        decreases n - i,
    {
        assert(i * spp + spp <= n * spp) by (nonlinear_arith)
            requires
                i < n,
                spp >= 1,
        ;
        let b: usize = i * spp;
        let p: Rgb = if spp < 3 {
            (samples[b], samples[b], samples[b])
        } else {
            (samples[b], samples[b + 1], samples[b + 2])
        };
        pixels.push(p);
        i = i + 1;
    }
    assert(pixels@ =~= Seq::new(n as nat, |k: int| sample_pixel(color_type, samples@, k)));
    let grid = PixelGrid::new(w, h, pixels);
    match grid {
        Some(g) => Ok(g),
        None => Err(FrameError::SampleCount),
    }
}

/// What decoding a PNG file gives: the decoder's refusal, an unsupported
/// color type, samples that do not fit the image, or the grid they describe.
pub open spec fn decoded_as(bytes: Seq<u8>, r: Result<PixelGrid, FrameError>) -> bool {
    match png_frame(bytes) {
        None => r matches Err(FrameError::Decode),
        Some(f) => if samples_per_pixel(f.2) == 0 {
            r matches Err(FrameError::UnsupportedFormat)
        } else if !samples_fit(f.0 as int, f.1 as int, f.2, f.3) {
            r matches Err(FrameError::SampleCount)
        } else {
            r matches Ok(g) && grid_of_samples(g, f.0 as int, f.1 as int, f.2, f.3)
        },
    }
}

/// Decodes a PNG file into a pixel grid: the grid that the decoder's samples
/// describe when it accepts the file and they fit the image.
pub fn decode_frame(bytes: &[u8]) -> (r: Result<PixelGrid, FrameError>)
    ensures
        decoded_as(bytes@, r),
{
    match decode_png(bytes) {
        Ok(f) => grid_from_samples(f.0, f.1, f.2, &f.3),
        Err(_) => Err(FrameError::Decode),
    }
}

} // verus!
