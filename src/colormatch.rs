//! Per-frame color classification: each pixel column of a frame is labelled
//! with the palette color nearest to the column's mean color.
use vstd::prelude::*;

use crate::color::{is_nearest, nearest_color_index, ColorKind};
use crate::image::{
    average_colors, column_average, column_pixels, decode_frame, pixels_of_samples, png_frame,
    samples_fit, samples_per_pixel, FrameError, PixelGrid,
};

verus! {

/// The classification of one frame: for each pixel column, left to right,
/// the index in the palette of the chosen color and the color itself.
pub struct ColorMatch {
    pub indices: Vec<usize>,
    pub data: Vec<ColorKind>,
}

/// Why a frame could not be classified.
#[derive(Clone, Copy, Debug, PartialEq, Eq, Structural)]
pub enum MatchError {
    /// The palette holds no color.
    EmptyPalette,
    /// The frame has columns but no rows, so its columns have no mean color.
    EmptyImage,
    /// The frame could not be decoded.
    Frame(FrameError),
}

/// `m` labels each column of the `width` by `height` grid `pixels` with the
/// palette entry nearest to the column's mean color.
pub open spec fn classifies(
    m: ColorMatch,
    pixels: Seq<crate::color::Rgb>,
    width: int,
    height: int,
    palette: Seq<ColorKind>,
) -> bool {
    &&& m.indices@.len() == width
    &&& m.data@.len() == width
    &&& forall|c: int|
        0 <= c < width ==> is_nearest(
            palette,
            column_average(pixels, width, height, c),
            #[trigger] m.indices@[c] as int,
        ) && m.data@[c] == palette[m.indices@[c] as int]
}

/// Classifying the PNG file `bytes` against `palette` succeeds: the palette
/// is not empty, the file decodes to samples that fit the image, and the
/// image does not have columns without rows.
pub open spec fn png_classifies(bytes: Seq<u8>, palette: Seq<ColorKind>) -> bool {
    &&& palette.len() > 0
    &&& png_frame(bytes) matches Some(f)
    &&& samples_fit(f.0 as int, f.1 as int, f.2, f.3)
    &&& !(f.0 > 0 && f.1 == 0)
}

/// `m` is what classifying the PNG file `bytes` against `palette` gives.
pub open spec fn classifies_png(m: ColorMatch, bytes: Seq<u8>, palette: Seq<ColorKind>) -> bool {
    &&& png_frame(bytes) matches Some(f)
    &&& samples_fit(f.0 as int, f.1 as int, f.2, f.3)
    &&& classifies(
        m,
        pixels_of_samples(f.0 as int, f.1 as int, f.2, f.3),
        f.0 as int,
        f.1 as int,
        palette,
    )
}

impl ColorMatch {
    /// Classifies every column of `image` against the palette
    /// `color_collection`. Fails on an empty palette, and on an image that
    /// has columns but no rows.
    pub fn from_image(image: &PixelGrid, color_collection: &Vec<ColorKind>) -> (r: Result<
        ColorMatch,
        MatchError,
    >)
        ensures
            r matches Err(MatchError::EmptyPalette) <==> color_collection@.len() == 0,
            r matches Err(MatchError::EmptyImage) <==> color_collection@.len() > 0
                && image.spec_width() > 0 && image.spec_height() == 0,
            !(r matches Err(MatchError::Frame(_))),
            r matches Ok(m) ==> classifies(
                m,
                image.spec_pixels(),
                image.spec_width() as int,
                image.spec_height() as int,
                color_collection@,
            ),
    {
        if color_collection.len() == 0 {
            return Err(MatchError::EmptyPalette);
        }
        let width: usize = image.width();
        let height: usize = image.height();
        if width > 0 && height == 0 {
            return Err(MatchError::EmptyImage);
        }
        let ghost pixels = image.spec_pixels();
        let mut indices: Vec<usize> = Vec::new();
        let mut data: Vec<ColorKind> = Vec::new();
        let mut c: usize = 0;
        while c < width
            invariant
                width == image.spec_width(),
                height == image.spec_height(),
                width > 0 ==> height > 0,
                pixels == image.spec_pixels(),
                color_collection@.len() > 0,
                c <= width,
                indices@.len() == c,
                data@.len() == c,
                forall|k: int|
                    0 <= k < c ==> is_nearest(
                        color_collection@,
                        column_average(pixels, width as int, height as int, k),
                        #[trigger] indices@[k] as int,
                    ) && data@[k] == color_collection@[indices@[k] as int],
            decreases width - c,
        {
            let column = column_pixels(image, c);
            let average = average_colors(&column);
            let idx: usize = nearest_color_index(color_collection, average);
            indices.push(idx);
            data.push(color_collection[idx]);
            c = c + 1;
        }
        Ok(ColorMatch { indices, data })
    }

    /// Decodes a PNG file and classifies its columns against the palette
    /// `color_collection`. An empty palette is reported before the file is
    /// looked at; then a file that does not decode gives the decoding error,
    /// an image with columns but no rows gives `EmptyImage`, and any other
    /// image gives the classification of the pixels that the decoder read.
    pub fn from_png(bytes: &[u8], color_collection: &Vec<ColorKind>) -> (r: Result<
        ColorMatch,
        MatchError,
    >)
        ensures
            r is Ok <==> png_classifies(bytes@, color_collection@),
            color_collection@.len() == 0 ==> r matches Err(MatchError::EmptyPalette),
            color_collection@.len() > 0 ==> match png_frame(bytes@) {
                None => r matches Err(MatchError::Frame(FrameError::Decode)),
                Some(f) => if samples_per_pixel(f.2) == 0 {
                    r matches Err(MatchError::Frame(FrameError::UnsupportedFormat))
                } else if !samples_fit(f.0 as int, f.1 as int, f.2, f.3) {
                    r matches Err(MatchError::Frame(FrameError::SampleCount))
                } else if f.0 > 0 && f.1 == 0 {
                    r matches Err(MatchError::EmptyImage)
                } else {
                    r matches Ok(m) && classifies_png(m, bytes@, color_collection@)
                },
            },
    {
        if color_collection.len() == 0 {
            return Err(MatchError::EmptyPalette);
        }
        match decode_frame(bytes) {
            Ok(grid) => ColorMatch::from_image(&grid, color_collection),
            Err(e) => Err(MatchError::Frame(e)),
        }
    }

    /// For each column, whether its color marks a pressed key.
    pub fn foreground_columns(&self) -> (r: Vec<bool>)
        ensures
            r@.len() == self.data@.len(),
            forall|c: int| 0 <= c < r@.len() ==> #[trigger] r@[c] == (self.data@[c] is ForegroundColor),
    {
        let mut r: Vec<bool> = Vec::new();
        let mut c: usize = 0;
        while c < self.data.len()
            invariant
                c <= self.data@.len(),
                r@.len() == c,
                forall|k: int| 0 <= k < c ==> #[trigger] r@[k] == (self.data@[k] is ForegroundColor),
            decreases self.data@.len() - c,
        {
            r.push(self.data[c].is_foreground());
            c = c + 1;
        }
        r
    }
}

} // verus!
