use vstd::prelude::*;

use crate::model::Point;

verus! {

/// An 8-bit grayscale frame: `width * height` pixel intensities, row by row.
pub struct GrayFrame {
    width: u32,
    height: u32,
    pixels: Vec<u8>,
}

impl GrayFrame {
    #[verifier::type_invariant]
    spec fn well_formed(self) -> bool {
        self.pixels@.len() == self.width as int * self.height as int
    }

    /// The width of the frame in pixels.
    pub closed spec fn frame_width(self) -> u32 {
        self.width
    }

    /// The height of the frame in pixels.
    pub closed spec fn frame_height(self) -> u32 {
        self.height
    }

    /// The pixel intensities, row by row.
    pub closed spec fn frame_pixels(self) -> Seq<u8> {
        self.pixels@
    }

    /// Wraps a row-major buffer of `width * height` intensities; `None` when the
    /// buffer has any other length.
    pub fn from_raw(width: u32, height: u32, pixels: Vec<u8>) -> (frame: Option<GrayFrame>)
        ensures
            frame is Some <==> pixels@.len() == width as int * height as int,
            frame matches Some(f) ==> f.frame_width() == width && f.frame_height() == height
                && f.frame_pixels() == pixels@,
    {
        assert(width as u64 * height as u64 <= 0xffff_ffff * 0xffff_ffffu64) by (nonlinear_arith)
            requires
                width <= 0xffff_ffff,
                height <= 0xffff_ffff,
        ;
        let expected: u64 = (width as u64) * (height as u64);
        if (pixels.len() as u64) == expected {
            Some(GrayFrame { width, height, pixels })
        } else {
            None
        }
    }

    /// The width of the frame in pixels.
    pub fn width(&self) -> (w: u32)
        ensures
            w == self.frame_width(),
    {
        self.width
    }

    /// The height of the frame in pixels.
    pub fn height(&self) -> (h: u32)
        ensures
            h == self.frame_height(),
    {
        self.height
    }

    /// The pixel intensities, row by row.
    pub fn pixels(&self) -> (p: &Vec<u8>)
        ensures
            p@ == self.frame_pixels(),
            p@.len() == self.frame_width() as int * self.frame_height() as int,
    {
        proof {
            use_type_invariant(self);
        }
        &self.pixels
    }
}

// ---------------------------------------------------------------------------
// Calls into imageproc
// ---------------------------------------------------------------------------

/// Binary thresholding: intensities strictly above `level` become 255, all
/// others 0.
pub open spec fn binarized(pixels: Seq<u8>, level: u8) -> Seq<u8> {
    pixels.map_values(|p: u8| if p > level { 255u8 } else { 0u8 })
}

/// Calls `imageproc::contrast::threshold` with `ThresholdType::Binary` on the
/// frame given by `width`, `height` and `pixels`. Its source maps every byte
/// of the buffer `p` to `if p > level { 255 } else { 0 }`; the contract says
/// exactly that. `GrayImage::from_raw` accepts the buffer because its length
/// is `width * height`, and `into_raw` hands the buffer back unchanged.
#[verifier::external_body]
pub(crate) fn threshold_binary(width: u32, height: u32, pixels: &Vec<u8>, level: u8) -> (out: Vec<u8>)
    requires
        pixels@.len() == width as int * height as int,
    ensures
        out@ == binarized(pixels@, level),
{
    let image = image::GrayImage::from_raw(width, height, pixels.clone()).unwrap();
    imageproc::contrast::threshold(&image, level, imageproc::contrast::ThresholdType::Binary).into_raw()
}

/// The border contours that `imageproc::contours::find_contours` traces in the
/// frame given by `width`, `height` and `pixels` (Suzuki–Abe border following),
/// each as its list of `(x, y)` points, in the order the function returns them.
pub uninterp spec fn traced_contours(width: u32, height: u32, pixels: Seq<u8>) -> Seq<Seq<(i32, i32)>>;

/// A contour's coordinate pairs as points.
pub open spec fn as_points(coords: Seq<(i32, i32)>) -> Seq<Point> {
    coords.map_values(|c: (i32, i32)| Point { x: c.0, y: c.1 })
}

/// The point lists of the given contours.
pub open spec fn point_lists(contours: Seq<Vec<Point>>) -> Seq<Seq<Point>> {
    contours.map_values(|c: Vec<Point>| c@)
}

/// The traced contours of a frame as point lists.
pub open spec fn traced_point_lists(width: u32, height: u32, pixels: Seq<u8>) -> Seq<Seq<Point>> {
    traced_contours(width, height, pixels).map_values(|c: Seq<(i32, i32)>| as_points(c))
}

/// Calls `imageproc::contours::find_contours::<i32>` on the frame given by
/// `width`, `height` and `pixels` and keeps the points of each contour (its
/// border type and parent index are dropped). The contract names the result,
/// `traced_contours`, and says nothing more of it: the border-following
/// algorithm is not restated.
///
/// The function panics in three ways that the bound on `width * height`
/// rules out: it casts each coordinate to `i32` with a checked cast, it adds
/// one to a coordinate when probing the neighbours of a pixel (an `i32` sum
/// that overflows at `i32::MAX`), and it counts the borders it has traced in
/// an `i32` that starts at 1 and grows by at most one per pixel. With fewer
/// than `i32::MAX` pixels, every coordinate plus one and the border count stay
/// within `i32`. (A frame with no pixels is never scanned.)
#[verifier::external_body]
pub(crate) fn find_contours(width: u32, height: u32, pixels: &Vec<u8>) -> (contours: Vec<Vec<Point>>)
    requires
        pixels@.len() == width as int * height as int,
        (width as int) * (height as int) < 0x7fff_ffff,
    ensures
        point_lists(contours@) == traced_contours(width, height, pixels@).map_values(
            |c: Seq<(i32, i32)>| as_points(c),
        ),
{
    let image = image::GrayImage::from_raw(width, height, pixels.clone()).unwrap();
    imageproc::contours::find_contours::<i32>(&image)
        .into_iter()
        .map(|c| c.points.into_iter().map(|p| Point { x: p.x, y: p.y }).collect())
        .collect()
}

} // verus!
