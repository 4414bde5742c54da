//! Detecting the backdrop: the four corners decide whether an image has a
//! removable background and what colour it is.

use vstd::prelude::*;
use crate::pixel::{channel_diff, channel_distance, Pixel};
use crate::raster::{Raster, RawImage};

verus! {

/// How far, per channel, a corner may lie from the top-left corner.
pub const CORNER_TOLERANCE: u8 = 50;

/// The colour of the backdrop that the removal strategies work from.
#[derive(Clone, Copy, Debug, PartialEq, Eq, Structural)]
pub struct BackgroundColor {
    pub r: u8,
    pub g: u8,
    pub b: u8,
}

/// Why an image has no usable backdrop.
#[derive(Clone, Copy, Debug, PartialEq, Eq, Structural)]
pub enum BackgroundError {
    /// Corner number `index` is too far from the top-left corner.
    InconsistentBackground { reference: BackgroundColor, index: u8, corner: BackgroundColor },
    /// The averaged corner colour is not dominated by green.
    NotGreenDominant { average: BackgroundColor },
}

/// The four corner pixels in the order top-left, top-right, bottom-left,
/// bottom-right.
pub open spec fn corners(img: Raster) -> Seq<Pixel> {
    seq![
        img.at(0, 0),
        img.at(img.width - 1, 0),
        img.at(0, img.height - 1),
        img.at(img.width - 1, img.height - 1),
    ]
}

/// The colour of a pixel, alpha left out.
pub open spec fn color_of(p: Pixel) -> BackgroundColor {
    BackgroundColor { r: p.r, g: p.g, b: p.b }
}

/// No colour channel of `p` differs from that of `q` by more than the
/// corner tolerance.
pub open spec fn close_to(p: Pixel, q: Pixel) -> bool {
    &&& channel_distance(p.r as int, q.r as int) <= CORNER_TOLERANCE
    &&& channel_distance(p.g as int, q.g as int) <= CORNER_TOLERANCE
    &&& channel_distance(p.b as int, q.b as int) <= CORNER_TOLERANCE
}

/// The channel-wise mean of four corners, rounded down.
pub open spec fn average_color(c: Seq<Pixel>) -> BackgroundColor {
    BackgroundColor {
        r: ((c[0].r + c[1].r + c[2].r + c[3].r) / 4) as u8,
        g: ((c[0].g + c[1].g + c[2].g + c[3].g) / 4) as u8,
        b: ((c[0].b + c[1].b + c[2].b + c[3].b) / 4) as u8,
    }
}

/// Green strictly exceeds both red and blue.
pub open spec fn green_dominant(c: BackgroundColor) -> bool {
    c.g > c.r && c.g > c.b
}

/// What sampling four corners yields: the first corner that strays from the
/// top-left one is reported; failing that, the average has to be green.
pub open spec fn sampled(c: Seq<Pixel>) -> Result<BackgroundColor, BackgroundError> {
    if !close_to(c[1], c[0]) {
        Err(
            BackgroundError::InconsistentBackground {
                reference: color_of(c[0]),
                index: 1,
                corner: color_of(c[1]),
            },
        )
    } else if !close_to(c[2], c[0]) {
        Err(
            BackgroundError::InconsistentBackground {
                reference: color_of(c[0]),
                index: 2,
                corner: color_of(c[2]),
            },
        )
    } else if !close_to(c[3], c[0]) {
        Err(
            BackgroundError::InconsistentBackground {
                reference: color_of(c[0]),
                index: 3,
                corner: color_of(c[3]),
            },
        )
    } else if !green_dominant(average_color(c)) {
        Err(BackgroundError::NotGreenDominant { average: average_color(c) })
    } else {
        Ok(average_color(c))
    }
}

fn is_close(p: Pixel, q: Pixel) -> (r: bool)
    ensures
        r == close_to(p, q),
{
    channel_diff(p.r, q.r) <= CORNER_TOLERANCE && channel_diff(p.g, q.g) <= CORNER_TOLERANCE
        && channel_diff(p.b, q.b) <= CORNER_TOLERANCE
}

fn color(p: Pixel) -> (c: BackgroundColor)
    ensures
        c == color_of(p),
{
    BackgroundColor { r: p.r, g: p.g, b: p.b }
}

fn mean4(a: u8, b: u8, c: u8, d: u8) -> (m: u8)
    ensures
        m as int == (a + b + c + d) / 4,
{
    let sum: u16 = a as u16 + b as u16 + c as u16 + d as u16;
    (sum / 4) as u8
}

/// Samples the four corners of a non-empty image and decides on its backdrop.
pub fn sample_background(img: &RawImage) -> (r: Result<BackgroundColor, BackgroundError>)
    requires
        img.wf(),
        img@.width > 0,
        img@.height > 0,
    ensures
        r == sampled(corners(img@)),
        r matches Ok(bg) ==> green_dominant(bg),
{
    let w: u32 = img.width();
    let h: u32 = img.height();
    let c0: Pixel = img.get(0, 0);
    let c1: Pixel = img.get(w - 1, 0);
    let c2: Pixel = img.get(0, h - 1);
    let c3: Pixel = img.get(w - 1, h - 1);
    if !is_close(c1, c0) {
        return Err(
            BackgroundError::InconsistentBackground {
                reference: color(c0),
                index: 1,
                corner: color(c1),
            },
        );
    }
    if !is_close(c2, c0) {
        return Err(
            BackgroundError::InconsistentBackground {
                reference: color(c0),
                index: 2,
                corner: color(c2),
            },
        );
    }
    if !is_close(c3, c0) {
        return Err(
            BackgroundError::InconsistentBackground {
                reference: color(c0),
                index: 3,
                corner: color(c3),
            },
        );
    }
    let average = BackgroundColor {
        r: mean4(c0.r, c1.r, c2.r, c3.r),
        g: mean4(c0.g, c1.g, c2.g, c3.g),
        b: mean4(c0.b, c1.b, c2.b, c3.b),
    };
    if average.g <= average.r || average.g <= average.b {
        return Err(BackgroundError::NotGreenDominant { average });
    }
    Ok(average)
}

/// Inconsistency is reported exactly when some corner strays from the
/// top-left one, and a consistent image is rejected exactly when its average
/// is not green-dominant.
pub proof fn lemma_sampling_rejects(c: Seq<Pixel>)
    ensures
        sampled(c) matches Err(BackgroundError::InconsistentBackground { .. }) <==> !(close_to(
            c[1],
            c[0],
        ) && close_to(c[2], c[0]) && close_to(c[3], c[0])),
        sampled(c) matches Err(BackgroundError::NotGreenDominant { .. }) <==> close_to(c[1], c[0])
            && close_to(c[2], c[0]) && close_to(c[3], c[0]) && !green_dominant(average_color(c)),
        sampled(c) matches Ok(bg) ==> bg == average_color(c) && green_dominant(bg),
{
}

/// The verdict depends on nothing but the four corner pixels: two images
/// with the same corners get the same verdict, whatever else they hold.
pub proof fn lemma_sampling_reads_corners_only(a: Raster, b: Raster)
    requires
        corners(a) == corners(b),
    ensures
        sampled(corners(a)) == sampled(corners(b)),
{
}

/// Two corners that a successful sampling accepted lie within twice the
/// tolerance of each other, on every channel.
pub proof fn lemma_accepted_corners_are_near(c: Seq<Pixel>, i: int, j: int)
    requires
        sampled(c) is Ok,
        0 <= i < 4,
        0 <= j < 4,
    ensures
        channel_distance(c[i].r as int, c[j].r as int) <= 2 * CORNER_TOLERANCE,
        channel_distance(c[i].g as int, c[j].g as int) <= 2 * CORNER_TOLERANCE,
        channel_distance(c[i].b as int, c[j].b as int) <= 2 * CORNER_TOLERANCE,
{
    assert(close_to(c[0], c[0]));
}

} // verus!
