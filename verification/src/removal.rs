//! Stripping the backdrop. Two strategies share one interface: a fill from
//! the border that respects connectivity, and a colour key that does not.

use vstd::prelude::*;
use vstd::arithmetic::div_mod::{lemma_fundamental_div_mod, lemma_mod_bound};
use crate::background::BackgroundColor;
use crate::flood::{border_connected, flood_fill, matches_background};
use crate::pixel::Pixel;
use crate::raster::{lemma_position_in_range, Raster, RawImage};

verus! {

/// A keyed pixel has less red than this.
pub const KEY_RED_BELOW: u8 = 60;

/// A keyed pixel has more green than this.
pub const KEY_GREEN_ABOVE: u8 = 200;

/// A keyed pixel has less blue than this.
pub const KEY_BLUE_BELOW: u8 = 60;

/// The pixel is of the saturated green that the colour key removes.
pub open spec fn is_key_color(p: Pixel) -> bool {
    p.r < KEY_RED_BELOW && p.g > KEY_GREEN_ABOVE && p.b < KEY_BLUE_BELOW
}

/// `out` is `img` with exactly the positions that `removes` picks cleared.
pub open spec fn stripped(img: Raster, out: Raster, removes: spec_fn(int, int) -> bool) -> bool {
    &&& out.wf()
    &&& out.width == img.width
    &&& out.height == img.height
    &&& forall|x: int, y: int|
        img.in_bounds(x, y) ==> #[trigger] out.at(x, y) == if removes(x, y) {
            Pixel::clear()
        } else {
            img.at(x, y)
        }
}

/// A way of telling background from content, and of clearing the former.
pub trait BackgroundRemover {
    /// Whether the strategy clears the pixel at `(x, y)` of `img`.
    spec fn removes(&self, img: Raster, bg: BackgroundColor, x: int, y: int) -> bool;

    /// A copy of `img` in which the pixels that the strategy picks are fully
    /// transparent and all others are as they were.
    fn remove(&self, img: &RawImage, bg: BackgroundColor) -> (out: RawImage)
        requires
            img.wf(),
        ensures
            out.wf(),
            stripped(img@, out@, |x: int, y: int| self.removes(img@, bg, x, y)),
    ;
}

/// Clears the background that is connected to the image border.
#[derive(Clone, Copy, Debug)]
pub struct FloodFillRemover;

/// Clears every pixel of the key colour, wherever it lies.
#[derive(Clone, Copy, Debug)]
pub struct ColorKeyRemover;

impl BackgroundRemover for FloodFillRemover {
    open spec fn removes(&self, img: Raster, bg: BackgroundColor, x: int, y: int) -> bool {
        border_connected(img, bg, x, y)
    }

    fn remove(&self, img: &RawImage, bg: BackgroundColor) -> (out: RawImage) {
        proof {
            img.lemma_model();
        }
        let out: RawImage = flood_fill(img, bg);
        proof {
            out.lemma_model();
        }
        out
    }
}

impl BackgroundRemover for ColorKeyRemover {
    open spec fn removes(&self, img: Raster, bg: BackgroundColor, x: int, y: int) -> bool {
        is_key_color(img.at(x, y))
    }

    fn remove(&self, img: &RawImage, bg: BackgroundColor) -> (out: RawImage) {
        let out: RawImage = color_key(img);
        proof {
            img.lemma_model();
            out.lemma_model();
            assert forall|x: int, y: int| img@.in_bounds(x, y) implies #[trigger] out@.at(x, y)
                == if is_key_color(img@.at(x, y)) {
                Pixel::clear()
            } else {
                img@.at(x, y)
            } by {
                lemma_position_in_range(img@.width as int, img@.height as int, x, y);
            }
        }
        out
    }
}

/// Clears every pixel of the key colour. Each output pixel is a function of
/// the input pixel at the same place and of nothing else.
pub fn color_key(img: &RawImage) -> (out: RawImage)
    requires
        img.wf(),
    ensures
        out.wf(),
        out@.width == img@.width,
        out@.height == img@.height,
        out@.pixels.len() == img@.pixels.len(),
        forall|i: int|
            0 <= i < img@.pixels.len() ==> #[trigger] out@.pixels[i] == if is_key_color(
                img@.pixels[i],
            ) {
                Pixel::clear()
            } else {
                img@.pixels[i]
            },
{
    let mut out: RawImage = img.duplicate();
    let n: usize = img.pixel_count();
    let mut i: usize = 0;
    while i < n
        invariant
            img.wf(),
            out.wf(),
            n == img@.pixels.len(),
            i <= n,
            out@.width == img@.width,
            out@.height == img@.height,
            out@.pixels.len() == n,
            forall|j: int|
                0 <= j < i ==> #[trigger] out@.pixels[j] == if is_key_color(img@.pixels[j]) {
                    Pixel::clear()
                } else {
                    img@.pixels[j]
                },
            forall|j: int| i <= j < n ==> #[trigger] out@.pixels[j] == img@.pixels[j],
        decreases n - i,
    {
        let p: Pixel = img.pixel(i);
        if p.r < KEY_RED_BELOW && p.g > KEY_GREEN_ABOVE && p.b < KEY_BLUE_BELOW {
            out.set_pixel(i, Pixel::transparent());
        }
        i += 1;
    }
    out
}

/// A background-coloured pixel that no background path joins to the border
/// survives the fill unchanged.
pub proof fn lemma_enclosed_background_survives(
    img: Raster,
    bg: BackgroundColor,
    out: Raster,
    x: int,
    y: int,
)
    requires
        stripped(img, out, |x: int, y: int| FloodFillRemover.removes(img, bg, x, y)),
        img.in_bounds(x, y),
        matches_background(img.at(x, y), bg),
        !border_connected(img, bg, x, y),
    ensures
        out.at(x, y) == img.at(x, y),
{
}

/// The fill never touches a pixel that is not background-coloured.
pub proof fn lemma_fill_keeps_content(img: Raster, bg: BackgroundColor, out: Raster, x: int, y: int)
    requires
        stripped(img, out, |x: int, y: int| FloodFillRemover.removes(img, bg, x, y)),
        img.in_bounds(x, y),
        !matches_background(img.at(x, y), bg),
    ensures
        out.at(x, y) == img.at(x, y),
{
    if border_connected(img, bg, x, y) {
        crate::flood::lemma_connected_is_background(img, bg, x, y);
    }
}

/// What a strategy yields is settled by which pixels it removes: two results
/// for the same image are the same image, however each was computed.
pub proof fn lemma_stripping_is_unique(
    img: Raster,
    removes: spec_fn(int, int) -> bool,
    a: Raster,
    b: Raster,
)
    requires
        img.wf(),
        stripped(img, a, removes),
        stripped(img, b, removes),
    ensures
        a == b,
{
    let w: int = img.width as int;
    assert forall|i: int| 0 <= i < a.pixels.len() implies a.pixels[i] == b.pixels[i] by {
        assert(w > 0) by (nonlinear_arith)
            requires
                0 <= i < w * img.height,
                w >= 0,
        ;
        lemma_fundamental_div_mod(i, w);
        lemma_mod_bound(i, w);
        let x: int = i % w;
        let y: int = i / w;
        assert(w * y == y * w) by (nonlinear_arith);
        assert(y >= 0 && y < img.height) by (nonlinear_arith)
            requires
                0 <= i < w * img.height,
                i == w * y + x,
                0 <= x < w,
        ;
        assert(a.at(x, y) == b.at(x, y));
    }
    assert(a.pixels =~= b.pixels);
    assert(a =~= b);
}

/// What the colour key does to a pixel depends on that pixel's colour only:
/// not on where it lies, nor on its neighbours, nor on the backdrop colour.
pub proof fn lemma_color_key_is_pointwise(
    a: Raster,
    bg_a: BackgroundColor,
    xa: int,
    ya: int,
    b: Raster,
    bg_b: BackgroundColor,
    xb: int,
    yb: int,
)
    requires
        a.at(xa, ya) == b.at(xb, yb),
    ensures
        ColorKeyRemover.removes(a, bg_a, xa, ya) == ColorKeyRemover.removes(b, bg_b, xb, yb),
{
}

} // verus!
