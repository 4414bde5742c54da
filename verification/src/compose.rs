//! Fitting content onto the emoji canvas: an aspect-preserving downscale and
//! a centred copy onto a transparent square.

use vstd::prelude::*;
use crate::codec::resize_lanczos3;
use crate::pixel::Pixel;
use crate::raster::{Raster, RawImage};

verus! {

/// The side of the square canvas.
pub const CANVAS_SIZE: u32 = 128;

/// The side of the square that the content is scaled to fit in; smaller than
/// the canvas, so that a margin stays.
pub const CONTENT_SIZE: u32 = 120;

/// The longer of two sides.
pub open spec fn longer(width: int, height: int) -> int {
    if width >= height {
        width
    } else {
        height
    }
}

/// A side after scaling by `CONTENT_SIZE / long`, rounded down.
pub open spec fn scaled_side(side: int, long: int) -> int {
    if long <= 0 {
        0
    } else {
        side * CONTENT_SIZE / long
    }
}

/// The offset that centres content of the given size on the canvas.
pub open spec fn centering_offset(size: int) -> int {
    (CANVAS_SIZE - size) / 2
}

/// `(x, y)` of the canvas is covered by the centred content.
pub open spec fn covered(content: Raster, x: int, y: int) -> bool {
    &&& centering_offset(content.width as int) <= x < centering_offset(content.width as int)
        + content.width
    &&& centering_offset(content.height as int) <= y < centering_offset(content.height as int)
        + content.height
}

/// `canvas` is the transparent square with `content` copied onto its centre.
pub open spec fn is_composition(content: Raster, canvas: Raster) -> bool {
    &&& canvas.wf()
    &&& canvas.width == CANVAS_SIZE
    &&& canvas.height == CANVAS_SIZE
    &&& forall|x: int, y: int|
        canvas.in_bounds(x, y) ==> #[trigger] canvas.at(x, y) == if covered(content, x, y) {
            content.at(
                x - centering_offset(content.width as int),
                y - centering_offset(content.height as int),
            )
        } else {
            Pixel::clear()
        }
}

proof fn lemma_scaled_side_bounds(side: int, long: int)
    requires
        0 <= side <= long,
    ensures
        0 <= scaled_side(side, long) <= CONTENT_SIZE,
        long > 0 ==> scaled_side(long, long) == CONTENT_SIZE,
        scaled_side(side, long) * long <= side * CONTENT_SIZE,
{
    if long > 0 {
        let c: int = CONTENT_SIZE as int;
        assert(0 <= side * c <= long * c) by (nonlinear_arith)
            requires
                0 <= side <= long,
                c == 120,
        ;
        assert(0 <= (side * c) / long <= c && ((side * c) / long) * long <= side * c)
            by (nonlinear_arith)
            requires
                0 <= side * c <= long * c,
                long > 0,
                c >= 0,
        ;
        assert((long * c) / long == c) by (nonlinear_arith)
            requires
                long > 0,
        ;
    } else {
        assert(0 * long == 0) by (nonlinear_arith);
    }
}

fn scale_side(side: u32, long: u32) -> (r: u32)
    requires
        side <= long,
    ensures
        r == scaled_side(side as int, long as int),
        r <= CONTENT_SIZE,
{
    proof {
        lemma_scaled_side_bounds(side as int, long as int);
    }
    if long == 0 {
        0
    } else {
        assert(side * CONTENT_SIZE <= 0xffff_ffff * 120) by (nonlinear_arith)
            requires
                0 <= side <= 0xffff_ffff,
                CONTENT_SIZE == 120,
        ;
        let scaled: u64 = (side as u64) * (CONTENT_SIZE as u64) / (long as u64);
        scaled as u32
    }
}

/// The size that content of the given size is scaled to: both sides by the
/// factor that brings the longer one to `CONTENT_SIZE`, rounded down.
pub fn scaled_size(width: u32, height: u32) -> (r: (u32, u32))
    ensures
        r.0 == scaled_side(width as int, longer(width as int, height as int)),
        r.1 == scaled_side(height as int, longer(width as int, height as int)),
        r.0 <= CONTENT_SIZE,
        r.1 <= CONTENT_SIZE,
        width == height ==> r.0 == r.1,
        width > 0 && height > 0 ==> longer(r.0 as int, r.1 as int) == CONTENT_SIZE,
{
    let long: u32 = if width >= height {
        width
    } else {
        height
    };
    proof {
        lemma_scaled_side_bounds(long as int, long as int);
    }
    (scale_side(width, long), scale_side(height, long))
}

/// The resampler's buffers fit in memory for every image that does.
proof fn lemma_resample_fits(width: int, height: int)
    requires
        0 <= width <= u32::MAX,
        0 <= height <= u32::MAX,
        4 * (width * height) <= usize::MAX,
    ensures
        16 * (width * scaled_side(height, longer(width, height))) <= usize::MAX / 2,
        4 * (scaled_side(width, longer(width, height)) * scaled_side(
            height,
            longer(width, height),
        )) <= usize::MAX / 2,
{
    let long: int = longer(width, height);
    let nw: int = scaled_side(width, long);
    let nh: int = scaled_side(height, long);
    lemma_scaled_side_bounds(width, long);
    lemma_scaled_side_bounds(height, long);
    assert(0 <= nw * nh <= 120 * 120) by (nonlinear_arith)
        requires
            0 <= nw <= 120,
            0 <= nh <= 120,
    ;
    if usize::MAX == 0xffff_ffff {
        if height == 0 || width == 0 {
            assert(width * nh == 0) by (nonlinear_arith)
                requires
                    width == 0 || nh == 0,
            ;
        } else if width >= height {
            assert(height * height <= width * height) by (nonlinear_arith)
                requires
                    0 <= height <= width,
            ;
            assert(height < 0x8000) by (nonlinear_arith)
                requires
                    height * height < 0x4000_0000,
                    height >= 0,
            ;
            assert(width * nh == nh * width) by (nonlinear_arith);
        } else {
            assert(width * width <= width * height) by (nonlinear_arith)
                requires
                    0 <= width <= height,
            ;
            assert(width < 0x8000) by (nonlinear_arith)
                requires
                    width * width < 0x4000_0000,
                    width >= 0,
            ;
            assert(width * nh <= 0x8000 * 120) by (nonlinear_arith)
                requires
                    0 <= width < 0x8000,
                    0 <= nh <= 120,
            ;
        }
    } else {
        assert(width * nh <= 0xffff_ffff * 120) by (nonlinear_arith)
            requires
                0 <= width <= 0xffff_ffff,
                0 <= nh <= 120,
        ;
    }
}

/// Resamples an image to the size that `scaled_size` gives for it. An image
/// that has that size already comes back as it is; otherwise what the pixels
/// hold is the resampling filter's business, and the size is exact.
pub fn scale_to_fit(img: RawImage) -> (out: RawImage)
    requires
        img.wf(),
    ensures
        out.wf(),
        out@.width == scaled_side(img@.width as int, longer(img@.width as int, img@.height as int)),
        out@.height == scaled_side(
            img@.height as int,
            longer(img@.width as int, img@.height as int),
        ),
        out@.width <= CONTENT_SIZE,
        out@.height <= CONTENT_SIZE,
        longer(img@.width as int, img@.height as int) == CONTENT_SIZE ==> out@ == img@,
{
    let width: u32 = img.width();
    let height: u32 = img.height();
    let target: (u32, u32) = scaled_size(width, height);
    let ghost before: Raster = img@;
    proof {
        img.lemma_model();
        lemma_resample_fits(width as int, height as int);
    }
    let data: Vec<u8> = img.into_rgba();
    let bytes: Vec<u8> = resize_lanczos3(data, width, height, target.0, target.1);
    let out: RawImage = RawImage::from_rgba(target.0, target.1, bytes).unwrap();
    proof {
        out.lemma_model();
        if longer(width as int, height as int) == CONTENT_SIZE {
            assert(width * 120 / 120 == width && height * 120 / 120 == height);
            assert(out@ =~= before);
        }
    }
    out
}

/// The content has been copied up to, but not including, `(x, y)` of it.
spec fn copied_so_far(content: Raster, canvas: Raster, x: int, y: int) -> bool {
    forall|cx: int, cy: int|
        canvas.in_bounds(cx, cy) ==> #[trigger] canvas.at(cx, cy) == if covered(content, cx, cy) && (
        cy - centering_offset(content.height as int) < y || (cy - centering_offset(
            content.height as int,
        ) == y && cx - centering_offset(content.width as int) < x)) {
            content.at(
                cx - centering_offset(content.width as int),
                cy - centering_offset(content.height as int),
            )
        } else {
            Pixel::clear()
        }
}

/// Copies content that fits the canvas onto the centre of a transparent
/// canvas.
pub fn compose_canvas(content: &RawImage) -> (canvas: RawImage)
    requires
        content.wf(),
        content@.width <= CANVAS_SIZE,
        content@.height <= CANVAS_SIZE,
    ensures
        canvas.wf(),
        is_composition(content@, canvas@),
{
    let width: u32 = content.width();
    let height: u32 = content.height();
    let left: u32 = (CANVAS_SIZE - width) / 2;
    let top: u32 = (CANVAS_SIZE - height) / 2;
    let mut canvas: RawImage = RawImage::blank(CANVAS_SIZE, CANVAS_SIZE);
    proof {
        canvas.lemma_model();
        assert forall|cx: int, cy: int| canvas@.in_bounds(cx, cy) implies #[trigger] canvas@.at(
            cx,
            cy,
        ) == Pixel::clear() by {
            crate::raster::lemma_position_in_range(
                CANVAS_SIZE as int,
                CANVAS_SIZE as int,
                cx,
                cy,
            );
        }
    }
    let mut y: u32 = 0;
    while y < height
        invariant
            content.wf(),
            canvas.wf(),
            width == content@.width,
            height == content@.height,
            width <= CANVAS_SIZE,
            height <= CANVAS_SIZE,
            left == centering_offset(width as int),
            top == centering_offset(height as int),
            canvas@.width == CANVAS_SIZE,
            canvas@.height == CANVAS_SIZE,
            y <= height,
            copied_so_far(content@, canvas@, 0, y as int),
        decreases height - y,
    {
        let mut x: u32 = 0;
        while x < width
            invariant
                content.wf(),
                canvas.wf(),
                width == content@.width,
                height == content@.height,
                width <= CANVAS_SIZE,
                height <= CANVAS_SIZE,
                left == centering_offset(width as int),
                top == centering_offset(height as int),
                canvas@.width == CANVAS_SIZE,
                canvas@.height == CANVAS_SIZE,
                y < height,
                x <= width,
                copied_so_far(content@, canvas@, x as int, y as int),
            decreases width - x,
        {
            let p: Pixel = content.get(x, y);
            canvas.set(left + x, top + y, p);
            x += 1;
        }
        y += 1;
    }
    proof {
        canvas.lemma_model();
    }
    canvas
}

/// The composition is always a full canvas, and whatever lies outside the
/// centred content is transparent.
pub proof fn lemma_composition_shape(content: Raster, canvas: Raster, x: int, y: int)
    requires
        is_composition(content, canvas),
        canvas.in_bounds(x, y),
        !covered(content, x, y),
    ensures
        canvas.width == CANVAS_SIZE,
        canvas.height == CANVAS_SIZE,
        canvas.pixels.len() == CANVAS_SIZE * CANVAS_SIZE,
        canvas.at(x, y) == Pixel::clear(),
{
}

/// Scaling brings the longer side of non-empty content to `CONTENT_SIZE` and
/// never beyond, and a square stays a square.
pub proof fn lemma_scaling_fits(width: int, height: int)
    requires
        0 <= width,
        0 <= height,
    ensures
        scaled_side(width, longer(width, height)) <= CONTENT_SIZE,
        scaled_side(height, longer(width, height)) <= CONTENT_SIZE,
        width > 0 || height > 0 ==> scaled_side(longer(width, height), longer(width, height))
            == CONTENT_SIZE,
        width == height ==> scaled_side(width, longer(width, height)) == scaled_side(
            height,
            longer(width, height),
        ),
{
    lemma_scaled_side_bounds(width, longer(width, height));
    lemma_scaled_side_bounds(height, longer(width, height));
    lemma_scaled_side_bounds(longer(width, height), longer(width, height));
}

} // verus!
