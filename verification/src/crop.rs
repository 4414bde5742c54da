//! Cropping to content: the bounding box of the visible pixels, padded and
//! clamped to the image.

use vstd::prelude::*;
use crate::codec::{crop_rgba, rgba_index};
use crate::pixel::Pixel;
use crate::raster::{lemma_position_in_range, Raster, RawImage};

verus! {

/// A pixel is visible when its alpha exceeds this; fainter pixels are
/// antialiasing noise.
pub const VISIBILITY_THRESHOLD: u8 = 10;

/// How many pixels of margin the crop keeps around the content.
pub const CROP_PADDING: u32 = 4;

/// The pixel is opaque enough to count as content.
pub open spec fn visible(p: Pixel) -> bool {
    p.a > VISIBILITY_THRESHOLD
}

/// Some pixel of the image is visible.
pub open spec fn has_content(img: Raster) -> bool {
    exists|x: int, y: int| img.in_bounds(x, y) && visible(#[trigger] img.at(x, y))
}

/// The corners of a rectangle of pixels, both ends included.
#[derive(Clone, Copy, Debug, PartialEq, Eq, Structural)]
pub struct BoundingBox {
    pub min_x: u32,
    pub min_y: u32,
    pub max_x: u32,
    pub max_y: u32,
}

/// Every visible pixel lies inside the box.
pub open spec fn encloses(img: Raster, bb: BoundingBox) -> bool {
    forall|x: int, y: int|
        img.in_bounds(x, y) && visible(#[trigger] img.at(x, y)) ==> bb.min_x <= x <= bb.max_x
            && bb.min_y <= y <= bb.max_y
}

/// Each side of the box holds a visible pixel, so no side can move inwards.
pub open spec fn tight(img: Raster, bb: BoundingBox) -> bool {
    &&& exists|y: int| img.in_bounds(bb.min_x as int, y) && visible(#[trigger] img.at(bb.min_x as int, y))
    &&& exists|y: int| img.in_bounds(bb.max_x as int, y) && visible(#[trigger] img.at(bb.max_x as int, y))
    &&& exists|x: int| img.in_bounds(x, bb.min_y as int) && visible(#[trigger] img.at(x, bb.min_y as int))
    &&& exists|x: int| img.in_bounds(x, bb.max_y as int) && visible(#[trigger] img.at(x, bb.max_y as int))
}

/// `bb` is the smallest rectangle that holds every visible pixel of `img`.
pub open spec fn is_bounding_box(img: Raster, bb: BoundingBox) -> bool {
    encloses(img, bb) && tight(img, bb)
}

/// The bounding box of the content, where there is content.
pub open spec fn content_box(img: Raster) -> BoundingBox {
    choose|bb: BoundingBox| is_bounding_box(img, bb)
}

/// An image has at most one bounding box.
pub proof fn lemma_bounding_box_unique(img: Raster, a: BoundingBox, b: BoundingBox)
    requires
        is_bounding_box(img, a),
        is_bounding_box(img, b),
    ensures
        a == b,
{
}

/// A bounding box lies inside the image and has its corners in order.
pub proof fn lemma_bounding_box_inside(img: Raster, bb: BoundingBox)
    requires
        is_bounding_box(img, bb),
    ensures
        bb.min_x <= bb.max_x < img.width,
        bb.min_y <= bb.max_y < img.height,
        has_content(img),
{
    let y: int = choose|y: int| img.in_bounds(bb.min_x as int, y) && visible(#[trigger] img.at(bb.min_x as int, y));
    assert(img.in_bounds(bb.min_x as int, y) && visible(img.at(bb.min_x as int, y)));
}

/// `(px, py)` comes before `(x, y)` when the image is read row by row.
spec fn scanned(px: int, py: int, x: int, y: int) -> bool {
    py < y || (py == y && px < x)
}

/// What the scan knows after reading every position before `(x, y)`.
spec fn scan_state(
    img: Raster,
    x: int,
    y: int,
    found: bool,
    bb: BoundingBox,
    left: int,
    right: int,
    top: int,
    bottom: int,
) -> bool {
    &&& forall|px: int, py: int|
        img.in_bounds(px, py) && scanned(px, py, x, y) && visible(#[trigger] img.at(px, py))
            ==> found && bb.min_x <= px <= bb.max_x && bb.min_y <= py <= bb.max_y
    &&& found ==> {
        &&& img.in_bounds(bb.min_x as int, left) && visible(img.at(bb.min_x as int, left))
        &&& img.in_bounds(bb.max_x as int, right) && visible(img.at(bb.max_x as int, right))
        &&& img.in_bounds(top, bb.min_y as int) && visible(img.at(top, bb.min_y as int))
        &&& img.in_bounds(bottom, bb.max_y as int) && visible(img.at(bottom, bb.max_y as int))
    }
}

/// Finds the smallest rectangle that holds every visible pixel, if any pixel
/// is visible.
pub fn bounding_box(img: &RawImage) -> (r: Option<BoundingBox>)
    requires
        img.wf(),
    ensures
        r is Some <==> has_content(img@),
        r matches Some(bb) ==> is_bounding_box(img@, bb) && bb == content_box(img@),
{
    let w: u32 = img.width();
    let h: u32 = img.height();
    let mut found: bool = false;
    let mut bb = BoundingBox { min_x: w, min_y: h, max_x: 0, max_y: 0 };
    let ghost mut left: int = 0;
    let ghost mut right: int = 0;
    let ghost mut top: int = 0;
    let ghost mut bottom: int = 0;
    let mut y: u32 = 0;
    while y < h
        invariant
            img.wf(),
            w == img@.width,
            h == img@.height,
            y <= h,
            scan_state(img@, 0, y as int, found, bb, left, right, top, bottom),
        decreases h - y,
    {
        let mut x: u32 = 0;
        while x < w
            invariant
                img.wf(),
                w == img@.width,
                h == img@.height,
                y < h,
                x <= w,
                scan_state(img@, x as int, y as int, found, bb, left, right, top, bottom),
            decreases w - x,
        {
            let p: Pixel = img.get(x, y);
            if p.a > VISIBILITY_THRESHOLD {
                if !found {
                    found = true;
                    bb = BoundingBox { min_x: x, min_y: y, max_x: x, max_y: y };
                    proof {
                        left = y as int;
                        right = y as int;
                        top = x as int;
                        bottom = x as int;
                    }
                } else {
                    if x < bb.min_x {
                        bb.min_x = x;
                        proof {
                            left = y as int;
                        }
                    }
                    if x > bb.max_x {
                        bb.max_x = x;
                        proof {
                            right = y as int;
                        }
                    }
                    if y < bb.min_y {
                        bb.min_y = y;
                        proof {
                            top = x as int;
                        }
                    }
                    if y > bb.max_y {
                        bb.max_y = y;
                        proof {
                            bottom = x as int;
                        }
                    }
                }
            }
            x += 1;
        }
        y += 1;
    }
    if found {
        proof {
            assert(is_bounding_box(img@, bb));
            lemma_bounding_box_unique(img@, bb, content_box(img@));
            lemma_bounding_box_inside(img@, bb);
        }
        Some(bb)
    } else {
        None
    }
}

/// A rectangle of an image: the top-left corner and the size.
#[derive(Clone, Copy, Debug, PartialEq, Eq, Structural)]
pub struct CropRegion {
    pub x: u32,
    pub y: u32,
    pub width: u32,
    pub height: u32,
}

/// Where the padded crop starts on one axis: the padding before the content,
/// as far as the image goes.
pub open spec fn padded_origin(min: int) -> int {
    if min >= CROP_PADDING {
        min - CROP_PADDING
    } else {
        0
    }
}

/// How far the padded crop extends on one axis: the content and the padding
/// on both sides, cut off at the far edge of the image.
pub open spec fn padded_extent(min: int, max: int, size: int) -> int {
    let wanted: int = max - min + 1 + 2 * CROP_PADDING;
    let room: int = size - padded_origin(min);
    if wanted <= room {
        wanted
    } else {
        room
    }
}

/// The padded crop around a bounding box in an image of the given size.
pub open spec fn padded_region(width: int, height: int, bb: BoundingBox) -> CropRegion {
    CropRegion {
        x: padded_origin(bb.min_x as int) as u32,
        y: padded_origin(bb.min_y as int) as u32,
        width: padded_extent(bb.min_x as int, bb.max_x as int, width) as u32,
        height: padded_extent(bb.min_y as int, bb.max_y as int, height) as u32,
    }
}

/// `out` holds exactly the pixels of `img` that lie in `region`.
pub open spec fn is_crop_of(img: Raster, region: CropRegion, out: Raster) -> bool {
    &&& out.wf()
    &&& out.width == region.width
    &&& out.height == region.height
    &&& forall|cx: int, cy: int|
        out.in_bounds(cx, cy) ==> #[trigger] out.at(cx, cy) == img.at(region.x + cx, region.y + cy)
}

fn origin(min: u32) -> (o: u32)
    ensures
        o == padded_origin(min as int),
{
    if min >= CROP_PADDING {
        min - CROP_PADDING
    } else {
        0
    }
}

fn extent(min: u32, max: u32, size: u32) -> (e: u32)
    requires
        min <= max < size,
    ensures
        e == padded_extent(min as int, max as int, size as int),
        1 <= e,
        padded_origin(min as int) + e <= size,
{
    let wanted: u64 = (max - min) as u64 + 1 + 2 * (CROP_PADDING as u64);
    let room: u32 = size - origin(min);
    if wanted <= room as u64 {
        wanted as u32
    } else {
        room
    }
}

/// Computes the padded crop around a bounding box that lies inside an image
/// of the given size.
pub fn crop_region(width: u32, height: u32, bb: BoundingBox) -> (r: CropRegion)
    requires
        bb.min_x <= bb.max_x < width,
        bb.min_y <= bb.max_y < height,
    ensures
        r == padded_region(width as int, height as int, bb),
        1 <= r.width,
        1 <= r.height,
        r.x + r.width <= width,
        r.y + r.height <= height,
{
    CropRegion {
        x: origin(bb.min_x),
        y: origin(bb.min_y),
        width: extent(bb.min_x, bb.max_x, width),
        height: extent(bb.min_y, bb.max_y, height),
    }
}

/// Copies a rectangle that lies inside the image.
pub fn crop(img: RawImage, region: CropRegion) -> (out: RawImage)
    requires
        img.wf(),
        region.x + region.width <= img@.width,
        region.y + region.height <= img@.height,
    ensures
        out.wf(),
        is_crop_of(img@, region, out@),
{
    let width: u32 = img.width();
    let height: u32 = img.height();
    let ghost before: Raster = img@;
    proof {
        img.lemma_model();
    }
    let data: Vec<u8> = img.into_rgba();
    let ghost source: Seq<u8> = data@;
    let bytes: Vec<u8> = crop_rgba(
        data,
        width,
        height,
        region.x,
        region.y,
        region.width,
        region.height,
    );
    let ghost copied: Seq<u8> = bytes@;
    let out: RawImage = RawImage::from_rgba(region.width, region.height, bytes).unwrap();
    proof {
        out.lemma_model();
        assert forall|cx: int, cy: int| out@.in_bounds(cx, cy) implies #[trigger] out@.at(cx, cy)
            == before.at(region.x + cx, region.y + cy) by {
            lemma_position_in_range(region.width as int, region.height as int, cx, cy);
            lemma_position_in_range(
                width as int,
                height as int,
                region.x + cx,
                region.y + cy,
            );
            assert(copied[rgba_index(region.width as int, cx, cy, 0)] == source[rgba_index(
                width as int,
                region.x + cx,
                region.y + cy,
                0,
            )]);
            assert(copied[rgba_index(region.width as int, cx, cy, 1)] == source[rgba_index(
                width as int,
                region.x + cx,
                region.y + cy,
                1,
            )]);
            assert(copied[rgba_index(region.width as int, cx, cy, 2)] == source[rgba_index(
                width as int,
                region.x + cx,
                region.y + cy,
                2,
            )]);
            assert(copied[rgba_index(region.width as int, cx, cy, 3)] == source[rgba_index(
                width as int,
                region.x + cx,
                region.y + cy,
                3,
            )]);
        }
    }
    out
}

/// Crops to the content with a margin. An image without a visible pixel is
/// handed back as it is.
pub fn crop_to_content(img: RawImage) -> (out: RawImage)
    requires
        img.wf(),
    ensures
        out.wf(),
        !has_content(img@) ==> out@ == img@ && out.bytes() == img.bytes(),
        has_content(img@) ==> is_crop_of(
            img@,
            padded_region(img@.width as int, img@.height as int, content_box(img@)),
            out@,
        ),
        out@.width <= img@.width,
        out@.height <= img@.height,
        img@.width > 0 && img@.height > 0 ==> out@.width > 0 && out@.height > 0,
{
    match bounding_box(&img) {
        None => img,
        Some(bb) => {
            proof {
                lemma_bounding_box_inside(img@, bb);
            }
            let region: CropRegion = crop_region(img.width(), img.height(), bb);
            crop(img, region)
        },
    }
}

/// The size of the crop: the content's extent plus the padding on both
/// sides, clamped to what the image has from the crop's origin on.
pub proof fn lemma_crop_dimensions(img: Raster, bb: BoundingBox, out: Raster)
    requires
        img.wf(),
        img.width <= u32::MAX,
        img.height <= u32::MAX,
        is_bounding_box(img, bb),
        is_crop_of(img, padded_region(img.width as int, img.height as int, bb), out),
    ensures
        out.width == vstd::math::min(
            bb.max_x - bb.min_x + 1 + 2 * CROP_PADDING,
            img.width - padded_origin(bb.min_x as int),
        ),
        out.height == vstd::math::min(
            bb.max_y - bb.min_y + 1 + 2 * CROP_PADDING,
            img.height - padded_origin(bb.min_y as int),
        ),
        bb.max_x - bb.min_x + 1 <= out.width <= img.width,
        bb.max_y - bb.min_y + 1 <= out.height <= img.height,
{
    lemma_bounding_box_inside(img, bb);
}

} // verus!
