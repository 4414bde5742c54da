//! The calls into the `image` crate: decoding, cropping, resampling and PNG
//! encoding. Nothing in this file is proved; each contract states what the
//! crate's source shows.

use vstd::prelude::*;

verus! {

/// `image::ImageError`: what decoding or encoding failed with. Opaque; only
/// its display text is read.
#[verifier::external_type_specification]
#[verifier::external_body]
pub struct ExImageError(image::ImageError);

/// `image::DynamicImage`: a decoded image in whatever pixel format its file
/// had. Opaque; it is only handed on to be converted to RGBA.
#[verifier::external_type_specification]
#[verifier::external_body]
pub struct ExDynamicImage(image::DynamicImage);

/// The index of channel `c` of the pixel at `(x, y)` in a row-major RGBA
/// buffer of the given width.
pub open spec fn rgba_index(width: int, x: int, y: int, c: int) -> int {
    4 * (y * width + x) + c
}

/// The PNG file that the encoder writes for an RGBA buffer of the given size;
/// `None` where the encoder refuses the image.
pub uninterp spec fn png_encoding(width: u32, height: u32, rgba: Seq<u8>) -> Option<Seq<u8>>;

/// `image::load_from_memory`: guesses the format of `bytes` and decodes
/// them. Nothing is claimed of the outcome, which is no function of the
/// bytes alone: the crate first asks the decoders and format hints that any
/// code of the process may have registered with it.
#[verifier::external_body]
pub(crate) fn load_image(bytes: &[u8]) -> (r: Result<image::DynamicImage, image::ImageError>) {
    image::load_from_memory(bytes)
}

/// `image::DynamicImage::to_rgba8`: the image as 8-bit RGBA, handed out as
/// its width, its height and its raw buffer. The image is opaque, so nothing
/// can be claimed of them; the caller checks the buffer's length.
#[verifier::external_body]
pub(crate) fn to_rgba8(decoded: &image::DynamicImage) -> (r: (u32, u32, Vec<u8>)) {
    let rgba = decoded.to_rgba8();
    let (width, height) = rgba.dimensions();
    (width, height, rgba.into_raw())
}

/// `std::string::ToString::to_string` on an `image::ImageError`: the error's
/// display text. Nothing is claimed of it.
#[verifier::external_body]
pub(crate) fn image_error_text(error: &image::ImageError) -> (text: String) {
    error.to_string()
}

/// `image::imageops::crop_imm` and `SubImage::to_image`: copies the `w` by
/// `h` rectangle whose top-left corner is `(x, y)`. The rectangle has to lie
/// inside the image, so that the crate clamps nothing; the result then holds
/// the rectangle's pixels, byte for byte.
#[verifier::external_body]
pub(crate) fn crop_rgba(
    data: Vec<u8>,
    width: u32,
    height: u32,
    x: u32,
    y: u32,
    w: u32,
    h: u32,
) -> (out: Vec<u8>)
    requires
        data@.len() == 4 * (width * height),
        x + w <= width,
        y + h <= height,
    ensures
        out@.len() == 4 * (w * h),
        forall|cx: int, cy: int, c: int|
            0 <= cx < w && 0 <= cy < h && 0 <= c < 4 ==> out@[#[trigger] rgba_index(
                w as int,
                cx,
                cy,
                c,
            )] == data@[rgba_index(width as int, x + cx, y + cy, c)],
{
    let source = image::RgbaImage::from_raw(width, height, data).unwrap();
    image::imageops::crop_imm(&source, x, y, w, h).to_image().into_raw()
}

/// `image::imageops::resize` with the Lanczos3 filter. The result has four
/// bytes for each of the `new_width * new_height` positions. Where the size
/// does not change the crate copies the image; otherwise what the bytes hold
/// comes out of floating-point arithmetic and is not stated. The bounds keep
/// the crate's buffers, the intermediate one in 32-bit floats included,
/// within what a vector can hold.
#[verifier::external_body]
pub(crate) fn resize_lanczos3(
    data: Vec<u8>,
    width: u32,
    height: u32,
    new_width: u32,
    new_height: u32,
) -> (out: Vec<u8>)
    requires
        data@.len() == 4 * (width * height),
        16 * (width * new_height) <= usize::MAX / 2,
        4 * (new_width * new_height) <= usize::MAX / 2,
    ensures
        out@.len() == 4 * (new_width * new_height),
        new_width == width && new_height == height ==> out@ == data@,
{
    let source = image::RgbaImage::from_raw(width, height, data).unwrap();
    let filter = image::imageops::FilterType::Lanczos3;
    image::imageops::resize(&source, new_width, new_height, filter).into_raw()
}

/// `image::ImageBuffer::write_to` with `ImageFormat::Png`, into a buffer in
/// memory, for an image with at least one pixel. Writing to memory does not
/// fail, so whether the encoder succeeds and what it writes depend on the
/// image alone: that is what `png_encoding` stands for.
#[verifier::external_body]
pub(crate) fn encode_png(data: Vec<u8>, width: u32, height: u32) -> (r: Result<
    Vec<u8>,
    image::ImageError,
>)
    requires
        width > 0,
        height > 0,
        data@.len() == 4 * (width * height),
    ensures
        match r {
            Ok(png) => png_encoding(width, height, data@) == Some(png@),
            Err(_) => png_encoding(width, height, data@) is None,
        },
{
    let source = image::RgbaImage::from_raw(width, height, data).unwrap();
    let mut sink = std::io::Cursor::new(Vec::new());
    source.write_to(&mut sink, image::ImageFormat::Png)?;
    Ok(sink.into_inner())
}

} // verus!
