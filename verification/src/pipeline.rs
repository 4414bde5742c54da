//! From the bytes of one generated image to its two emoji variants.

use vstd::prelude::*;
use vstd::string::*;
use vstd::arithmetic::div_mod::{lemma_fundamental_div_mod, lemma_mod_bound};
use crate::background::{corners, sample_background, sampled, BackgroundColor, BackgroundError};
use crate::codec::{encode_png, image_error_text, load_image, png_encoding, to_rgba8};
use crate::compose::{
    compose_canvas, is_composition, longer, scale_to_fit, scaled_side, CANVAS_SIZE, CONTENT_SIZE,
};
use crate::crop::{content_box, crop_to_content, has_content, is_crop_of, padded_region};
use crate::raster::{bytes_of_pixels, Raster, RawImage};
use crate::removal::{stripped, BackgroundRemover, ColorKeyRemover, FloodFillRemover};
use crate::text::{decimal, decimal_string};

verus! {

/// Why one image could not be turned into its variants.
#[derive(Clone, Debug)]
pub enum PipelineError {
    /// The image could not be fetched; holds the collaborator's message.
    FetchFailure(String),
    /// The bytes are no image that can be worked on; holds the detail.
    DecodeFailure(String),
    /// The image has no usable backdrop.
    Background(BackgroundError),
    /// The result could not be written; holds the encoder's message.
    EncodeFailure(String),
}

/// A colour as `(r,g,b)`.
pub open spec fn color_text(c: BackgroundColor) -> Seq<char> {
    "("@ + decimal(c.r as nat) + ","@ + decimal(c.g as nat) + ","@ + decimal(c.b as nat) + ")"@
}

/// What a rejected backdrop is reported as.
pub open spec fn background_error_text(e: BackgroundError) -> Seq<char> {
    match e {
        BackgroundError::InconsistentBackground { reference, index, corner } => {
            "Background inconsistent: corner 0 is "@ + color_text(reference) + ", corner "@
                + decimal(index as nat) + " is "@ + color_text(corner)
        },
        BackgroundError::NotGreenDominant { average } => {
            "Background not green-dominant: "@ + color_text(average)
        },
    }
}

fn push_color(out: &mut String, c: BackgroundColor)
    ensures
        final(out)@ == old(out)@ + color_text(c),
{
    out.append("(");
    out.append(decimal_string(c.r as u64).as_str());
    out.append(",");
    out.append(decimal_string(c.g as u64).as_str());
    out.append(",");
    out.append(decimal_string(c.b as u64).as_str());
    out.append(")");
    assert(out@ =~= old(out)@ + color_text(c));
}

/// Describes a rejected backdrop.
pub fn describe_background_error(e: &BackgroundError) -> (s: String)
    ensures
        s@ == background_error_text(*e),
{
    match e {
        BackgroundError::InconsistentBackground { reference, index, corner } => {
            let mut s: String = String::from_str("Background inconsistent: corner 0 is ");
            push_color(&mut s, *reference);
            s.append(", corner ");
            s.append(decimal_string(*index as u64).as_str());
            s.append(" is ");
            push_color(&mut s, *corner);
            s
        },
        BackgroundError::NotGreenDominant { average } => {
            let mut s: String = String::from_str("Background not green-dominant: ");
            push_color(&mut s, *average);
            s
        },
    }
}

impl PipelineError {
    /// The failure as a sentence for the user.
    pub open spec fn message_text(&self) -> Seq<char> {
        match self {
            PipelineError::FetchFailure(detail) => detail@,
            PipelineError::DecodeFailure(detail) => "Failed to load image: "@ + detail@,
            PipelineError::Background(e) => background_error_text(*e),
            PipelineError::EncodeFailure(detail) => "Failed to encode PNG: "@ + detail@,
        }
    }

    /// Writes the failure as a sentence for the user.
    pub fn message(&self) -> (s: String)
        ensures
            s@ == self.message_text(),
    {
        match self {
            PipelineError::FetchFailure(detail) => detail.clone(),
            PipelineError::DecodeFailure(detail) => {
                let mut s: String = String::from_str("Failed to load image: ");
                s.append(detail.as_str());
                s
            },
            PipelineError::Background(e) => describe_background_error(e),
            PipelineError::EncodeFailure(detail) => {
                let mut s: String = String::from_str("Failed to encode PNG: ");
                s.append(detail.as_str());
                s
            },
        }
    }
}

/// The two emoji variants of one image, each a PNG file.
#[derive(Clone, Debug)]
pub struct VariantPair {
    /// From the fill that respects connectivity.
    pub flood_fill: Vec<u8>,
    /// From the colour key.
    pub color_key: Vec<u8>,
}

/// `out` is what cropping to content makes of `img`.
pub open spec fn is_content_crop(img: Raster, out: Raster) -> bool {
    if has_content(img) {
        is_crop_of(img, padded_region(img.width as int, img.height as int, content_box(img)), out)
    } else {
        out == img
    }
}

/// `out` is what scaling to fit makes of `img`: it has the scaled size, and
/// it is `img` itself where `img` has that size already. Where the size
/// changes, the pixels are the resampling filter's and are not described.
pub open spec fn is_scaling_of(img: Raster, out: Raster) -> bool {
    &&& out.wf()
    &&& out.width == scaled_side(img.width as int, longer(img.width as int, img.height as int))
    &&& out.height == scaled_side(img.height as int, longer(img.width as int, img.height as int))
    &&& (longer(img.width as int, img.height as int) == CONTENT_SIZE ==> out == img)
}

/// The canvas with `content` on its centre.
pub open spec fn canvas_of(content: Raster) -> Raster {
    choose|canvas: Raster| is_composition(content, canvas)
}

/// The PNG file of the canvas with `content` on its centre; `None` where the
/// encoder refuses the canvas.
pub open spec fn canvas_png(content: Raster) -> Option<Seq<u8>> {
    png_encoding(CANVAS_SIZE, CANVAS_SIZE, bytes_of_pixels(canvas_of(content).pixels))
}

/// `png` is what comes of making an emoji of an image whose backdrop has
/// been stripped: the image is cropped to content, scaled to fit, centred on
/// the canvas and encoded. `None` stands for an encoder that refused.
pub open spec fn is_rendering(image: Raster, png: Option<Seq<u8>>) -> bool {
    exists|cropped: Raster, content: Raster|
        is_content_crop(image, cropped) && #[trigger] is_scaling_of(cropped, content) && png
            == canvas_png(content)
}

/// `png` is what comes of making an emoji of `img` by the strategy that
/// clears the pixels that `removes` picks.
pub open spec fn is_variant(
    img: Raster,
    removes: spec_fn(int, int) -> bool,
    png: Option<Seq<u8>>,
) -> bool {
    exists|image: Raster| #[trigger] stripped(img, image, removes) && is_rendering(image, png)
}

/// The pixels that the fill from the border clears for the backdrop `bg`.
pub open spec fn fill_removes(img: Raster, bg: BackgroundColor) -> spec_fn(int, int) -> bool {
    |x: int, y: int| FloodFillRemover.removes(img, bg, x, y)
}

/// The pixels that the colour key clears.
pub open spec fn key_removes(img: Raster, bg: BackgroundColor) -> spec_fn(int, int) -> bool {
    |x: int, y: int| ColorKeyRemover.removes(img, bg, x, y)
}

/// `pair` holds the two variants of `img` for the backdrop colour `bg`.
pub open spec fn are_variants(img: Raster, bg: BackgroundColor, pair: VariantPair) -> bool {
    &&& is_variant(img, fill_removes(img, bg), Some(pair.flood_fill@))
    &&& is_variant(img, key_removes(img, bg), Some(pair.color_key@))
}

/// The encoder refused one of the two variants of `img`.
pub open spec fn variant_refused(img: Raster, bg: BackgroundColor) -> bool {
    ||| is_variant(img, fill_removes(img, bg), None)
    ||| is_variant(img, key_removes(img, bg), None)
}

/// What making an emoji came to, as the contracts speak of it.
pub open spec fn png_of(r: Result<Vec<u8>, PipelineError>) -> Option<Seq<u8>> {
    match r {
        Ok(png) => Some(png@),
        Err(_) => None,
    }
}

/// There is one canvas for given content.
pub proof fn lemma_composition_unique(content: Raster, a: Raster, b: Raster)
    requires
        is_composition(content, a),
        is_composition(content, b),
    ensures
        a == b,
{
    let w: int = CANVAS_SIZE as int;
    assert forall|i: int| 0 <= i < a.pixels.len() implies a.pixels[i] == b.pixels[i] by {
        lemma_fundamental_div_mod(i, w);
        lemma_mod_bound(i, w);
        let x: int = i % w;
        let y: int = i / w;
        assert(a.at(x, y) == b.at(x, y));
    }
    assert(a.pixels =~= b.pixels);
    assert(a =~= b);
}

/// Accepts what the decoder handed out if it is an image with at least one
/// pixel and a buffer of the matching length.
pub fn admit_decoded(width: u32, height: u32, data: Vec<u8>) -> (r: Result<RawImage, PipelineError>)
    ensures
        r is Ok <==> width > 0 && height > 0 && data@.len() == 4 * (width * height),
        r matches Ok(img) ==> img.wf() && img@.width == width && img@.height == height
            && img.bytes() == data@,
        r matches Err(e) ==> e is DecodeFailure,
{
    if width == 0 || height == 0 {
        return Err(PipelineError::DecodeFailure(String::from_str("the image has no pixels")));
    }
    match RawImage::from_rgba(width, height, data) {
        Some(img) => Ok(img),
        None => Err(
            PipelineError::DecodeFailure(
                String::from_str("the pixel buffer does not match the image size"),
            ),
        ),
    }
}

/// Decodes the bytes of an image file into 8-bit RGBA. Whether the bytes
/// decode is the decoder's to say; what is handed back is a well-formed
/// image with at least one pixel, or a decode failure.
pub fn decode(image_bytes: &[u8]) -> (r: Result<RawImage, PipelineError>)
    ensures
        r matches Ok(img) ==> img.wf() && img@.width > 0 && img@.height > 0,
        r matches Err(e) ==> e is DecodeFailure,
{
    match load_image(image_bytes) {
        Err(e) => Err(PipelineError::DecodeFailure(image_error_text(&e))),
        Ok(decoded) => {
            let parts: (u32, u32, Vec<u8>) = to_rgba8(&decoded);
            admit_decoded(parts.0, parts.1, parts.2)
        },
    }
}

/// Centres content on the canvas and encodes the canvas as PNG. The result
/// is the encoder's: its file, or an encoding failure where it refuses.
pub fn finish(content: &RawImage) -> (r: Result<Vec<u8>, PipelineError>)
    requires
        content.wf(),
        content@.width <= CANVAS_SIZE,
        content@.height <= CANVAS_SIZE,
    ensures
        png_of(r) == canvas_png(content@),
        r matches Err(e) ==> e is EncodeFailure,
{
    let canvas: RawImage = compose_canvas(content);
    proof {
        canvas.lemma_model();
        lemma_composition_unique(content@, canvas@, canvas_of(content@));
    }
    match encode_png(canvas.into_rgba(), CANVAS_SIZE, CANVAS_SIZE) {
        Ok(png) => Ok(png),
        Err(e) => Err(PipelineError::EncodeFailure(image_error_text(&e))),
    }
}

/// Makes the emoji of an image whose backdrop has been stripped.
pub fn render(image: RawImage) -> (r: Result<Vec<u8>, PipelineError>)
    requires
        image.wf(),
    ensures
        is_rendering(image@, png_of(r)),
        r matches Err(e) ==> e is EncodeFailure,
{
    let ghost before: Raster = image@;
    let cropped: RawImage = crop_to_content(image);
    let ghost middle: Raster = cropped@;
    let content: RawImage = scale_to_fit(cropped);
    proof {
        content.lemma_model();
        assert(is_content_crop(before, middle));
        assert(is_scaling_of(middle, content@));
    }
    finish(&content)
}

/// Makes both variants of a decoded image, or says why there are none: the
/// backdrop is judged first, and a rejected backdrop is the error.
pub fn process_image(img: &RawImage) -> (r: Result<VariantPair, PipelineError>)
    requires
        img.wf(),
        img@.width > 0,
        img@.height > 0,
    ensures
        sampled(corners(img@)) matches Err(e) ==> r matches Err(PipelineError::Background(b))
            && b == e,
        sampled(corners(img@)) matches Ok(bg) ==> match r {
            Ok(pair) => are_variants(img@, bg, pair),
            Err(e) => e is EncodeFailure && variant_refused(img@, bg),
        },
{
    let bg: BackgroundColor = match sample_background(img) {
        Ok(bg) => bg,
        Err(e) => {
            return Err(PipelineError::Background(e));
        },
    };
    let filled: RawImage = FloodFillRemover.remove(img, bg);
    proof {
        assert(stripped(img@, filled@, fill_removes(img@, bg)));
    }
    let flood_fill: Vec<u8> = match render(filled) {
        Ok(png) => png,
        Err(e) => {
            return Err(e);
        },
    };
    let keyed: RawImage = ColorKeyRemover.remove(img, bg);
    proof {
        assert(stripped(img@, keyed@, key_removes(img@, bg)));
    }
    let color_key: Vec<u8> = match render(keyed) {
        Ok(png) => png,
        Err(e) => {
            return Err(e);
        },
    };
    Ok(VariantPair { flood_fill, color_key })
}

/// `r` is something that working on the bytes of an image can come to: a
/// pair that holds the variants of some image with a green backdrop, or a
/// failure to decode, to find a backdrop or to encode.
pub open spec fn is_emoji_outcome(r: Result<VariantPair, PipelineError>) -> bool {
    match r {
        Ok(pair) => exists|img: Raster, bg: BackgroundColor|
            img.wf() && img.width > 0 && img.height > 0 && sampled(corners(img)) == Ok::<
                BackgroundColor,
                BackgroundError,
            >(bg) && #[trigger] are_variants(img, bg, pair),
        Err(e) => !(e is FetchFailure),
    }
}

/// Turns the bytes of a generated image into its two emoji variants. The
/// image is decoded and then handed to `process_image`, whose contract says
/// what becomes of each decoded image. Which bytes decode, and to what, is
/// the decoder's to say: it also consults decoders that any code of the
/// process may have registered.
pub fn resize_to_emoji(image_bytes: &[u8]) -> (r: Result<VariantPair, PipelineError>)
    ensures
        is_emoji_outcome(r),
{
    let img: RawImage = decode(image_bytes)?;
    proof {
        img.lemma_model();
    }
    let r: Result<VariantPair, PipelineError> = process_image(&img);
    proof {
        if r is Ok {
            let bg: BackgroundColor = sampled(corners(img@)).unwrap();
            assert(are_variants(img@, bg, r->Ok_0));
        }
    }
    r
}

} // verus!
