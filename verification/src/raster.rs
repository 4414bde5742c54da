//! Decoded images: a width, a height and row-major RGBA pixels.

use vstd::prelude::*;
use crate::pixel::Pixel;

verus! {

/// The mathematical model of an image: `pixels[y * width + x]` is the pixel
/// in column `x` of row `y`, the origin being the top-left corner.
#[verifier::ext_equal]
pub struct Raster {
    pub width: nat,
    pub height: nat,
    pub pixels: Seq<Pixel>,
}

impl Raster {
    /// There is exactly one pixel per position.
    pub open spec fn wf(self) -> bool {
        self.pixels.len() == self.width * self.height
    }

    /// Whether `(x, y)` names a position of the image.
    pub open spec fn in_bounds(self, x: int, y: int) -> bool {
        0 <= x < self.width && 0 <= y < self.height
    }

    /// The pixel in column `x` of row `y`.
    pub open spec fn at(self, x: int, y: int) -> Pixel {
        self.pixels[y * self.width + x]
    }
}

/// The pixel that four consecutive bytes of an RGBA buffer encode.
pub open spec fn pixel_of_bytes(bytes: Seq<u8>, i: int) -> Pixel {
    Pixel { r: bytes[4 * i], g: bytes[4 * i + 1], b: bytes[4 * i + 2], a: bytes[4 * i + 3] }
}

/// The pixels that an RGBA byte buffer encodes, four bytes to a pixel.
pub open spec fn pixels_of_bytes(bytes: Seq<u8>) -> Seq<Pixel> {
    Seq::new((bytes.len() / 4) as nat, |i: int| pixel_of_bytes(bytes, i))
}

/// One channel of a pixel: red, green, blue and alpha are 0, 1, 2 and 3.
pub open spec fn channel(p: Pixel, c: int) -> u8 {
    if c == 0 {
        p.r
    } else if c == 1 {
        p.g
    } else if c == 2 {
        p.b
    } else {
        p.a
    }
}

/// The RGBA byte buffer that encodes the pixels, four bytes to a pixel.
pub open spec fn bytes_of_pixels(pixels: Seq<Pixel>) -> Seq<u8> {
    Seq::new(4 * pixels.len(), |k: int| channel(pixels[k / 4], k % 4))
}

/// Row-major positions stay inside the buffer.
pub proof fn lemma_position_in_range(width: int, height: int, x: int, y: int)
    requires
        0 <= x < width,
        0 <= y < height,
    ensures
        0 <= y * width + x < width * height,
        y * width >= 0,
{
    assert(y * width >= 0) by (nonlinear_arith)
        requires
            y >= 0,
            width >= 0,
    ;
    assert(y * width + width <= height * width) by (nonlinear_arith)
        requires
            y + 1 <= height,
            width >= 0,
    ;
    assert(height * width == width * height) by (nonlinear_arith);
}

/// Distinct positions have distinct row-major indices.
pub proof fn lemma_position_injective(width: int, x1: int, y1: int, x2: int, y2: int)
    requires
        0 <= x1 < width,
        0 <= x2 < width,
        y1 * width + x1 == y2 * width + x2,
    ensures
        x1 == x2,
        y1 == y2,
{
    if y1 < y2 {
        assert(y2 * width >= (y1 + 1) * width) by (nonlinear_arith)
            requires
                y2 >= y1 + 1,
                width >= 0,
        ;
        assert((y1 + 1) * width == y1 * width + width) by (nonlinear_arith);
    } else if y2 < y1 {
        assert(y1 * width >= (y2 + 1) * width) by (nonlinear_arith)
            requires
                y1 >= y2 + 1,
                width >= 0,
        ;
        assert((y2 + 1) * width == y2 * width + width) by (nonlinear_arith);
    }
}

/// A decoded image: 8-bit RGBA, row-major, origin top-left.
#[derive(Clone, Debug)]
pub struct RawImage {
    width: u32,
    height: u32,
    data: Vec<u8>,
}

impl View for RawImage {
    type V = Raster;

    closed spec fn view(&self) -> Raster {
        Raster {
            width: self.width as nat,
            height: self.height as nat,
            pixels: Seq::new(
                (self.width * self.height) as nat,
                |i: int| pixel_of_bytes(self.data@, i),
            ),
        }
    }
}

impl RawImage {
    /// The buffer holds exactly four bytes for each position.
    pub closed spec fn wf(&self) -> bool {
        &&& self.data@.len() == 4 * (self.width * self.height)
        &&& self.data@.len() <= usize::MAX
    }

    /// The RGBA bytes behind the image, row by row.
    pub closed spec fn bytes(&self) -> Seq<u8> {
        self.data@
    }

    /// What a well-formed image's model and bytes have to do with each other.
    pub proof fn lemma_model(&self)
        requires
            self.wf(),
        ensures
            self@.wf(),
            self@.width <= u32::MAX,
            self@.height <= u32::MAX,
            self.bytes().len() == 4 * (self@.width * self@.height),
            4 * (self@.width * self@.height) <= usize::MAX,
            self@.pixels == pixels_of_bytes(self.bytes()),
            self.bytes() == bytes_of_pixels(self@.pixels),
    {
        assert(self@.pixels =~= pixels_of_bytes(self.bytes()));
        assert(self.bytes() =~= bytes_of_pixels(self@.pixels));
    }

    /// Takes over an RGBA buffer, if it holds four bytes for each of the
    /// `width * height` positions.
    pub fn from_rgba(width: u32, height: u32, data: Vec<u8>) -> (r: Option<RawImage>)
        ensures
            r is Some <==> data@.len() == 4 * (width * height),
            r matches Some(img) ==> {
                &&& img.wf()
                &&& img@.width == width
                &&& img@.height == height
                &&& img@.pixels == pixels_of_bytes(data@)
                &&& img.bytes() == data@
            },
    {
        assert(0 <= width * height <= 0xffff_ffff * 0xffff_ffff) by (nonlinear_arith)
            requires
                0 <= width <= 0xffff_ffff,
                0 <= height <= 0xffff_ffff,
        ;
        let count: u64 = (width as u64) * (height as u64);
        let len: usize = data.len();
        if len % 4 == 0 && (len / 4) as u64 == count {
            let img = RawImage { width, height, data };
            proof {
                img.lemma_model();
            }
            Some(img)
        } else {
            None
        }
    }

    /// Gives the RGBA buffer back.
    pub fn into_rgba(self) -> (data: Vec<u8>)
        ensures
            data@ == self.bytes(),
            self.wf() ==> data@ == bytes_of_pixels(self@.pixels),
    {
        proof {
            if self.wf() {
                self.lemma_model();
            }
        }
        self.data
    }

    /// A `width` by `height` image whose pixels are all transparent.
    pub fn blank(width: u32, height: u32) -> (img: RawImage)
        requires
            4 * (width * height) <= usize::MAX,
        ensures
            img.wf(),
            img@.width == width,
            img@.height == height,
            forall|i: int| 0 <= i < width * height ==> img@.pixels[i] == Pixel::clear(),
    {
        assert(0 <= width * height) by (nonlinear_arith)
            requires
                0 <= width,
                0 <= height,
        ;
        let count: usize = (width as usize) * (height as usize);
        let data: Vec<u8> = vec![0u8; 4 * count];
        RawImage { width, height, data }
    }

    /// The number of columns.
    pub fn width(&self) -> (w: u32)
        ensures
            w == self@.width,
    {
        self.width
    }

    /// The number of rows.
    pub fn height(&self) -> (h: u32)
        ensures
            h == self@.height,
    {
        self.height
    }

    /// Reads the pixel in column `x` of row `y`.
    pub fn get(&self, x: u32, y: u32) -> (p: Pixel)
        requires
            self.wf(),
            self@.in_bounds(x as int, y as int),
        ensures
            p == self@.at(x as int, y as int),
    {
        proof {
            lemma_position_in_range(self.width as int, self.height as int, x as int, y as int);
        }
        let i: usize = (y as usize) * (self.width as usize) + (x as usize);
        Pixel {
            r: self.data[4 * i],
            g: self.data[4 * i + 1],
            b: self.data[4 * i + 2],
            a: self.data[4 * i + 3],
        }
    }

    /// Overwrites the pixel in column `x` of row `y`; every other pixel stays.
    pub fn set(&mut self, x: u32, y: u32, p: Pixel)
        requires
            old(self).wf(),
            old(self)@.in_bounds(x as int, y as int),
        ensures
            final(self).wf(),
            final(self)@.width == old(self)@.width,
            final(self)@.height == old(self)@.height,
            final(self)@.pixels == old(self)@.pixels.update(y * old(self)@.width + x, p),
            forall|px: int, py: int|
                old(self)@.in_bounds(px, py) ==> #[trigger] final(self)@.at(px, py) == if px == x
                    && py == y {
                    p
                } else {
                    old(self)@.at(px, py)
                },
    {
        proof {
            lemma_position_in_range(self.width as int, self.height as int, x as int, y as int);
            assert forall|px: int, py: int| old(self)@.in_bounds(px, py) && !(px == x && py == y)
                implies py * self.width + px != y * self.width + x by {
                if py * self.width + px == y * self.width + x {
                    lemma_position_injective(self.width as int, px, py, x as int, y as int);
                }
            }
            assert forall|px: int, py: int| old(self)@.in_bounds(px, py) implies 0 <= py
                * self.width + px < self.width * self.height by {
                lemma_position_in_range(self.width as int, self.height as int, px, py);
            }
        }
        let i: usize = (y as usize) * (self.width as usize) + (x as usize);
        self.data.set(4 * i, p.r);
        self.data.set(4 * i + 1, p.g);
        self.data.set(4 * i + 2, p.b);
        self.data.set(4 * i + 3, p.a);
        assert(self@.pixels =~= old(self)@.pixels.update(y * old(self)@.width + x, p));
    }

    /// The number of pixels.
    pub fn pixel_count(&self) -> (n: usize)
        requires
            self.wf(),
        ensures
            n == self@.pixels.len(),
            n == self@.width * self@.height,
    {
        self.data.len() / 4
    }

    /// Reads the pixel with row-major index `i`.
    pub fn pixel(&self, i: usize) -> (p: Pixel)
        requires
            self.wf(),
            i < self@.pixels.len(),
        ensures
            p == self@.pixels[i as int],
    {
        Pixel {
            r: self.data[4 * i],
            g: self.data[4 * i + 1],
            b: self.data[4 * i + 2],
            a: self.data[4 * i + 3],
        }
    }

    /// Overwrites the pixel with row-major index `i`; every other pixel stays.
    pub fn set_pixel(&mut self, i: usize, p: Pixel)
        requires
            old(self).wf(),
            i < old(self)@.pixels.len(),
        ensures
            final(self).wf(),
            final(self)@.width == old(self)@.width,
            final(self)@.height == old(self)@.height,
            final(self)@.pixels == old(self)@.pixels.update(i as int, p),
    {
        self.data.set(4 * i, p.r);
        self.data.set(4 * i + 1, p.g);
        self.data.set(4 * i + 2, p.b);
        self.data.set(4 * i + 3, p.a);
        assert(self@.pixels =~= old(self)@.pixels.update(i as int, p));
    }

    /// An independent copy of the image.
    pub fn duplicate(&self) -> (copy: RawImage)
        ensures
            copy@ == self@,
            copy.bytes() == self.bytes(),
            copy.wf() == self.wf(),
    {
        let data: Vec<u8> = self.data.clone();
        assert(data@ =~= self.data@);
        RawImage { width: self.width, height: self.height, data }
    }
}

} // verus!
