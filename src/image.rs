//! Sampling of a decoded raster for image textures.
//!
//! A raster is a byte buffer with its width and height in pixels, the bytes
//! per pixel and the bytes per scanline. Texture coordinates are mapped to a
//! pixel column and row elsewhere; here the pixel is clamped to the raster and
//! its first three bytes are read as red, green and blue.

use vstd::prelude::*;

verus! {

/// Byte offset of the pixel at column `i`, row `j`.
pub open spec fn pixel_offset(i: int, j: int, bytes_per_pixel: int, bytes_per_scanline: int) -> int {
    j * bytes_per_scanline + i * bytes_per_pixel
}

/// A raster can be sampled when it has at least one pixel and the three
/// bytes of its last pixel lie inside the buffer.
pub open spec fn raster_ok(
    len: int,
    width: int,
    height: int,
    bytes_per_pixel: int,
    bytes_per_scanline: int,
) -> bool {
    &&& width >= 1
    &&& height >= 1
    &&& pixel_offset(width - 1, height - 1, bytes_per_pixel, bytes_per_scanline) + 3 <= len
}

/// What decoding the bytes of a JPEG file gives: the pixels, the width and
/// height in pixels and the bytes per pixel; `None` when they do not decode.
pub uninterp spec fn jpeg_raster(b: Seq<u8>) -> Option<(Seq<u8>, u16, u16, usize)>;

/// Relies on `jpeg_decoder::Decoder::decode` over the bytes of a JPEG file,
/// and on the width, height and pixel format that `Decoder::info` reports
/// once decoding succeeded; `PixelFormat::pixel_bytes` gives the bytes per
/// pixel. The crate is built with its `platform_independent` feature, which
/// keeps only the bit-for-bit portable decoding paths, so the result depends
/// on the bytes alone.
#[verifier::external_body]
fn decode_jpeg(bytes: &Vec<u8>) -> (r: Option<(Vec<u8>, u16, u16, usize)>)
    ensures
        (match r {
            Some((p, w, h, bpp)) => jpeg_raster(bytes@) == Some((p@, w, h, bpp)),
            None => jpeg_raster(bytes@).is_none(),
        }),
{
    let mut decoder = jpeg_decoder::Decoder::new(bytes.as_slice());
    let pixels = decoder.decode().ok()?;
    let info = decoder.info()?;
    Some((pixels, info.width, info.height, info.pixel_format.pixel_bytes()))
}

/// A decoded raster can be sampled when its rows are `bytes_per_pixel *
/// width` bytes long.
pub open spec fn decoded_ok(d: (Seq<u8>, u16, u16, usize)) -> bool {
    &&& d.3 * d.1 <= usize::MAX
    &&& raster_ok(d.0.len() as int, d.1 as int, d.2 as int, d.3 as int, d.3 * d.1)
}

/// An image texture: a decoded raster.
pub struct ImageTexture {
    data: Vec<u8>,
    width: u16,
    height: u16,
    bytes_per_pixel: usize,
    bytes_per_scanline: usize,
}

impl ImageTexture {
    pub closed spec fn data_spec(&self) -> Seq<u8> {
        self.data@
    }

    pub closed spec fn width_spec(&self) -> int {
        self.width as int
    }

    pub closed spec fn height_spec(&self) -> int {
        self.height as int
    }

    pub closed spec fn bytes_per_pixel_spec(&self) -> int {
        self.bytes_per_pixel as int
    }

    pub closed spec fn bytes_per_scanline_spec(&self) -> int {
        self.bytes_per_scanline as int
    }

    pub open spec fn wf(&self) -> bool {
        raster_ok(
            self.data_spec().len() as int,
            self.width_spec(),
            self.height_spec(),
            self.bytes_per_pixel_spec(),
            self.bytes_per_scanline_spec(),
        )
    }

    /// The pixel that column `i`, row `j` stands for: coordinates past the
    /// last column or row are clamped to it.
    pub open spec fn clamped_column(&self, i: int) -> int {
        if i >= self.width_spec() {
            self.width_spec() - 1
        } else {
            i
        }
    }

    pub open spec fn clamped_row(&self, j: int) -> int {
        if j >= self.height_spec() {
            self.height_spec() - 1
        } else {
            j
        }
    }

    /// The red, green and blue bytes read for column `i`, row `j`.
    pub open spec fn texel_spec(&self, i: int, j: int) -> (u8, u8, u8) {
        let o = pixel_offset(
            self.clamped_column(i),
            self.clamped_row(j),
            self.bytes_per_pixel_spec(),
            self.bytes_per_scanline_spec(),
        );
        (self.data_spec()[o], self.data_spec()[o + 1], self.data_spec()[o + 2])
    }

    /// Takes a decoded raster. Returns `None` exactly when it cannot be
    /// sampled: no pixel, or a last pixel whose bytes run past the buffer.
    pub fn new(
        data: Vec<u8>,
        width: u16,
        height: u16,
        bytes_per_pixel: usize,
        bytes_per_scanline: usize,
    ) -> (r: Option<ImageTexture>)
        ensures
            r.is_some() <==> raster_ok(
                data@.len() as int,
                width as int,
                height as int,
                bytes_per_pixel as int,
                bytes_per_scanline as int,
            ),
            r matches Some(t) ==> {
                &&& t.wf()
                &&& t.data_spec() == data@
                &&& t.width_spec() == width as int
                &&& t.height_spec() == height as int
                &&& t.bytes_per_pixel_spec() == bytes_per_pixel as int
                &&& t.bytes_per_scanline_spec() == bytes_per_scanline as int
            },
    {
        let len = data.len();
        if width == 0 || height == 0 {
            return None;
        }
        proof {
            let h1 = (height - 1) as int;
            let w1 = (width - 1) as int;
            assert(0 <= h1 * bytes_per_scanline && 0 <= w1 * bytes_per_pixel) by (nonlinear_arith)
                requires
                    0 <= h1,
                    0 <= w1,
            ;
        }
        let row = match ((height - 1) as usize).checked_mul(bytes_per_scanline) {
            Some(v) => v,
            None => return None,
        };
        let column = match ((width - 1) as usize).checked_mul(bytes_per_pixel) {
            Some(v) => v,
            None => return None,
        };
        let last = match row.checked_add(column) {
            Some(v) => v,
            None => return None,
        };
        if last >= len || len - last < 3 {
            return None;
        }
        Some(ImageTexture { data, width, height, bytes_per_pixel, bytes_per_scanline })
    }

    /// Decodes the bytes of a JPEG file into a texture whose rows are
    /// `bytes_per_pixel * width` bytes long. Returns `None` exactly when the
    /// bytes do not decode or the decoded raster cannot be sampled.
    pub fn decode(bytes: &Vec<u8>) -> (r: Option<ImageTexture>)
        ensures
            r.is_some() <==> (jpeg_raster(bytes@) matches Some(d) && decoded_ok(d)),
            r matches Some(t) ==> (jpeg_raster(bytes@) matches Some(d) && {
                &&& t.wf()
                &&& t.data_spec() == d.0
                &&& t.width_spec() == d.1 as int
                &&& t.height_spec() == d.2 as int
                &&& t.bytes_per_pixel_spec() == d.3 as int
                &&& t.bytes_per_scanline_spec() == d.3 * d.1
            }),
    {
        match decode_jpeg(bytes) {
            None => None,
            Some((pixels, width, height, bytes_per_pixel)) => {
                match bytes_per_pixel.checked_mul(width as usize) {
                    None => None,
                    Some(bytes_per_scanline) => ImageTexture::new(
                        pixels,
                        width,
                        height,
                        bytes_per_pixel,
                        bytes_per_scanline,
                    ),
                }
            },
        }
    }

    /// Width in pixels.
    pub fn width(&self) -> (r: u16)
        ensures
            r as int == self.width_spec(),
    {
        self.width
    }

    /// Height in pixels.
    pub fn height(&self) -> (r: u16)
        ensures
            r as int == self.height_spec(),
    {
        self.height
    }

    /// The red, green and blue bytes of the pixel at column `i`, row `j`,
    /// each coordinate clamped to the last one of the raster.
    pub fn texel(&self, i: usize, j: usize) -> (r: (u8, u8, u8))
        requires
            self.wf(),
        ensures
            r == self.texel_spec(i as int, j as int),
    {
        let ci: usize = if i >= self.width as usize {
            (self.width - 1) as usize
        } else {
            i
        };
        let cj: usize = if j >= self.height as usize {
            (self.height - 1) as usize
        } else {
            j
        };
        let w1 = (self.width - 1) as usize;
        let h1 = (self.height - 1) as usize;
        let bpp = self.bytes_per_pixel;
        let bps = self.bytes_per_scanline;
        let _len = self.data.len();
        proof {
            assert(ci * bpp <= w1 * bpp) by (nonlinear_arith)
                requires
                    ci <= w1,
            ;
            assert(cj * bps <= h1 * bps) by (nonlinear_arith)
                requires
                    cj <= h1,
            ;
            assert(0 <= ci * bpp && 0 <= cj * bps) by (nonlinear_arith);
        }
        let offset = cj * bps + ci * bpp;
        (self.data[offset], self.data[offset + 1], self.data[offset + 2])
    }
}

} // verus!
