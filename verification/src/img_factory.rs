//! Image payload encoding: PNG for full-fidelity storage, a lossy JPEG for
//! previews, both rendered to base64, over raw RGBA pixel buffers.

use vstd::prelude::*;

use crate::string_factory::{b64_of, base64_encode, b64_decode_of, base64_decode};

verus! {

/// A raw clipboard image: RGBA, eight bits a channel, row-major.
pub struct ImageContent {
    pub width: usize,
    pub height: usize,
    pub bytes: Vec<u8>,
}

impl ImageContent {
    /// A well-formed image: four bytes a pixel, and dimensions the storage
    /// and preview encoders both accept.
    pub open spec fn wf(&self) -> bool {
        &&& 1 <= self.width <= 65535
        &&& 1 <= self.height <= 65535
        &&& self.bytes@.len() == 4 * self.width * self.height
    }
}

/// The PNG encoding of an RGBA buffer with the given dimensions, as the
/// `image` crate computes it; a fixed function of pixels and dimensions.
pub uninterp spec fn png_of(bytes: Seq<u8>, w: int, h: int) -> Seq<u8>;

/// The JPEG encoding of an RGB buffer at the given quality, as the `image`
/// crate computes it; a fixed function of its arguments.
pub uninterp spec fn jpeg_of(bytes: Seq<u8>, w: int, h: int, quality: u8) -> Seq<u8>;

/// What the `image` crate decodes a PNG byte stream to under its default
/// decode limits, as an RGBA buffer with its dimensions; `None` stands for
/// a decode error, a stream whose image exceeds those limits included.
pub uninterp spec fn png_decode_of(bytes: Seq<u8>) -> Option<(usize, usize, Seq<u8>)>;

/// Relies on image's PngEncoder::write_image with Rgba8 color: the output
/// is a function of the pixel bytes and dimensions alone; it demands a
/// buffer of exactly four bytes a pixel and succeeds into memory for
/// non-empty dimensions. PNG is lossless over RGBA, so decoding the output
/// restores the dimensions and the exact pixel buffer — for images within
/// the decoder's default 512 MiB output-allocation cap; a larger image
/// still encodes, but the capped decoder refuses it.
#[verifier::external_body]
fn png_encode_rgba(bytes: &Vec<u8>, width: u32, height: u32) -> (r: Vec<u8>)
    requires
        1 <= width,
        1 <= height,
        bytes@.len() == 4 * width * height,
    ensures
        r@ == png_of(bytes@, width as int, height as int),
        4 * width * height <= 536870912 ==> png_decode_of(r@) == Some(
            (width as usize, height as usize, bytes@),
        ),
{
    let mut out: Vec<u8> = Vec::new();
    let encoder = image::codecs::png::PngEncoder::new(&mut out);
    image::ImageEncoder::write_image(
        encoder,
        bytes.as_slice(),
        width,
        height,
        image::ExtendedColorType::Rgba8,
    ).unwrap();
    out
}

/// Relies on image's JpegEncoder::new_with_quality and write_image with
/// Rgb8 color: the output is a function of the pixel bytes, dimensions and
/// quality alone; it demands three bytes a pixel and dimensions within the
/// format's 65535 limit.
#[verifier::external_body]
fn jpeg_encode_rgb(bytes: &Vec<u8>, width: u32, height: u32, quality: u8) -> (r: Vec<u8>)
    requires
        1 <= width <= 65535,
        1 <= height <= 65535,
        bytes@.len() == 3 * width * height,
    ensures
        r@ == jpeg_of(bytes@, width as int, height as int, quality),
{
    let mut out: Vec<u8> = Vec::new();
    let encoder = image::codecs::jpeg::JpegEncoder::new_with_quality(&mut out, quality);
    image::ImageEncoder::write_image(
        encoder,
        bytes.as_slice(),
        width,
        height,
        image::ExtendedColorType::Rgb8,
    ).unwrap();
    out
}

/// Relies on image's ImageReader with the PNG format and
/// DynamicImage::into_rgba8, under the crate's default decode limits: the
/// outcome is a function of the input bytes alone; a malformed or
/// over-limit stream decodes to nothing, and a successful decode yields an
/// RGBA buffer of exactly four bytes a pixel.
#[verifier::external_body]
fn png_decode_rgba(bytes: Vec<u8>) -> (r: Option<(usize, usize, Vec<u8>)>)
    ensures
        match r {
            Some(v) => png_decode_of(bytes@) == Some((v.0, v.1, v.2@)) && v.2@.len() == 4 * v.0
                * v.1,
            None => png_decode_of(bytes@) is None,
        },
{
    let reader = image::ImageReader::with_format(
        std::io::BufReader::new(std::io::Cursor::new(bytes)),
        image::ImageFormat::Png,
    );
    match reader.decode() {
        Ok(img) => {
            let rgba = img.into_rgba8();
            let (w, h) = rgba.dimensions();
            Some((w as usize, h as usize, rgba.into_raw()))
        },
        Err(_) => None,
    }
}

/// The RGB bytes of an RGBA buffer: every fourth byte, the alpha channel,
/// dropped. Meant for buffers whose length is a multiple of four.
pub open spec fn spec_rgb_of(b: Seq<u8>) -> Seq<u8>
    decreases b.len(),
{
    if b.len() < 4 {
        Seq::empty()
    } else {
        spec_rgb_of(b.take(b.len() - 4)) + seq![
            b[b.len() - 4],
            b[b.len() - 3],
            b[b.len() - 2],
        ]
    }
}

/// Drop the alpha channel of an RGBA buffer.
fn rgba_to_rgb(bytes: &Vec<u8>) -> (r: Vec<u8>)
    requires
        bytes@.len() % 4 == 0,
    ensures
        r@ == spec_rgb_of(bytes@),
        r@.len() == 3 * (bytes@.len() / 4),
{
    let n = bytes.len();
    let mut out: Vec<u8> = Vec::new();
    let mut i: usize = 0;
    while i < n
        invariant
            i <= n,
            i % 4 == 0,
            n % 4 == 0,
            n == bytes@.len(),
            out@ =~= spec_rgb_of(bytes@.take(i as int)),
            out@.len() == 3 * (i / 4),
        decreases n - i,
    {
        out.push(bytes[i]);
        out.push(bytes[i + 1]);
        out.push(bytes[i + 2]);
        proof {
            assert(bytes@.take(i + 4).take(i as int) =~= bytes@.take(i as int));
            assert(spec_rgb_of(bytes@.take(i + 4)) =~= spec_rgb_of(bytes@.take(i as int)) + seq![
                bytes@[i as int],
                bytes@[i as int + 1],
                bytes@[i as int + 2],
            ]);
        }
        i += 4;
    }
    proof {
        assert(bytes@.take(n as int) =~= bytes@);
    }
    out
}

/// The full-fidelity storage encoding of an image: its PNG bytes in
/// base64. Both layers are invertible, so decoding the result restores the
/// exact image, as long as it fits the PNG decoder's 512 MiB allocation
/// cap; a larger image is still stored, but only the capped decoder
/// refuses to read it back.
pub fn rgba8_to_base64(img: &ImageContent) -> (r: String)
    requires
        img.wf(),
    ensures
        r@ == b64_of(png_of(img.bytes@, img.width as int, img.height as int)),
        b64_decode_of(r@) == Some(png_of(img.bytes@, img.width as int, img.height as int)),
        4 * img.width * img.height <= 536870912 ==> png_decode_of(
            png_of(img.bytes@, img.width as int, img.height as int),
        ) == Some((img.width, img.height, img.bytes@)),
{
    let png = png_encode_rgba(&img.bytes, img.width as u32, img.height as u32);
    base64_encode(png.as_slice())
}

/// The preview encoding of an image: its JPEG bytes, alpha dropped and at
/// the given quality, in base64.
pub fn rgba8_to_jpeg_base64(img: &ImageContent, quality: u8) -> (r: String)
    requires
        img.wf(),
    ensures
        r@ == b64_of(
            jpeg_of(spec_rgb_of(img.bytes@), img.width as int, img.height as int, quality),
        ),
{
    proof {
        let k = (img.width as int) * (img.height as int);
        assert(4 * (img.width as int) * (img.height as int) == 4 * k) by (nonlinear_arith)
            requires
                k == (img.width as int) * (img.height as int),
        ;
        assert(img.bytes@.len() == 4 * k);
        assert(img.bytes@.len() % 4 == 0);
        assert(img.bytes@.len() / 4 == k);
    }
    let rgb = rgba_to_rgb(&img.bytes);
    proof {
        let k = (img.width as int) * (img.height as int);
        assert(rgb@.len() == 3 * k);
        assert(3 * (img.width as int) * (img.height as int) == 3 * k) by (nonlinear_arith)
            requires
                k == (img.width as int) * (img.height as int),
        ;
    }
    let jpeg = jpeg_encode_rgb(&rgb, img.width as u32, img.height as u32, quality);
    base64_encode(jpeg.as_slice())
}

/// Decode a base64 PNG back to a raw image, as when a stored record is
/// placed onto the clipboard again.
pub fn base64_to_rgba8(base64: &str) -> (r: Option<ImageContent>)
    ensures
        match r {
            Some(img) => ({
                &&& b64_decode_of(base64@) is Some
                &&& png_decode_of(b64_decode_of(base64@)->Some_0) == Some(
                    (img.width, img.height, img.bytes@),
                )
                &&& img.bytes@.len() == 4 * img.width * img.height
            }),
            None => b64_decode_of(base64@) is None || png_decode_of(
                b64_decode_of(base64@)->Some_0,
            ) is None,
        },
{
    match base64_decode(base64) {
        Some(bytes) => match png_decode_rgba(bytes) {
            Some((w, h, raw)) => Some(ImageContent { width: w, height: h, bytes: raw }),
            None => None,
        },
        None => None,
    }
}

} // verus!
