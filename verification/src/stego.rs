//! Bytes hidden in the pixels of an image.
//!
//! Every pixel carries one byte: the low two bits of alpha, red, green and
//! blue, from the most significant pair to the least.

use vstd::prelude::*;

verus! {

/// At most this many pixels of an image carry cartridge bytes.
pub const MAX_PIXELS: usize = 0x7fff;

/// One pixel with 8 bits per channel.
#[derive(Clone, Copy, Debug, PartialEq, Eq)]
pub struct Rgba {
    pub r: u8,
    pub g: u8,
    pub b: u8,
    pub a: u8,
}

/// The byte that a pixel carries.
pub open spec fn packed(p: Rgba) -> u8 {
    ((p.a & 3) << 6) | ((p.r & 3) << 4) | ((p.g & 3) << 2) | (p.b & 3)
}

/// The byte stream that a row-major sequence of pixels carries: one byte
/// for each of the first `MAX_PIXELS` pixels.
pub open spec fn hidden_bytes(pixels: Seq<Rgba>) -> Seq<u8> {
    Seq::new(
        if pixels.len() <= MAX_PIXELS {
            pixels.len()
        } else {
            MAX_PIXELS as nat
        },
        |i: int| packed(pixels[i]),
    )
}

/// The carried byte, in arithmetic: the channels modulo 4 are the digits
/// of a base-4 number, alpha first.
pub proof fn lemma_packed_digits(p: Rgba)
    ensures
        packed(p) == (p.a % 4) * 64 + (p.r % 4) * 16 + (p.g % 4) * 4 + (p.b % 4),
{
    let (r, g, b, a) = (p.r, p.g, p.b, p.a);
    assert((((a & 3) << 6) | ((r & 3) << 4) | ((g & 3) << 2) | (b & 3)) == (a % 4) * 64 + (r % 4)
        * 16 + (g % 4) * 4 + (b % 4)) by (bit_vector);
}

/// Packs the low two bits of each channel into one byte.
pub fn pack_pixel(p: Rgba) -> (byte: u8)
    ensures
        byte == packed(p),
{
    ((p.a & 3) << 6) | ((p.r & 3) << 4) | ((p.g & 3) << 2) | (p.b & 3)
}

/// Extracts the hidden byte stream from pixels in row-major order.
pub fn extract_bytes(pixels: &[Rgba]) -> (stream: Vec<u8>)
    ensures
        stream@ == hidden_bytes(pixels@),
{
    let count: usize = if pixels.len() <= MAX_PIXELS {
        pixels.len()
    } else {
        MAX_PIXELS
    };
    let mut stream: Vec<u8> = Vec::with_capacity(count);
    let mut i: usize = 0;
    while i < count
        invariant
            i <= count <= pixels@.len(),
            count == hidden_bytes(pixels@).len(),
            stream@.len() == i,
            forall|j: int| 0 <= j < i ==> #[trigger] stream@[j] == packed(pixels@[j]),
        decreases count - i,
    {
        stream.push(pack_pixel(pixels[i]));
        i = i + 1;
    }
    proof {
        assert(stream@ =~= hidden_bytes(pixels@));
    }
    stream
}

/// `image::ImageError`, the decoder's error. It is carried through
/// unopened: nothing is known of what it holds.
#[verifier::external_type_specification]
#[verifier::external_body]
pub struct ExImageError(image::ImageError);

/// The pixels of the PNG image that the bytes of a file encode, in
/// row-major order and converted to 8-bit RGBA; none where the bytes are
/// no image that the decoder accepts.
pub uninterp spec fn png_pixels(file: Seq<u8>) -> Option<Seq<Rgba>>;

/// Decodes a PNG file held in memory with `image::load_from_memory_with_format`,
/// converts it with `DynamicImage::to_rgba8` and hands out the pixels in
/// the order of `ImageBuffer::pixels`. Nothing is proved of the decoder:
/// the contract only gives its result the name `png_pixels`.
#[verifier::external_body]
pub(crate) fn decode_png(file: &[u8]) -> (r: Result<Vec<Rgba>, image::ImageError>)
    ensures
        match r {
            Ok(pixels) => png_pixels(file@) == Some(pixels@),
            Err(_) => png_pixels(file@).is_none(),
        },
{
    let img = image::load_from_memory_with_format(file, image::ImageFormat::Png)?.to_rgba8();
    Ok(img.pixels().map(|p| Rgba { r: p.0[0], g: p.0[1], b: p.0[2], a: p.0[3] }).collect())
}

} // verus!
