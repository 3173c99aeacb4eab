//! Cartridges: a data block and the decoded program.

use vstd::prelude::*;
use vstd::slice::{slice_subrange, slice_to_vec};
use vstd::string::StringSliceAdditionalSpecFns;
use crate::error::DecodeError;
use crate::format::{declared_len, has_magic, unpack_code, unpacked};
use crate::stego::{decode_png, extract_bytes, hidden_bytes, png_pixels, Rgba};

verus! {

/// Offset in the hidden byte stream at which the data block ends and the
/// code block begins.
pub const CODE_START: usize = 0x4300;

/// The suffix `.p8.png` of an image cartridge's name.
pub open spec fn image_suffix() -> Seq<u8> {
    seq![0x2eu8, 0x70u8, 0x38u8, 0x2eu8, 0x70u8, 0x6eu8, 0x67u8]
}

/// The suffix `.p8` of a plain-text cartridge's name.
pub open spec fn text_suffix() -> Seq<u8> {
    seq![0x2eu8, 0x70u8, 0x38u8]
}

/// `s` ends with `suffix`.
pub open spec fn has_suffix(s: Seq<u8>, suffix: Seq<u8>) -> bool {
    s.len() >= suffix.len() && s.subrange(s.len() - suffix.len(), s.len() as int) == suffix
}

/// Tells whether `s` ends with `suffix`.
pub fn ends_with(s: &[u8], suffix: &[u8]) -> (yes: bool)
    ensures
        yes == has_suffix(s@, suffix@),
{
    if s.len() < suffix.len() {
        return false;
    }
    let start: usize = s.len() - suffix.len();
    let ghost tail = s@.subrange(start as int, s@.len() as int);
    let mut i: usize = 0;
    while i < suffix.len()
        invariant
            i <= suffix@.len(),
            start + suffix@.len() == s@.len() <= usize::MAX,
            tail == s@.subrange(start as int, s@.len() as int),
            forall|j: int| 0 <= j < i ==> #[trigger] tail[j] == suffix@[j],
        decreases suffix@.len() - i,
    {
        if s[start + i] != suffix[i] {
            proof {
                assert(tail[i as int] != suffix@[i as int]);
            }
            return false;
        }
        i = i + 1;
    }
    proof {
        assert(tail =~= suffix@);
    }
    true
}

/// The two blocks of a cartridge.
pub struct CartridgeView {
    pub data: Seq<u8>,
    pub code: Seq<u8>,
}

/// A cartridge: the resource data that is copied into memory, and the
/// code. Built once and read-only afterwards.
#[derive(Debug)]
pub struct Cartridge {
    code: Vec<u8>,
    data: Vec<u8>,
}

impl View for Cartridge {
    type V = CartridgeView;

    closed spec fn view(&self) -> CartridgeView {
        CartridgeView { data: self.data@, code: self.code@ }
    }
}

impl Default for Cartridge {
    /// The empty cartridge.
    fn default() -> (c: Self)
        ensures
            c@.data.len() == 0,
            c@.code.len() == 0,
    {
        Cartridge { code: Vec::new(), data: Vec::new() }
    }
}

/// The byte stream taken from a cartridge file, not yet split.
#[derive(Debug)]
pub struct Rom(pub Vec<u8>);

impl Rom {
    /// Splits the stream of an image cartridge at `CODE_START` into the
    /// data block and the code block, which is still compressed.
    pub fn parse_p8_png(self) -> (c: Cartridge)
        requires
            self.0@.len() >= CODE_START,
        ensures
            c@.data == self.0@.subrange(0, CODE_START as int),
            c@.code == self.0@.subrange(CODE_START as int, self.0@.len() as int),
            c@.data.len() == CODE_START,
    {
        let stream = self.0.as_slice();
        let data = slice_to_vec(slice_subrange(stream, 0, CODE_START));
        let code = slice_to_vec(slice_subrange(stream, CODE_START, stream.len()));
        Cartridge { data, code }
    }

    /// Plain-text cartridges are not supported: this always fails.
    pub fn parse_p8(self) -> (r: Result<Cartridge, DecodeError>)
        ensures
            r == Err::<Cartridge, DecodeError>(DecodeError::UnsupportedFormat),
    {
        Err(DecodeError::UnsupportedFormat)
    }
}

/// Decodes the image in `file` and extracts the byte stream hidden in its
/// pixels. A file that is no readable image gives `IoError`.
pub fn read_p8_png(file: &[u8]) -> (r: Result<Rom, DecodeError>)
    ensures
        match r {
            Ok(rom) => png_pixels(file@).is_some() && rom.0@ == hidden_bytes(
                png_pixels(file@).unwrap(),
            ),
            Err(e) => e == DecodeError::IoError && png_pixels(file@).is_none(),
        },
{
    match decode_png(file) {
        Ok(pixels) => Ok(Rom(extract_bytes(pixels.as_slice()))),
        Err(_) => Err(DecodeError::IoError),
    }
}

/// The cartridge that a hidden byte stream holds: the stream has to reach
/// the code block, and the code block has to decode.
pub open spec fn cartridge_of(stream: Seq<u8>) -> Result<CartridgeView, DecodeError> {
    if stream.len() < CODE_START {
        Err(DecodeError::TruncatedStream)
    } else {
        match unpacked(stream.subrange(CODE_START as int, stream.len() as int)) {
            Err(e) => Err(e),
            Ok(code) => Ok(CartridgeView { data: stream.subrange(0, CODE_START as int), code }),
        }
    }
}

/// What loading a file gives, from its name and the pixels of the image
/// in it (none where the file is no image). Only names that end in
/// `.p8.png` are loaded.
pub open spec fn loaded(name: Seq<u8>, pixels: Option<Seq<Rgba>>) -> Result<
    CartridgeView,
    DecodeError,
> {
    if has_suffix(name, image_suffix()) {
        match pixels {
            None => Err(DecodeError::IoError),
            Some(px) => cartridge_of(hidden_bytes(px)),
        }
    } else if has_suffix(name, text_suffix()) {
        Err(DecodeError::UnsupportedFormat)
    } else {
        Err(DecodeError::IoError)
    }
}

impl Cartridge {
    /// Loads a cartridge from the name of its file and the file's bytes.
    ///
    /// A name that ends in `.p8.png` is an image cartridge: the image is
    /// decoded, the hidden stream extracted and split, and the code
    /// decompressed. A name that ends in `.p8` is a plain-text cartridge,
    /// which is not supported. Any other name is refused as unreadable.
    pub fn new(url: &str, file: &[u8]) -> (r: Result<Self, DecodeError>)
        ensures
            match r {
                Ok(c) => loaded(url.spec_bytes(), png_pixels(file@)) == Ok::<
                    CartridgeView,
                    DecodeError,
                >(c@),
                Err(e) => loaded(url.spec_bytes(), png_pixels(file@)) == Err::<
                    CartridgeView,
                    DecodeError,
                >(e),
            },
    {
        let name = url.as_bytes();
        let image_suffix: [u8; 7] = [0x2e, 0x70, 0x38, 0x2e, 0x70, 0x6e, 0x67];
        let text_suffix: [u8; 3] = [0x2e, 0x70, 0x38];
        proof {
            assert(image_suffix@ =~= self::image_suffix());
            assert(text_suffix@ =~= self::text_suffix());
        }
        if ends_with(name, image_suffix.as_slice()) {
            match read_p8_png(file) {
                Ok(rom) => Cartridge::from_stream(rom.0),
                Err(e) => Err(e),
            }
        } else if ends_with(name, text_suffix.as_slice()) {
            Rom(slice_to_vec(file)).parse_p8()
        } else {
            Err(DecodeError::IoError)
        }
    }

    /// A cartridge made of the two blocks as they are given.
    pub fn from_blocks(data: Vec<u8>, code: Vec<u8>) -> (c: Self)
        ensures
            c@.data == data@,
            c@.code == code@,
    {
        Cartridge { code, data }
    }

    /// Builds a cartridge from the byte stream hidden in its image: splits
    /// the stream and decompresses the code. A stream that ends before
    /// the code block is truncated.
    pub fn from_stream(stream: Vec<u8>) -> (r: Result<Self, DecodeError>)
        ensures
            match r {
                Ok(c) => cartridge_of(stream@) == Ok::<CartridgeView, DecodeError>(c@)
                    && c@.data.len() == CODE_START,
                Err(e) => cartridge_of(stream@) == Err::<CartridgeView, DecodeError>(e),
            },
    {
        if stream.len() < CODE_START {
            return Err(DecodeError::TruncatedStream);
        }
        Rom(stream).parse_p8_png().decompress_new_format()
    }

    /// The data block.
    pub fn data(&self) -> (d: &Vec<u8>)
        ensures
            d@ == self@.data,
    {
        &self.data
    }

    /// The code block.
    pub fn code(&self) -> (c: &Vec<u8>)
        ensures
            c@ == self@.code,
    {
        &self.code
    }

    /// Replaces the compressed code block by the code it decodes to. The
    /// data block stays. A block without the magic of the supported
    /// format gives `UnsupportedFormat`; no other format is tried.
    pub fn decompress_new_format(self) -> (r: Result<Self, DecodeError>)
        ensures
            match r {
                Ok(c) => {
                    &&& unpacked(self@.code) == Ok::<Seq<u8>, DecodeError>(c@.code)
                    &&& c@.code.len() == declared_len(self@.code)
                    &&& c@.data == self@.data
                },
                Err(e) => unpacked(self@.code) == Err::<Seq<u8>, DecodeError>(e),
            },
            !has_magic(self@.code) ==> r matches Err(DecodeError::UnsupportedFormat),
    {
        match unpack_code(self.code.as_slice()) {
            Ok(code) => Ok(Cartridge { code, data: self.data }),
            Err(e) => Err(e),
        }
    }
}

} // verus!
