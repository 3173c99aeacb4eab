//! The framing of a compressed code block.
//!
//! A block is a 4-byte magic, the decompressed length and the total block
//! length as big-endian 16-bit numbers, and the compressed payload, which
//! runs from byte 8 up to the total length.

use vstd::prelude::*;
use vstd::slice::slice_subrange;
use crate::codec::{
    decoded, decompress, initial_state, lemma_decode_from_errors, lemma_decode_from_len,
};
use crate::error::DecodeError;

verus! {

/// Number of bytes before the payload.
pub const HEADER_SIZE: usize = 8;

/// The magic of the supported format: a zero byte and the letters `pxa`.
pub open spec fn magic() -> Seq<u8> {
    seq![0u8, 0x70u8, 0x78u8, 0x61u8]
}

/// `block` starts with the magic.
pub open spec fn has_magic(block: Seq<u8>) -> bool {
    block.len() >= 4 && block.subrange(0, 4) == magic()
}

/// The big-endian number made of two bytes.
pub open spec fn be16(hi: u8, lo: u8) -> nat {
    (hi as nat) * 256 + (lo as nat)
}

/// The two lengths that a header declares.
#[derive(Clone, Copy, Debug)]
pub struct Header {
    /// Length of the code once decompressed.
    pub decompressed_len: usize,
    /// Length of the whole block, header included.
    pub total_len: usize,
}

/// The header of `block`: none without the magic, and none where the
/// block is shorter than a header or than the length it declares, or
/// declares a length shorter than a header.
pub open spec fn header_of(block: Seq<u8>) -> Result<Header, DecodeError> {
    if !has_magic(block) {
        Err(DecodeError::UnsupportedFormat)
    } else if block.len() < 8 {
        Err(DecodeError::TruncatedStream)
    } else {
        let total = be16(block[6], block[7]);
        if total < 8 || total > block.len() {
            Err(DecodeError::TruncatedStream)
        } else {
            Ok(
                Header {
                    decompressed_len: be16(block[4], block[5]) as usize,
                    total_len: total as usize,
                },
            )
        }
    }
}

/// The code that `block` holds: its payload, decompressed to the declared
/// length.
pub open spec fn unpacked(block: Seq<u8>) -> Result<Seq<u8>, DecodeError> {
    match header_of(block) {
        Err(e) => Err(e),
        Ok(h) => decoded(block.subrange(8, h.total_len as int), h.decompressed_len as nat),
    }
}

/// The decompressed length that the header of `block` declares.
pub open spec fn declared_len(block: Seq<u8>) -> nat
    recommends
        block.len() >= 8,
{
    be16(block[4], block[5])
}

/// A block is refused as unsupported exactly when it lacks the magic:
/// nothing else is ever tried on such a block, and nothing behind the
/// magic gives that error.
pub proof fn lemma_unsupported_iff_no_magic(block: Seq<u8>)
    ensures
        unpacked(block) == Err::<Seq<u8>, DecodeError>(DecodeError::UnsupportedFormat)
            <==> !has_magic(block),
{
    if let Ok(h) = header_of(block) {
        lemma_decode_from_errors(
            block.subrange(8, h.total_len as int),
            h.decompressed_len as nat,
            initial_state(),
        );
    }
}

/// Code that was unpacked has exactly the length that the header
/// declares.
pub proof fn lemma_unpacked_len(block: Seq<u8>)
    ensures
        unpacked(block) matches Ok(code) ==> code.len() == declared_len(block),
{
    if let Ok(h) = header_of(block) {
        lemma_decode_from_len(
            block.subrange(8, h.total_len as int),
            h.decompressed_len as nat,
            initial_state(),
        );
    }
}

/// Tells whether `block` starts with the magic.
pub fn check_magic(block: &[u8]) -> (ok: bool)
    ensures
        ok == has_magic(block@),
{
    if block.len() < 4 {
        return false;
    }
    let ok = block[0] == 0 && block[1] == 0x70 && block[2] == 0x78 && block[3] == 0x61;
    proof {
        let head = block@.subrange(0, 4);
        assert(head[0] == block@[0] && head[1] == block@[1] && head[2] == block@[2] && head[3]
            == block@[3]);
        if ok {
            assert(head =~= magic());
        }
    }
    ok
}

/// Reads two bytes as a big-endian number.
pub fn read_be16(hi: u8, lo: u8) -> (n: usize)
    ensures
        n == be16(hi, lo),
        n <= 0xffff,
{
    (hi as usize) * 256 + (lo as usize)
}

/// Validates the magic and reads the two lengths. Never guesses at
/// another format: a block without the magic is refused.
pub fn parse_header(block: &[u8]) -> (r: Result<Header, DecodeError>)
    ensures
        r == header_of(block@),
{
    if !check_magic(block) {
        return Err(DecodeError::UnsupportedFormat);
    }
    if block.len() < HEADER_SIZE {
        return Err(DecodeError::TruncatedStream);
    }
    let decompressed_len: usize = read_be16(block[4], block[5]);
    let total_len: usize = read_be16(block[6], block[7]);
    if total_len < HEADER_SIZE || total_len > block.len() {
        return Err(DecodeError::TruncatedStream);
    }
    Ok(Header { decompressed_len, total_len })
}

/// Decodes a code block: checks the header, then decompresses the payload
/// to the declared length.
pub fn unpack_code(block: &[u8]) -> (r: Result<Vec<u8>, DecodeError>)
    ensures
        match r {
            Ok(code) => unpacked(block@) == Ok::<Seq<u8>, DecodeError>(code@)
                && code@.len() == declared_len(block@),
            Err(e) => unpacked(block@) == Err::<Seq<u8>, DecodeError>(e),
        },
        !has_magic(block@) ==> r == Err::<Vec<u8>, DecodeError>(DecodeError::UnsupportedFormat),
{
    let header = match parse_header(block) {
        Ok(h) => h,
        Err(e) => {
            return Err(e);
        },
    };
    let payload = slice_subrange(block, HEADER_SIZE, header.total_len);
    decompress(payload, header.decompressed_len)
}

} // verus!
