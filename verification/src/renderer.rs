//! The 4-bit frame buffer: two pixels per byte, sixteen colours.

use vstd::prelude::*;

verus! {

/// Number of pixels on the screen.
pub const VRAM_SIZE: usize = 128 * 128;

/// Width and height of the screen in pixels.
pub const SCREEN_SIDE: usize = 128;

/// The sixteen colours, each as red, green, blue and alpha.
pub const PALETTE: [[u8; 4]; 16] = [
    [0x00, 0x00, 0x00, 0xFF],
    [0x1D, 0x2B, 0x53, 0xFF],
    [0x7E, 0x25, 0x53, 0xFF],
    [0x00, 0x87, 0x51, 0xFF],
    [0xAB, 0x52, 0x36, 0xFF],
    [0x5F, 0x57, 0x4F, 0xFF],
    [0xC2, 0xC3, 0xC7, 0xFF],
    [0xFF, 0xF1, 0xE8, 0xFF],
    [0xFF, 0x00, 0x4D, 0xFF],
    [0xFF, 0xA3, 0x00, 0xFF],
    [0xFF, 0xEC, 0x27, 0xFF],
    [0x00, 0xE4, 0x36, 0xFF],
    [0x29, 0xAD, 0xFF, 0xFF],
    [0x83, 0x76, 0x9C, 0xFF],
    [0xFF, 0x77, 0xA8, 0xFF],
    [0xFF, 0xCC, 0xAA, 0xFF],
];

/// Number of pixels that `vram_len` bytes are rendered to: two for each
/// byte, and no more than the screen has.
pub open spec fn rendered_pixels(vram_len: nat) -> nat {
    if 2 * vram_len <= VRAM_SIZE {
        2 * vram_len
    } else {
        VRAM_SIZE as nat
    }
}

/// The colour number of pixel `p` as it is rendered: the first pixel of a
/// byte is its high half, the second its low half.
pub open spec fn rendered_color(vram: Seq<u8>, p: int) -> u8 {
    if p % 2 == 0 {
        vram[p / 2] >> 4
    } else {
        vram[p / 2] & 0x0f
    }
}

/// Index of the byte that holds the pixel at column `x` of row `y`.
pub open spec fn pixel_byte(x: int, y: int) -> int {
    (y * 128 + x) / 2
}

/// Whether the pixel at column `x` of row `y` is the high half of its
/// byte.
pub open spec fn pixel_is_high(x: int, y: int) -> bool {
    (y * 128 + x) % 2 == 0
}

/// A byte after colour `col` was stored in one of its halves.
pub open spec fn stored(byte: u8, col: u8, high: bool) -> u8 {
    if high {
        (byte & 0x0F) | (col << 4)
    } else {
        (byte & 0xF0) | col
    }
}

/// What is read back for a pixel from its byte: the high half, or for a
/// low pixel the whole byte.
pub open spec fn fetched(byte: u8, high: bool) -> usize {
    if high {
        (byte >> 4) as usize
    } else {
        byte as usize
    }
}

/// Storing a colour keeps the other half of the byte. A high pixel reads
/// back as the colour stored; a low pixel reads back as the whole byte,
/// whose low half is the colour.
pub proof fn lemma_stored_fetched(byte: u8, col: u8)
    requires
        col <= 0x0F,
    ensures
        fetched(stored(byte, col, true), true) == col,
        stored(byte, col, true) & 0x0F == byte & 0x0F,
        fetched(stored(byte, col, false), false) % 16 == col,
        stored(byte, col, false) & 0xF0 == byte & 0xF0,
{
    assert(((byte & 0x0F) | (col << 4)) >> 4 == col) by (bit_vector)
        requires
            col <= 0x0F,
    ;
    assert(((byte & 0x0F) | (col << 4)) & 0x0F == byte & 0x0F) by (bit_vector);
    assert(((byte & 0xF0) | col) % 16 == col) by (bit_vector)
        requires
            col <= 0x0F,
    ;
    assert(((byte & 0xF0) | col) & 0xF0 == byte & 0xF0) by (bit_vector)
        requires
            col <= 0x0F,
    ;
}

/// Tells whether a frame of `frame_len` bytes has room for every pixel
/// that `vram_len` bytes are rendered to.
pub fn frame_fits(vram_len: usize, frame_len: usize) -> (ok: bool)
    ensures
        ok == (frame_len >= 4 * rendered_pixels(vram_len as nat)),
{
    let pixels: usize = if vram_len <= VRAM_SIZE / 2 {
        2 * vram_len
    } else {
        VRAM_SIZE
    };
    frame_len >= 4 * pixels
}

/// Tells whether the pixel at column `x` of row `y` can be read from a
/// buffer of `vram_len` bytes.
pub fn pixel_in_vram(vram_len: usize, x: usize, y: usize) -> (ok: bool)
    ensures
        ok == (y * 128 + x <= usize::MAX && pixel_byte(x as int, y as int) < vram_len),
{
    if y > usize::MAX / 128 {
        return false;
    }
    let row: usize = y * 128;
    if x > usize::MAX - row {
        return false;
    }
    (row + x) / 2 < vram_len
}

/// Renders the frame buffer to RGBA: pixel `p` goes to the four bytes of
/// `frame` from `4 * p` on. Pixels beyond the screen size are left out,
/// and the rest of `frame` stays.
pub fn render_4bit_vram(vram: &[u8], frame: &mut [u8])
    requires
        old(frame)@.len() >= 4 * rendered_pixels(vram@.len()),
    ensures
        final(frame)@.len() == old(frame)@.len(),
        forall|i: int|
            0 <= i < 4 * rendered_pixels(vram@.len()) ==> #[trigger] final(frame)@[i]
                == PALETTE[rendered_color(vram@, i / 4) as int][i % 4],
        forall|i: int|
            4 * rendered_pixels(vram@.len()) <= i < old(frame)@.len()
                ==> #[trigger] final(frame)@[i] == old(frame)@[i],
{
    let mut pixel_index: usize = 0;
    let mut b: usize = 0;
    while b < vram.len()
        invariant
            b <= vram@.len(),
            frame@.len() == old(frame)@.len(),
            frame@.len() >= 4 * rendered_pixels(vram@.len()),
            pixel_index == rendered_pixels(b as nat),
            forall|i: int|
                0 <= i < 4 * pixel_index ==> #[trigger] frame@[i] == PALETTE[rendered_color(
                    vram@,
                    i / 4,
                ) as int][i % 4],
            forall|i: int|
                4 * pixel_index <= i < frame@.len() ==> #[trigger] frame@[i] == old(frame)@[i],
        decreases vram@.len() - b,
    {
        let byte: u8 = vram[b];
        let lo: u8 = byte >> 4;
        let hi: u8 = byte & 0x0f;
        proof {
            assert(byte >> 4 < 16) by (bit_vector);
            assert(byte & 0x0f < 16) by (bit_vector);
        }
        if pixel_index < VRAM_SIZE {
            put_color(frame, pixel_index, lo);
            pixel_index = pixel_index + 1;
        }
        if pixel_index < VRAM_SIZE {
            put_color(frame, pixel_index, hi);
            pixel_index = pixel_index + 1;
        }
        b = b + 1;
    }
}

/// Writes colour number `color` to the four bytes of pixel `p`.
fn put_color(frame: &mut [u8], p: usize, color: u8)
    requires
        color < 16,
        4 * p + 4 <= old(frame)@.len(),
    ensures
        final(frame)@.len() == old(frame)@.len(),
        forall|i: int|
            4 * p <= i < 4 * p + 4 ==> #[trigger] final(frame)@[i] == PALETTE[color as int][i - 4 * p],
        forall|i: int|
            0 <= i < old(frame)@.len() && !(4 * p <= i < 4 * p + 4) ==> #[trigger] final(frame)@[i]
                == old(frame)@[i],
{
    let rgba: [u8; 4] = PALETTE[color as usize];
    // Reading the length tells the verifier that it fits in `usize`.
    let _len: usize = frame.len();
    frame[4 * p] = rgba[0];
    frame[4 * p + 1] = rgba[1];
    frame[4 * p + 2] = rgba[2];
    frame[4 * p + 3] = rgba[3];
}

/// Stores colour `col` for the pixel at column `x` of row `y`. Outside
/// the screen, or with a colour above 15, nothing is changed.
pub fn set_pixel_color(vram: &mut [u8], x: usize, y: usize, col: u8)
    requires
        x < 128 && y < 128 && col <= 0x0F ==> pixel_byte(x as int, y as int) < old(vram)@.len(),
    ensures
        x < 128 && y < 128 && col <= 0x0F ==> final(vram)@ == old(vram)@.update(
            pixel_byte(x as int, y as int),
            stored(
                old(vram)@[pixel_byte(x as int, y as int)],
                col,
                pixel_is_high(x as int, y as int),
            ),
        ),
        !(x < 128 && y < 128 && col <= 0x0F) ==> final(vram)@ == old(vram)@,
{
    if x >= 128 || y >= 128 || col > 0x0F {
        return ;
    }
    let pixel_index: usize = y * 128 + x;
    let byte_index: usize = pixel_index / 2;
    let is_high: bool = pixel_index % 2 == 0;
    let byte: u8 = vram[byte_index];
    if is_high {
        vram[byte_index] = (byte & 0x0F) | (col << 4);
    } else {
        vram[byte_index] = (byte & 0xF0) | col;
    }
}

/// Reads the pixel at column `x` of row `y`: for a high pixel the colour,
/// for a low pixel the whole byte that holds it.
pub fn get_pixel_color(vram: &[u8], x: usize, y: usize) -> (col: usize)
    requires
        y * 128 + x <= usize::MAX,
        pixel_byte(x as int, y as int) < vram@.len(),
    ensures
        col == fetched(vram@[pixel_byte(x as int, y as int)], pixel_is_high(x as int, y as int)),
{
    let pixel_index: usize = y * 128 + x;
    let byte_index: usize = pixel_index / 2;
    let is_high: bool = pixel_index % 2 == 0;
    let byte: u8 = vram[byte_index];
    if is_high {
        (byte >> 4) as usize
    } else {
        byte as usize
    }
}

} // verus!
