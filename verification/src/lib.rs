//! Cartridge decoding for a 128x128 fantasy console.
//!
//! A cartridge travels inside an image: every pixel hides one byte in the
//! low two bits of its four channels. The hidden stream holds a data block
//! and a compressed program. This crate recovers both, and models the
//! console's address space and its 4-bit frame buffer.

pub mod error;
pub mod bits;
pub mod mtf;
pub mod codec;
pub mod format;
pub mod stego;
pub mod rom_loader;
pub mod memory;
pub mod renderer;
