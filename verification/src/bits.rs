//! A sequential cursor over the bits of a byte buffer.
//!
//! Bits are numbered from the least significant bit of the first byte:
//! bit `p` lives in byte `p / 8` at position `p % 8`.

use vstd::prelude::*;
use vstd::arithmetic::power2::{
    pow2, lemma2_to64, lemma_pow2_strictly_increases, lemma_pow2_unfold,
};
use crate::error::DecodeError;

verus! {

/// Number of bits in `data`.
pub open spec fn bit_len(data: Seq<u8>) -> int {
    8 * (data.len() as int)
}

/// Bit `k` of a byte, counted from the least significant one.
pub open spec fn bit_of(byte: u8, k: u8) -> u8 {
    (byte >> k) & 1u8
}

/// The bit at absolute position `pos` of `data`, as 0 or 1.
pub open spec fn bit_at(data: Seq<u8>, pos: int) -> nat
    recommends
        0 <= pos < bit_len(data),
{
    bit_of(data[pos / 8], (pos % 8) as u8) as nat
}

/// The number formed by the `n` bits that start at `pos`, the first bit
/// being the least significant.
pub open spec fn bits_at(data: Seq<u8>, pos: int, n: nat) -> nat
    decreases n,
{
    if n == 0 {
        0
    } else {
        bits_at(data, pos, (n - 1) as nat) + bit_at(data, pos + n - 1) * pow2((n - 1) as nat)
    }
}

/// A single bit is 0 or 1.
pub proof fn lemma_bit_at_range(data: Seq<u8>, pos: int)
    ensures
        bit_at(data, pos) <= 1,
{
    let b = data[pos / 8];
    let k = (pos % 8) as u8;
    assert(((b >> k) & 1u8) <= 1u8) by (bit_vector);
}

/// `n` bits form a number below `2^n`.
pub proof fn lemma_bits_at_range(data: Seq<u8>, pos: int, n: nat)
    ensures
        bits_at(data, pos, n) < pow2(n),
    decreases n,
{
    if n == 0 {
        lemma2_to64();
    } else {
        lemma_bits_at_range(data, pos, (n - 1) as nat);
        lemma_bit_at_range(data, pos + n - 1);
        lemma_pow2_unfold(n);
        let p = pow2((n - 1) as nat);
        let b = bit_at(data, pos + n - 1);
        assert(b * p <= p) by (nonlinear_arith)
            requires
                b <= 1,
        ;
    }
}

/// A read position in a borrowed byte buffer.
pub struct BitReader<'a> {
    /// The buffer that is read.
    pub data: &'a [u8],
    /// Absolute bit offset of the next bit; it only ever grows.
    pub cursor: u128,
}

impl<'a> BitReader<'a> {
    /// The cursor lies within the buffer or just behind its last bit, and
    /// the buffer is one that fits in memory.
    pub open spec fn wf(&self) -> bool {
        &&& self.cursor <= bit_len(self.data@)
        &&& self.data@.len() <= usize::MAX
    }

    /// A reader at the first bit of `data`.
    pub fn new(data: &'a [u8]) -> (r: Self)
        ensures
            r.wf(),
            r.data@ == data@,
            r.cursor == 0,
    {
        // Reading the length tells the verifier that it fits in `usize`.
        let _len: usize = data.len();
        BitReader { data, cursor: 0 }
    }

    /// Number of bits that have not been read yet.
    pub fn remaining(&self) -> (n: u128)
        requires
            self.wf(),
        ensures
            n == bit_len(self.data@) - self.cursor,
    {
        (self.data.len() as u128) * 8 - self.cursor
    }

    /// Reads the next bit and moves the cursor behind it. At the end of
    /// the buffer nothing is read and the cursor stays.
    pub fn read_bit(&mut self) -> (r: Result<u8, DecodeError>)
        requires
            old(self).wf(),
        ensures
            final(self).wf(),
            final(self).data@ == old(self).data@,
            match r {
                Ok(b) => {
                    &&& old(self).cursor < bit_len(old(self).data@)
                    &&& b == bit_at(old(self).data@, old(self).cursor as int)
                    &&& final(self).cursor == old(self).cursor + 1
                },
                Err(e) => {
                    &&& e == DecodeError::TruncatedStream
                    &&& old(self).cursor == bit_len(old(self).data@)
                    &&& final(self).cursor == old(self).cursor
                },
            },
    {
        let byte_index: u128 = self.cursor / 8;
        if byte_index >= self.data.len() as u128 {
            return Err(DecodeError::TruncatedStream);
        }
        let k: u8 = (self.cursor % 8) as u8;
        let byte: u8 = self.data[byte_index as usize];
        let bit: u8 = (byte >> k) & 1;
        self.cursor = self.cursor + 1;
        Ok(bit)
    }

    /// Reads `n` bits, the first one read being the least significant of
    /// the result. Where fewer than `n` bits are left, the rest of the
    /// buffer is consumed and the read fails.
    pub fn read_bits(&mut self, n: u32) -> (r: Result<u32, DecodeError>)
        requires
            old(self).wf(),
            n <= 32,
        ensures
            final(self).wf(),
            final(self).data@ == old(self).data@,
            match r {
                Ok(v) => {
                    &&& old(self).cursor + n <= bit_len(old(self).data@)
                    &&& v == bits_at(old(self).data@, old(self).cursor as int, n as nat)
                    &&& final(self).cursor == old(self).cursor + n
                },
                Err(e) => {
                    &&& e == DecodeError::TruncatedStream
                    &&& old(self).cursor + n > bit_len(old(self).data@)
                    &&& final(self).cursor == bit_len(old(self).data@)
                },
            },
    {
        let ghost start = self.cursor as int;
        let mut value: u64 = 0;
        let mut weight: u64 = 1;
        let mut i: u32 = 0;
        proof {
            lemma2_to64();
        }
        while i < n
            invariant
                self.wf(),
                self.data@ == old(self).data@,
                i <= n <= 32,
                self.cursor == start + i,
                start == old(self).cursor,
                weight == pow2(i as nat),
                value == bits_at(self.data@, start, i as nat),
            decreases n - i,
        {
            proof {
                // value < 2^i < 2^32, so neither sum nor doubling overflows
                lemma_bits_at_range(self.data@, start, i as nat);
                lemma_pow2_unfold((i + 1) as nat);
                lemma_pow2_strictly_increases(i as nat, 32);
                lemma2_to64();
            }
            match self.read_bit() {
                Ok(bit) => {
                    proof {
                        lemma_bit_at_range(self.data@, start + i);
                        let b = bit_at(self.data@, start + i);
                        let w = pow2(i as nat);
                        assert(b * w == if b == 1 { w } else { 0 }) by (nonlinear_arith)
                            requires
                                b <= 1,
                        ;
                        assert(bits_at(self.data@, start, (i + 1) as nat) == bits_at(
                            self.data@,
                            start,
                            i as nat,
                        ) + b * w);
                    }
                    if bit == 1 {
                        value = value + weight;
                    }
                    weight = weight * 2;
                    i = i + 1;
                },
                Err(e) => {
                    return Err(e);
                },
            }
        }
        proof {
            lemma_bits_at_range(self.data@, start, n as nat);
            if n < 32 {
                lemma_pow2_strictly_increases(n as nat, 32);
            }
        }
        Ok(value as u32)
    }
}

} // verus!
