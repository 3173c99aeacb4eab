//! The decompressor: move-to-front symbols interleaved with back-reference
//! copies, read from a stream of bits.
//!
//! The format is defined here as a function on positions in the stream
//! (`decoded`); the executable decoder is proved to compute it.

use vstd::prelude::*;
use vstd::arithmetic::power2::{
    pow2, lemma2_to64, lemma_pow2_pos, lemma_pow2_strictly_increases,
};
use crate::bits::{bit_at, bit_len, bits_at, lemma_bits_at_range, BitReader};
use crate::error::DecodeError;
use crate::mtf::{identity_table, lemma_moved_to_front, moved_to_front, MoveToFrontTable};

verus! {

/// What a decoder has between two instructions.
pub struct DecodeState {
    /// Bit position of the next instruction.
    pub pos: int,
    /// The bytes produced so far.
    pub out: Seq<u8>,
    /// The symbol table.
    pub table: Seq<u8>,
}

/// Number of consecutive 1-bits that start at `pos`.
pub open spec fn ones_run(data: Seq<u8>, pos: int) -> nat
    decreases bit_len(data) - pos,
{
    if 0 <= pos < bit_len(data) && bit_at(data, pos) == 1 {
        1 + ones_run(data, pos + 1)
    } else {
        0
    }
}

/// A symbol instruction whose unary prefix starts at `pos`. The prefix of
/// `u` ones and its closing zero are followed by `4 + u` bits `l`; the
/// table index is `l + (2^u - 1) * 16`.
pub open spec fn symbol_step(data: Seq<u8>, pos: int, out: Seq<u8>, table: Seq<u8>) -> Result<
    DecodeState,
    DecodeError,
> {
    let u = ones_run(data, pos);
    let after = pos + u + 1;
    if after + 4 + u > bit_len(data) {
        Err(DecodeError::TruncatedStream)
    } else {
        let idx = bits_at(data, after, 4 + u) + (pow2(u) - 1) * 16;
        if idx >= 256 {
            Err(DecodeError::IndexOutOfRange)
        } else {
            Ok(
                DecodeState {
                    pos: after + 4 + u,
                    out: out.push(table[idx]),
                    table: moved_to_front(table, idx),
                },
            )
        }
    }
}

/// The width of the offset field announced at `pos`, with the position
/// behind the announcement: `11` gives 5 bits, `10` gives 10, `0` gives 15
/// (the bits in the order in which they are read).
pub open spec fn offset_width(data: Seq<u8>, pos: int) -> Result<(nat, int), DecodeError> {
    if pos >= bit_len(data) {
        Err(DecodeError::TruncatedStream)
    } else if bit_at(data, pos) == 1 {
        if pos + 1 >= bit_len(data) {
            Err(DecodeError::TruncatedStream)
        } else if bit_at(data, pos + 1) == 1 {
            Ok((5, pos + 2))
        } else {
            Ok((10, pos + 2))
        }
    } else {
        Ok((15, pos + 1))
    }
}

/// An uncompressed run that starts at `pos`: 8-bit values up to a zero,
/// each appended to `out`. Yields the position behind the zero and the
/// extended output.
pub open spec fn raw_run(data: Seq<u8>, pos: int, out: Seq<u8>) -> Result<
    (int, Seq<u8>),
    DecodeError,
>
    decreases bit_len(data) - pos,
{
    if pos + 8 > bit_len(data) {
        Err(DecodeError::TruncatedStream)
    } else {
        let v = bits_at(data, pos, 8);
        if v == 0 {
            Ok((pos + 8, out))
        } else {
            raw_run(data, pos + 8, out.push(v as u8))
        }
    }
}

/// The length of a copy, encoded from `pos` in groups of 3 bits: every
/// group is added to `acc`, and a group other than 7 is the last one.
/// Yields the position behind the last group and the sum.
pub open spec fn run_length(data: Seq<u8>, pos: int, acc: nat) -> Result<(int, nat), DecodeError>
    decreases bit_len(data) - pos,
{
    if pos + 3 > bit_len(data) {
        Err(DecodeError::TruncatedStream)
    } else {
        let part = bits_at(data, pos, 3);
        if part != 7 {
            Ok((pos + 3, acc + part))
        } else {
            run_length(data, pos + 3, acc + 7)
        }
    }
}

/// `out` after `n` bytes were appended one at a time, each a copy of the
/// byte that stood `offset` places before the end at that moment.
pub open spec fn copy_run(out: Seq<u8>, offset: int, n: nat) -> Seq<u8>
    recommends
        1 <= offset <= out.len(),
    decreases n,
{
    if n == 0 {
        out
    } else {
        copy_run(out.push(out[out.len() - offset]), offset, (n - 1) as nat)
    }
}

/// A block instruction whose width announcement starts at `pos`: either
/// an uncompressed run (width 10, field 0) or a copy from `offset` bytes
/// back, where `offset` is the field plus one.
pub open spec fn block_step(data: Seq<u8>, pos: int, out: Seq<u8>, table: Seq<u8>) -> Result<
    DecodeState,
    DecodeError,
> {
    match offset_width(data, pos) {
        Err(e) => Err(e),
        Ok((width, p)) => {
            if p + width > bit_len(data) {
                Err(DecodeError::TruncatedStream)
            } else {
                let field = bits_at(data, p, width);
                if width == 10 && field == 0 {
                    match raw_run(data, p + width, out) {
                        Err(e) => Err(e),
                        Ok((p2, out2)) => Ok(DecodeState { pos: p2, out: out2, table }),
                    }
                } else {
                    match run_length(data, p + width, 3) {
                        Err(e) => Err(e),
                        Ok((p2, n)) => {
                            if field + 1 > out.len() {
                                Err(DecodeError::InvalidOffset)
                            } else {
                                Ok(
                                    DecodeState {
                                        pos: p2,
                                        out: copy_run(out, (field + 1) as int, n),
                                        table,
                                    },
                                )
                            }
                        },
                    }
                }
            }
        },
    }
}

/// One instruction: a control bit, then a symbol (1) or a block (0).
pub open spec fn step(data: Seq<u8>, st: DecodeState) -> Result<DecodeState, DecodeError> {
    if st.pos >= bit_len(data) {
        Err(DecodeError::TruncatedStream)
    } else if bit_at(data, st.pos) == 1 {
        symbol_step(data, st.pos + 1, st.out, st.table)
    } else {
        block_step(data, st.pos + 1, st.out, st.table)
    }
}

/// Runs instructions from `st` until the output has exactly `target`
/// bytes.
pub open spec fn decode_from(data: Seq<u8>, target: nat, st: DecodeState) -> Result<
    Seq<u8>,
    DecodeError,
>
    decreases bit_len(data) - st.pos,
    via decode_from_terminates
{
    if st.out.len() == target {
        Ok(st.out)
    } else {
        match step(data, st) {
            Err(e) => Err(e),
            Ok(next) => decode_from(data, target, next),
        }
    }
}

#[via_fn]
proof fn decode_from_terminates(data: Seq<u8>, target: nat, st: DecodeState) {
    lemma_step_advances(data, st);
}

/// The state in which every decode starts.
pub open spec fn initial_state() -> DecodeState {
    DecodeState { pos: 0, out: Seq::empty(), table: identity_table() }
}

/// What `payload` decodes to when `target` bytes are asked for.
pub open spec fn decoded(payload: Seq<u8>, target: nat) -> Result<Seq<u8>, DecodeError> {
    decode_from(payload, target, initial_state())
}

/// An uncompressed run ends behind where it started, within the stream.
pub proof fn lemma_raw_run_advances(data: Seq<u8>, pos: int, out: Seq<u8>)
    ensures
        raw_run(data, pos, out) matches Ok(r) ==> pos < r.0 <= bit_len(data),
    decreases bit_len(data) - pos,
{
    if pos + 8 <= bit_len(data) && bits_at(data, pos, 8) != 0 {
        lemma_raw_run_advances(data, pos + 8, out.push(bits_at(data, pos, 8) as u8));
    }
}

/// A copy length ends behind where it started, within the stream, and is
/// at least the sum it started from.
pub proof fn lemma_run_length_advances(data: Seq<u8>, pos: int, acc: nat)
    ensures
        run_length(data, pos, acc) matches Ok(r) ==> pos < r.0 <= bit_len(data) && r.1 >= acc,
    decreases bit_len(data) - pos,
{
    if pos + 3 <= bit_len(data) && bits_at(data, pos, 3) == 7 {
        lemma_run_length_advances(data, pos + 3, acc + 7);
    }
}

/// Every instruction consumes at least one bit and none beyond the end:
/// the cursor never rewinds.
pub proof fn lemma_step_advances(data: Seq<u8>, st: DecodeState)
    ensures
        step(data, st) matches Ok(next) ==> st.pos < next.pos <= bit_len(data),
{
    let pos = st.pos + 1;
    if let Ok((width, p)) = offset_width(data, pos) {
        lemma_raw_run_advances(data, p + width, st.out);
        lemma_run_length_advances(data, p + width, 3);
    }
}

/// A symbol instruction appends the symbol it looked up and leaves that
/// symbol at the front of the table, which keeps its 256 different
/// entries.
pub proof fn lemma_symbol_step_moves_to_front(
    data: Seq<u8>,
    pos: int,
    out: Seq<u8>,
    table: Seq<u8>,
)
    requires
        table.len() == 256,
        table.no_duplicates(),
    ensures
        symbol_step(data, pos, out, table) matches Ok(st) ==> {
            &&& st.out == out.push(st.table[0])
            &&& st.table.len() == 256
            &&& st.table.no_duplicates()
        },
{
    if let Ok(st) = symbol_step(data, pos, out, table) {
        let u = ones_run(data, pos);
        let idx = bits_at(data, pos + u + 1, 4 + u) + (pow2(u) - 1) * 16;
        lemma_pow2_pos(u);
        lemma_moved_to_front(table, idx);
    }
}

/// Copying extends the output by exactly `n` bytes and keeps what was
/// there; every new byte equals the one `offset` places before it.
pub proof fn lemma_copy_run(out: Seq<u8>, offset: int, n: nat)
    requires
        1 <= offset <= out.len(),
    ensures
        copy_run(out, offset, n).len() == out.len() + n,
        forall|i: int| 0 <= i < out.len() ==> #[trigger] copy_run(out, offset, n)[i] == out[i],
        forall|i: int|
            out.len() <= i < out.len() + n ==> #[trigger] copy_run(out, offset, n)[i] == copy_run(
                out,
                offset,
                n,
            )[i - offset],
    decreases n,
{
    if n > 0 {
        let next = out.push(out[out.len() - offset]);
        lemma_copy_run(next, offset, (n - 1) as nat);
        let r = copy_run(out, offset, n);
        assert(r == copy_run(next, offset, (n - 1) as nat));
        assert forall|i: int| out.len() <= i < out.len() + n implies #[trigger] r[i] == r[i
            - offset] by {
            if i == out.len() {
                assert(r[i] == next[i]);
                assert(r[i - offset] == next[i - offset]);
            }
        }
    }
}

/// A copy from offset 1 repeats the last byte of the output `n` times.
pub proof fn lemma_copy_run_offset_one(out: Seq<u8>, n: nat)
    requires
        out.len() >= 1,
    ensures
        copy_run(out, 1, n) == out + Seq::new(n, |i: int| out.last()),
    decreases n,
{
    let filler = Seq::new(n, |i: int| out.last());
    if n == 0 {
        assert(out + filler =~= out);
    } else {
        let next = out.push(out.last());
        lemma_copy_run_offset_one(next, (n - 1) as nat);
        assert(next + Seq::new((n - 1) as nat, |i: int| next.last()) =~= out + filler);
    }
}

/// An uncompressed run fails only where the stream ends.
pub proof fn lemma_raw_run_error(data: Seq<u8>, pos: int, out: Seq<u8>)
    ensures
        raw_run(data, pos, out) matches Err(e) ==> e == DecodeError::TruncatedStream,
    decreases bit_len(data) - pos,
{
    if pos + 8 <= bit_len(data) && bits_at(data, pos, 8) != 0 {
        lemma_raw_run_error(data, pos + 8, out.push(bits_at(data, pos, 8) as u8));
    }
}

/// A copy length fails only where the stream ends.
pub proof fn lemma_run_length_error(data: Seq<u8>, pos: int, acc: nat)
    ensures
        run_length(data, pos, acc) matches Err(e) ==> e == DecodeError::TruncatedStream,
    decreases bit_len(data) - pos,
{
    if pos + 3 <= bit_len(data) && bits_at(data, pos, 3) == 7 {
        lemma_run_length_error(data, pos + 3, acc + 7);
    }
}

/// Decoding fails in three ways only: the stream ends, a symbol index is
/// out of range, or a copy reaches back too far. It never reports an
/// unsupported format or an unreadable file.
pub proof fn lemma_decode_from_errors(data: Seq<u8>, target: nat, st: DecodeState)
    ensures
        decode_from(data, target, st) matches Err(e) ==> e == DecodeError::TruncatedStream || e
            == DecodeError::IndexOutOfRange || e == DecodeError::InvalidOffset,
    decreases bit_len(data) - st.pos,
{
    if st.out.len() != target {
        if let Ok((width, p)) = offset_width(data, st.pos + 1) {
            lemma_raw_run_error(data, p + width, st.out);
            lemma_run_length_error(data, p + width, 3);
        }
        if let Ok(next) = step(data, st) {
            lemma_step_advances(data, st);
            lemma_decode_from_errors(data, target, next);
        }
    }
}

/// A successful decode has exactly the length that was asked for.
pub proof fn lemma_decode_from_len(data: Seq<u8>, target: nat, st: DecodeState)
    ensures
        decode_from(data, target, st) matches Ok(out) ==> out.len() == target,
    decreases bit_len(data) - st.pos,
{
    if st.out.len() != target {
        if let Ok(next) = step(data, st) {
            lemma_step_advances(data, st);
            lemma_decode_from_len(data, target, next);
        }
    }
}

/// Reads a unary prefix: ones up to the first zero, which is consumed too.
/// Returns the number of ones.
pub fn read_unary(reader: &mut BitReader) -> (r: Result<u128, DecodeError>)
    requires
        old(reader).wf(),
    ensures
        final(reader).wf(),
        final(reader).data@ == old(reader).data@,
        match r {
            Ok(u) => {
                &&& u == ones_run(old(reader).data@, old(reader).cursor as int)
                &&& old(reader).cursor + u < bit_len(old(reader).data@)
                &&& final(reader).cursor == old(reader).cursor + u + 1
            },
            Err(e) => {
                &&& e == DecodeError::TruncatedStream
                &&& old(reader).cursor + ones_run(old(reader).data@, old(reader).cursor as int)
                    == bit_len(old(reader).data@)
                &&& final(reader).cursor == bit_len(old(reader).data@)
            },
        },
{
    let ghost start = reader.cursor as int;
    let mut count: u128 = 0;
    loop
        invariant
            reader.wf(),
            reader.data@ == old(reader).data@,
            start == old(reader).cursor,
            reader.cursor == start + count,
            ones_run(reader.data@, start) == count + ones_run(reader.data@, reader.cursor as int),
        decreases bit_len(reader.data@) - reader.cursor,
    {
        match reader.read_bit() {
            Err(e) => {
                return Err(e);
            },
            Ok(bit) => {
                if bit == 1 {
                    count = count + 1;
                } else {
                    return Ok(count);
                }
            },
        }
    }
}

/// Reads the announcement of an offset field and returns the field's
/// width in bits: 5, 10 or 15.
pub fn read_offset_width(reader: &mut BitReader) -> (r: Result<u32, DecodeError>)
    requires
        old(reader).wf(),
    ensures
        final(reader).wf(),
        final(reader).data@ == old(reader).data@,
        match r {
            Ok(w) => {
                &&& offset_width(old(reader).data@, old(reader).cursor as int) == Ok::<
                    (nat, int),
                    DecodeError,
                >((w as nat, final(reader).cursor as int))
                &&& (w == 5 || w == 10 || w == 15)
                &&& old(reader).cursor < final(reader).cursor
            },
            Err(e) => {
                &&& offset_width(old(reader).data@, old(reader).cursor as int) == Err::<
                    (nat, int),
                    DecodeError,
                >(e)
                &&& final(reader).cursor == bit_len(old(reader).data@)
            },
        },
{
    let first: u8 = match reader.read_bit() {
        Ok(b) => b,
        Err(e) => {
            return Err(e);
        },
    };
    if first == 1 {
        let second: u8 = match reader.read_bit() {
            Ok(b) => b,
            Err(e) => {
                return Err(e);
            },
        };
        if second == 1 {
            Ok(5)
        } else {
            Ok(10)
        }
    } else {
        Ok(15)
    }
}

/// Reads the length of a copy: 3 plus the sum of its 3-bit groups.
pub fn read_run_length(reader: &mut BitReader) -> (r: Result<u128, DecodeError>)
    requires
        old(reader).wf(),
    ensures
        final(reader).wf(),
        final(reader).data@ == old(reader).data@,
        match r {
            Ok(n) => {
                &&& run_length(old(reader).data@, old(reader).cursor as int, 3) == Ok::<
                    (int, nat),
                    DecodeError,
                >((final(reader).cursor as int, n as nat))
                &&& n >= 3
                &&& old(reader).cursor < final(reader).cursor
            },
            Err(e) => {
                &&& run_length(old(reader).data@, old(reader).cursor as int, 3) == Err::<
                    (int, nat),
                    DecodeError,
                >(e)
                &&& final(reader).cursor == bit_len(old(reader).data@)
            },
        },
{
    let ghost start = reader.cursor as int;
    let mut length: u128 = 3;
    loop
        invariant
            reader.wf(),
            reader.data@ == old(reader).data@,
            start == old(reader).cursor,
            start <= reader.cursor,
            3 <= length <= 3 + 7 * (reader.cursor - start),
            run_length(reader.data@, start, 3) == run_length(
                reader.data@,
                reader.cursor as int,
                length as nat,
            ),
        decreases bit_len(reader.data@) - reader.cursor,
    {
        proof {
            lemma_bits_at_range(reader.data@, reader.cursor as int, 3);
            lemma2_to64();
        }
        match reader.read_bits(3) {
            Err(e) => {
                return Err(e);
            },
            Ok(part) => {
                length = length + (part as u128);
                if part != 7 {
                    return Ok(length);
                }
            },
        }
    }
}

/// Appends `length` bytes to `out`, each a copy of the byte `offset`
/// places before the end at the moment it is appended. With an offset
/// below the length the copy runs into its own output and repeats it.
pub fn copy_back(out: &mut Vec<u8>, offset: usize, length: u128)
    requires
        1 <= offset <= old(out)@.len(),
    ensures
        final(out)@ == copy_run(old(out)@, offset as int, length as nat),
        final(out)@.len() == old(out)@.len() + length,
{
    let mut done: u128 = 0;
    while done < length
        invariant
            done <= length,
            1 <= offset <= out@.len(),
            out@.len() == old(out)@.len() + done,
            copy_run(old(out)@, offset as int, length as nat) == copy_run(
                out@,
                offset as int,
                (length - done) as nat,
            ),
        decreases length - done,
    {
        let byte: u8 = out[out.len() - offset];
        out.push(byte);
        done = done + 1;
    }
}

/// Reads an uncompressed run: 8-bit values up to a zero, each appended to
/// `out`. Where the stream ends before the zero, the values read so far
/// stay in `out`.
pub fn read_raw_run(reader: &mut BitReader, out: &mut Vec<u8>) -> (r: Result<(), DecodeError>)
    requires
        old(reader).wf(),
    ensures
        final(reader).wf(),
        final(reader).data@ == old(reader).data@,
        old(out)@.is_prefix_of(final(out)@),
        match r {
            Ok(_) => {
                &&& raw_run(old(reader).data@, old(reader).cursor as int, old(out)@) == Ok::<
                    (int, Seq<u8>),
                    DecodeError,
                >((final(reader).cursor as int, final(out)@))
                &&& old(reader).cursor < final(reader).cursor
            },
            Err(e) => {
                &&& raw_run(old(reader).data@, old(reader).cursor as int, old(out)@) == Err::<
                    (int, Seq<u8>),
                    DecodeError,
                >(e)
                &&& final(reader).cursor == bit_len(old(reader).data@)
            },
        },
{
    loop
        invariant
            reader.wf(),
            reader.data@ == old(reader).data@,
            old(reader).cursor <= reader.cursor,
            old(out)@.is_prefix_of(out@),
            raw_run(old(reader).data@, old(reader).cursor as int, old(out)@) == raw_run(
                reader.data@,
                reader.cursor as int,
                out@,
            ),
        decreases bit_len(reader.data@) - reader.cursor,
    {
        proof {
            lemma_bits_at_range(reader.data@, reader.cursor as int, 8);
            lemma2_to64();
        }
        match reader.read_bits(8) {
            Err(e) => {
                return Err(e);
            },
            Ok(value) => {
                if value == 0 {
                    return Ok(());
                }
                out.push(value as u8);
            },
        }
    }
}

/// Decodes one symbol instruction, the control bit already read: looks
/// the symbol up, appends it to `out` and moves it to the front of
/// `table`. On failure `out` and `table` are as they were.
pub fn decode_symbol(
    reader: &mut BitReader,
    out: &mut Vec<u8>,
    table: &mut MoveToFrontTable,
) -> (r: Result<(), DecodeError>)
    requires
        old(reader).wf(),
        old(table).wf(),
    ensures
        final(reader).wf(),
        final(reader).data@ == old(reader).data@,
        final(table).wf(),
        old(reader).cursor <= final(reader).cursor,
        match symbol_step(old(reader).data@, old(reader).cursor as int, old(out)@, old(table)@) {
            Ok(st) => {
                &&& r is Ok
                &&& final(reader).cursor == st.pos
                &&& final(out)@ == st.out
                &&& final(table)@ == st.table
            },
            Err(e) => {
                &&& r == Err::<(), DecodeError>(e)
                &&& final(out)@ == old(out)@
                &&& final(table)@ == old(table)@
            },
        },
{
    let u: u128 = match read_unary(reader) {
        Ok(u) => u,
        Err(e) => {
            return Err(e);
        },
    };
    if reader.remaining() < 4 + u {
        return Err(DecodeError::TruncatedStream);
    }
    proof {
        lemma2_to64();
        if u > 5 {
            lemma_pow2_strictly_increases(5, u as nat);
        }
        lemma_bits_at_range(reader.data@, reader.cursor as int, (4 + u) as nat);
    }
    if u >= 5 {
        return Err(DecodeError::IndexOutOfRange);
    }
    let width: u32 = 4 + (u as u32);
    let low: u32 = match reader.read_bits(width) {
        Ok(v) => v,
        Err(e) => {
            return Err(e);
        },
    };
    let base: u32 = if u == 0 {
        0
    } else if u == 1 {
        16
    } else if u == 2 {
        48
    } else if u == 3 {
        112
    } else {
        240
    };
    let idx: u32 = low + base;
    if idx >= 256 {
        return Err(DecodeError::IndexOutOfRange);
    }
    let byte: u8 = table.take(idx as usize);
    out.push(byte);
    Ok(())
}

/// Decodes one block instruction, the control bit already read: an
/// uncompressed run or a copy from earlier output.
pub fn decode_block(reader: &mut BitReader, out: &mut Vec<u8>) -> (r: Result<(), DecodeError>)
    requires
        old(reader).wf(),
    ensures
        final(reader).wf(),
        final(reader).data@ == old(reader).data@,
        old(reader).cursor <= final(reader).cursor,
        old(out)@.is_prefix_of(final(out)@),
        forall|table: Seq<u8>|
            match #[trigger] block_step(
                old(reader).data@,
                old(reader).cursor as int,
                old(out)@,
                table,
            ) {
                Ok(st) => {
                    &&& r is Ok
                    &&& final(reader).cursor == st.pos
                    &&& final(out)@ == st.out
                },
                Err(e) => r == Err::<(), DecodeError>(e),
            },
{
    let width: u32 = match read_offset_width(reader) {
        Ok(w) => w,
        Err(e) => {
            return Err(e);
        },
    };
    proof {
        lemma_bits_at_range(reader.data@, reader.cursor as int, width as nat);
        lemma2_to64();
    }
    let field: u32 = match reader.read_bits(width) {
        Ok(v) => v,
        Err(e) => {
            return Err(e);
        },
    };
    if width == 10 && field == 0 {
        return read_raw_run(reader, out);
    }
    let length: u128 = match read_run_length(reader) {
        Ok(n) => n,
        Err(e) => {
            return Err(e);
        },
    };
    let offset: usize = field as usize + 1;
    if offset > out.len() {
        return Err(DecodeError::InvalidOffset);
    }
    proof {
        lemma_copy_run(out@, offset as int, length as nat);
    }
    copy_back(out, offset, length);
    Ok(())
}

/// Decodes `payload` until exactly `target_length` bytes have been
/// produced. Fails where the stream ends first, where a symbol index is
/// 256 or more, and where a copy reaches back before the first byte.
pub fn decompress(payload: &[u8], target_length: usize) -> (r: Result<Vec<u8>, DecodeError>)
    ensures
        match r {
            Ok(v) => decoded(payload@, target_length as nat) == Ok::<Seq<u8>, DecodeError>(v@)
                && v@.len() == target_length,
            Err(e) => decoded(payload@, target_length as nat) == Err::<Seq<u8>, DecodeError>(e),
        },
{
    let mut reader = BitReader::new(payload);
    let mut out: Vec<u8> = Vec::new();
    let mut table = MoveToFrontTable::new();
    while out.len() != target_length
        invariant
            reader.wf(),
            reader.data@ == payload@,
            table.wf(),
            decoded(payload@, target_length as nat) == decode_from(
                payload@,
                target_length as nat,
                DecodeState { pos: reader.cursor as int, out: out@, table: table@ },
            ),
        decreases bit_len(payload@) - reader.cursor,
    {
        let control: u8 = match reader.read_bit() {
            Ok(b) => b,
            Err(e) => {
                return Err(e);
            },
        };
        let ghost before = DecodeState { pos: reader.cursor - 1, out: out@, table: table@ };
        let done = if control == 1 {
            decode_symbol(&mut reader, &mut out, &mut table)
        } else {
            decode_block(&mut reader, &mut out)
        };
        proof {
            lemma_step_advances(payload@, before);
            assert(control != 1 ==> step(payload@, before) == block_step(
                payload@,
                before.pos + 1,
                before.out,
                before.table,
            ));
        }
        match done {
            Ok(_) => {},
            Err(e) => {
                return Err(e);
            },
        }
    }
    Ok(out)
}

} // verus!
