//! The LZ5 wire format as mathematics: command headers, what each command
//! appends to the decoded output, and what a whole stream decodes to.
use vstd::prelude::*;

use crate::errors::DecompressionErrorKind;

verus! {

/// The byte that ends an encoded stream.
pub const SENTINEL: u8 = 0xFF;

/// Largest number of source bytes that one command can stand for.
pub const MAX_BLOCK_SIZE: usize = 1024;

/// Lengths up to this value (the wire length, one less than the count) fit a short header.
pub const SHORT_LENGTH_LIMIT: usize = 32;

/// The header of a command with selector `cmd` and wire length `len_field`
/// (the number of bytes it stands for, minus one).
pub open spec fn header_spec(cmd: u8, len_field: nat, extended_only: bool) -> Seq<u8> {
    if len_field < 32 && !extended_only {
        seq![(cmd * 32 + len_field) as u8]
    } else {
        seq![(0xE0 + cmd * 4 + len_field / 256) as u8, (len_field % 256) as u8]
    }
}

/// Whether a header starting with `b0` is a two-byte (extended) one.
pub open spec fn is_extended_spec(b0: u8) -> bool {
    b0 / 32 == 7
}

/// The command selector held in the first header byte.
pub open spec fn command_bits_spec(b0: u8, extended: bool) -> u8 {
    if extended {
        ((b0 / 4) % 8) as u8
    } else {
        (b0 / 32) as u8
    }
}

/// The wire length of a header whose bytes start `enc` (at least two bytes when extended).
pub open spec fn length_field_spec(enc: Seq<u8>, extended: bool) -> nat {
    if extended {
        ((enc[0] % 4) as nat) * 256 + enc[1] as nat
    } else {
        (enc[0] % 32) as nat
    }
}

/// What one command's expansion yields: the output after it and the number of
/// payload bytes it read.
pub type Expansion = Result<(Seq<u8>, nat), DecompressionErrorKind>;

/// `b` flipped by XOR with `0xFF` when `flip` holds.
pub open spec fn flip_spec(b: u8, flip: bool) -> u8 {
    if flip {
        (255 - b) as u8
    } else {
        b
    }
}

/// `out` extended by `n` bytes, the `k`-th of them copied (and flipped when `flip`
/// holds) from position `off + k` of the output as it grows, so that a copy may
/// run into the bytes it has just appended.
pub open spec fn back_copy(out: Seq<u8>, off: int, n: nat, flip: bool) -> Seq<u8>
    decreases n,
{
    if n == 0 {
        out
    } else {
        let prev = back_copy(out, off, (n - 1) as nat, flip);
        prev.push(flip_spec(prev[off + n - 1], flip))
    }
}

/// Whether a decoder callback that returned `r` and left `after` in place of
/// `before` did what the expansion `e` says: on success it appended and reported
/// the bytes it read; on failure it left the output as it was.
pub open spec fn performs(e: Expansion, r: Result<usize, DecompressionErrorKind>, before: Seq<u8>, after: Seq<u8>) -> bool {
    match e {
        Ok((o, used)) => r == Ok::<usize, DecompressionErrorKind>(used as usize) && after == o,
        Err(k) => r == Err::<usize, DecompressionErrorKind>(k) && after == before,
    }
}

/// The length of a back-copy.
pub proof fn lemma_back_copy_len(out: Seq<u8>, off: int, n: nat, flip: bool)
    ensures
        back_copy(out, off, n, flip).len() == out.len() + n,
    decreases n,
{
    if n > 0 {
        lemma_back_copy_len(out, off, (n - 1) as nat, flip);
    }
}

/// Command 000: the next `n` payload bytes, verbatim.
pub open spec fn expand_direct_copy(payload: Seq<u8>, out: Seq<u8>, n: nat) -> Expansion {
    if payload.len() >= n {
        Ok((out + payload.take(n as int), n))
    } else {
        Err(DecompressionErrorKind::IndexOutOfBounds)
    }
}

/// Command 001: the first payload byte, `n` times.
pub open spec fn expand_byte_fill(payload: Seq<u8>, out: Seq<u8>, n: nat) -> Expansion {
    if payload.len() >= 1 {
        Ok((out + Seq::new(n, |k: int| payload[0]), 1))
    } else {
        Err(DecompressionErrorKind::IndexOutOfBounds)
    }
}

/// Command 010: the first two payload bytes in turn, `n` bytes in all.
pub open spec fn expand_word_fill(payload: Seq<u8>, out: Seq<u8>, n: nat) -> Expansion {
    if payload.len() >= 2 {
        Ok((out + Seq::new(n, |k: int| if k % 2 == 0 { payload[0] } else { payload[1] }), 2))
    } else {
        Err(DecompressionErrorKind::IndexOutOfBounds)
    }
}

/// Command 011: `n` bytes counting up from the first payload byte, which must not
/// pass `0xFF`.
pub open spec fn expand_increasing_fill(payload: Seq<u8>, out: Seq<u8>, n: nat) -> Expansion {
    if payload.len() < 1 {
        Err(DecompressionErrorKind::IndexOutOfBounds)
    } else if payload[0] + n > 256 {
        Err(DecompressionErrorKind::InvalidCommand)
    } else {
        Ok((out + Seq::new(n, |k: int| (payload[0] + k) as u8), 1))
    }
}

/// The position held in the first two payload bytes, in the given byte order.
pub open spec fn position_spec(payload: Seq<u8>, big_endian: bool) -> int {
    if big_endian {
        payload[0] * 256 + payload[1]
    } else {
        payload[0] + payload[1] * 256
    }
}

/// Commands 100 and 101: a copy from the position held in the payload
/// (little-endian in LZ5).
pub open spec fn expand_repeat(
    payload: Seq<u8>,
    out: Seq<u8>,
    n: nat,
    flip: bool,
    big_endian: bool,
) -> Expansion {
    if payload.len() < 2 {
        Err(DecompressionErrorKind::IndexOutOfBounds)
    } else {
        let off = position_spec(payload, big_endian);
        if off < out.len() {
            Ok((back_copy(out, off, n, flip), 2))
        } else {
            Err(DecompressionErrorKind::IndexOutOfBounds)
        }
    }
}

/// Commands 110 and 111: a copy from the first payload byte's distance back from the end.
pub open spec fn expand_negative_repeat(
    payload: Seq<u8>,
    out: Seq<u8>,
    n: nat,
    flip: bool,
) -> Expansion {
    if payload.len() < 1 {
        Err(DecompressionErrorKind::IndexOutOfBounds)
    } else {
        let d = payload[0] as int;
        if 1 <= d <= out.len() {
            Ok((back_copy(out, out.len() - d, n, flip), 1))
        } else {
            Err(DecompressionErrorKind::IndexOutOfBounds)
        }
    }
}

/// The expansion of the command with selector `cmd`.
pub open spec fn expand_spec(cmd: u8, payload: Seq<u8>, out: Seq<u8>, n: nat) -> Expansion {
    if cmd == 0 {
        expand_direct_copy(payload, out, n)
    } else if cmd == 1 {
        expand_byte_fill(payload, out, n)
    } else if cmd == 2 {
        expand_word_fill(payload, out, n)
    } else if cmd == 3 {
        expand_increasing_fill(payload, out, n)
    } else if cmd == 4 {
        expand_repeat(payload, out, n, false, false)
    } else if cmd == 5 {
        expand_repeat(payload, out, n, true, false)
    } else if cmd == 6 {
        expand_negative_repeat(payload, out, n, false)
    } else {
        expand_negative_repeat(payload, out, n, true)
    }
}

/// Whether LZ5 has a command for this selector in this header layout: selector 7
/// exists only in the extended layout.
pub open spec fn has_command(cmd: u8, extended: bool) -> bool {
    cmd < 7 || (cmd == 7 && extended)
}

/// One command at the start of `enc` (which does not start with the sentinel),
/// applied to `out`: the output after it and the number of bytes of `enc` it took.
pub open spec fn decode_command(enc: Seq<u8>, out: Seq<u8>) -> Result<
    (Seq<u8>, nat),
    DecompressionErrorKind,
> {
    let ext = is_extended_spec(enc[0]);
    let header_len: nat = if ext { 2 } else { 1 };
    if enc.len() < header_len {
        Err(DecompressionErrorKind::IndexOutOfBounds)
    } else {
        let cmd = command_bits_spec(enc[0], ext);
        let n = length_field_spec(enc, ext) + 1;
        if !has_command(cmd, ext) {
            Err(DecompressionErrorKind::InvalidCommand)
        } else {
            match expand_spec(cmd, enc.skip(header_len as int), out, n) {
                Ok((o, used)) => Ok((o, header_len + used)),
                Err(k) => Err(k),
            }
        }
    }
}

/// What the stream `enc` decodes to when `out` has been decoded before it: the
/// final output, or the error with the output decoded before the failing command.
/// Decoding stops at the sentinel or at the end of `enc`.
pub open spec fn decode_from(enc: Seq<u8>, out: Seq<u8>) -> Result<
    Seq<u8>,
    (DecompressionErrorKind, Seq<u8>),
>
    decreases enc.len(),
{
    if enc.len() == 0 || enc[0] == SENTINEL {
        Ok(out)
    } else {
        match decode_command(enc, out) {
            Ok((o, used)) => if 0 < used <= enc.len() {
                decode_from(enc.skip(used as int), o)
            } else {
                Ok(o)
            },
            Err(k) => Err((k, out)),
        }
    }
}

/// What a whole encoded stream decodes to.
pub open spec fn decode_stream(enc: Seq<u8>) -> Result<Seq<u8>, (DecompressionErrorKind, Seq<u8>)> {
    decode_from(enc, Seq::empty())
}

/// Encoding a header and reading it back gives the same selector, length and layout.
/// Selector 7 has only the extended layout: its short header would read as an
/// extended one.
pub proof fn lemma_header_round_trip(cmd: u8, len_field: nat, extended_only: bool)
    requires
        cmd < 8,
        len_field < 1024,
        cmd == 7 ==> extended_only,
    ensures
        ({
            let h = header_spec(cmd, len_field, extended_only);
            let ext = is_extended_spec(h[0]);
            &&& ext <==> (len_field >= 32 || extended_only)
            &&& h.len() == (if ext { 2nat } else { 1nat })
            &&& command_bits_spec(h[0], ext) == cmd
            &&& length_field_spec(h, ext) == len_field
        }),
{
}

} // verus!
