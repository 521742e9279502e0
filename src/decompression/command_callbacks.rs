//! The decoder side of each command: it reads its payload and appends what the
//! command stands for to the output.
use vstd::prelude::*;

use crate::errors::DecompressionErrorKind;
use crate::format::{
    back_copy, expand_byte_fill, expand_direct_copy, expand_increasing_fill, expand_negative_repeat,
    expand_repeat, expand_word_fill, lemma_back_copy_len, performs,
};

verus! {

/// Appends the first `cmd_size` bytes of `source`.
pub fn direct_copy(source: &[u8], buffer: &mut Vec<u8>, cmd_size: usize) -> (r: Result<
    usize,
    DecompressionErrorKind,
>)
    ensures
        performs(expand_direct_copy(source@, old(buffer)@, cmd_size as nat), r, old(buffer)@, final(buffer)@),
{
    if source.len() < cmd_size {
        return Err(DecompressionErrorKind::IndexOutOfBounds);
    }
    let ghost before = buffer@;
    let mut k: usize = 0;
    while k < cmd_size
        invariant
            k <= cmd_size <= source@.len(),
            buffer@ == before + source@.take(k as int),
        decreases cmd_size - k,
    {
        buffer.push(source[k]);
        k += 1;
        assert(source@.take(k as int) == source@.take(k - 1).push(source@[k - 1]));
    }
    Ok(cmd_size)
}

/// Appends the first byte of `source`, `cmd_size` times.
pub fn byte_fill(source: &[u8], buffer: &mut Vec<u8>, cmd_size: usize) -> (r: Result<
    usize,
    DecompressionErrorKind,
>)
    ensures
        performs(expand_byte_fill(source@, old(buffer)@, cmd_size as nat), r, old(buffer)@, final(buffer)@),
{
    let byte = try_get_byte(source, 0)?;
    let ghost before = buffer@;
    let mut k: usize = 0;
    while k < cmd_size
        invariant
            k <= cmd_size,
            source@.len() >= 1,
            byte == source@[0],
            buffer@ == before + Seq::new(k as nat, |j: int| source@[0]),
        decreases cmd_size - k,
    {
        buffer.push(byte);
        k += 1;
        assert(buffer@ =~= before + Seq::new(k as nat, |j: int| source@[0]));
    }
    Ok(1)
}

/// Appends the first two bytes of `source` in turn, `cmd_size` bytes in all.
pub fn word_fill(source: &[u8], buffer: &mut Vec<u8>, cmd_size: usize) -> (r: Result<
    usize,
    DecompressionErrorKind,
>)
    ensures
        performs(expand_word_fill(source@, old(buffer)@, cmd_size as nat), r, old(buffer)@, final(buffer)@),
{
    let byte1 = try_get_byte(source, 0)?;
    let byte2 = try_get_byte(source, 1)?;
    let ghost before = buffer@;
    let ghost word = |j: int| if j % 2 == 0 { source@[0] } else { source@[1] };
    let mut k: usize = 0;
    while k < cmd_size
        invariant
            k <= cmd_size,
            source@.len() >= 2,
            byte1 == source@[0],
            byte2 == source@[1],
            word == (|j: int| if j % 2 == 0 { source@[0] } else { source@[1] }),
            buffer@ == before + Seq::new(k as nat, word),
        decreases cmd_size - k,
    {
        let to_push = if k % 2 == 0 {
            byte1
        } else {
            byte2
        };
        buffer.push(to_push);
        k += 1;
        assert(buffer@ =~= before + Seq::new(k as nat, word));
    }
    Ok(2)
}

/// Appends `cmd_size` bytes counting up from the first byte of `source`; the
/// count may not pass `0xFF`.
pub fn increasing_fill(source: &[u8], buffer: &mut Vec<u8>, cmd_size: usize) -> (r: Result<
    usize,
    DecompressionErrorKind,
>)
    ensures
        performs(expand_increasing_fill(source@, old(buffer)@, cmd_size as nat), r, old(buffer)@, final(buffer)@),
{
    let first = try_get_byte(source, 0)?;
    if cmd_size > 256 - first as usize {
        return Err(DecompressionErrorKind::InvalidCommand);
    }
    let ghost before = buffer@;
    let mut k: usize = 0;
    while k < cmd_size
        invariant
            k <= cmd_size,
            first + cmd_size <= 256,
            source@.len() >= 1,
            first == source@[0],
            buffer@ == before + Seq::new(k as nat, |j: int| (source@[0] + j) as u8),
        decreases cmd_size - k,
    {
        buffer.push((first as usize + k) as u8);
        k += 1;
        assert(buffer@ =~= before + Seq::new(k as nat, |j: int| (source@[0] + j) as u8));
    }
    Ok(1)
}

/// Appends `cmd_size` bytes copied from position `offset` of the output onwards,
/// each flipped by XOR with `0xFF` when `flip` holds. The copy may read bytes that
/// it has appended itself.
fn copy_back(buffer: &mut Vec<u8>, offset: usize, cmd_size: usize, flip: bool)
    requires
        offset < old(buffer)@.len(),
    ensures
        final(buffer)@ == back_copy(old(buffer)@, offset as int, cmd_size as nat, flip),
{
    let ghost before = buffer@;
    let mut k: usize = 0;
    while k < cmd_size
        invariant
            k <= cmd_size,
            offset < before.len(),
            buffer@ == back_copy(before, offset as int, k as nat, flip),
        decreases cmd_size - k,
    {
        proof {
            lemma_back_copy_len(before, offset as int, k as nat, flip);
        }
        let len = buffer.len();
        assert(offset + k < len);
        let byte = buffer[offset + k];
        let to_push = if flip {
            byte ^ 0xFF
        } else {
            byte
        };
        assert(byte ^ 0xFF == 255 - byte) by (bit_vector);
        buffer.push(to_push);
        k += 1;
    }
}

/// Reads a position from the first two bytes of `source` and copies from there.
fn repeat_from_position(
    source: &[u8],
    buffer: &mut Vec<u8>,
    cmd_size: usize,
    flip: bool,
    big_endian: bool,
) -> (r: Result<usize, DecompressionErrorKind>)
    ensures
        performs(expand_repeat(source@, old(buffer)@, cmd_size as nat, flip, big_endian), r, old(buffer)@, final(buffer)@),
{
    let first = try_get_byte(source, 0)?;
    let second = try_get_byte(source, 1)?;
    let (high, low) = if big_endian {
        (first as usize, second as usize)
    } else {
        (second as usize, first as usize)
    };
    let offset = (high << 8) | low;
    assert((high << 8) | low == high * 256 + low) by (bit_vector)
        requires
            high < 256,
            low < 256,
    ;
    if offset >= buffer.len() {
        return Err(DecompressionErrorKind::IndexOutOfBounds);
    }
    copy_back(buffer, offset, cmd_size, flip);
    Ok(2)
}

/// Reads a distance back from the end of the output from the first byte of
/// `source` and copies from there.
fn repeat_from_distance(source: &[u8], buffer: &mut Vec<u8>, cmd_size: usize, flip: bool) -> (r:
    Result<usize, DecompressionErrorKind>)
    ensures
        performs(expand_negative_repeat(source@, old(buffer)@, cmd_size as nat, flip), r, old(buffer)@, final(buffer)@),
{
    let distance = try_get_byte(source, 0)? as usize;
    if distance == 0 || distance > buffer.len() {
        return Err(DecompressionErrorKind::IndexOutOfBounds);
    }
    let offset = buffer.len() - distance;
    copy_back(buffer, offset, cmd_size, flip);
    Ok(1)
}

/// Copies from the big-endian position in the first two bytes of `source`.
pub fn repeat_be(source: &[u8], buffer: &mut Vec<u8>, cmd_size: usize) -> (r: Result<
    usize,
    DecompressionErrorKind,
>)
    ensures
        performs(expand_repeat(source@, old(buffer)@, cmd_size as nat, false, true), r, old(buffer)@, final(buffer)@),
{
    repeat_from_position(source, buffer, cmd_size, false, true)
}

/// Copies from the little-endian position in the first two bytes of `source`.
pub fn repeat_le(source: &[u8], buffer: &mut Vec<u8>, cmd_size: usize) -> (r: Result<
    usize,
    DecompressionErrorKind,
>)
    ensures
        performs(expand_repeat(source@, old(buffer)@, cmd_size as nat, false, false), r, old(buffer)@, final(buffer)@),
{
    repeat_from_position(source, buffer, cmd_size, false, false)
}

/// Copies, flipping each byte, from the big-endian position in the first two bytes of `source`.
pub fn xor_repeat_be(source: &[u8], buffer: &mut Vec<u8>, cmd_size: usize) -> (r: Result<
    usize,
    DecompressionErrorKind,
>)
    ensures
        performs(expand_repeat(source@, old(buffer)@, cmd_size as nat, true, true), r, old(buffer)@, final(buffer)@),
{
    repeat_from_position(source, buffer, cmd_size, true, true)
}

/// Copies, flipping each byte, from the little-endian position in the first two bytes of `source`.
pub fn xor_repeat_le(source: &[u8], buffer: &mut Vec<u8>, cmd_size: usize) -> (r: Result<
    usize,
    DecompressionErrorKind,
>)
    ensures
        performs(expand_repeat(source@, old(buffer)@, cmd_size as nat, true, false), r, old(buffer)@, final(buffer)@),
{
    repeat_from_position(source, buffer, cmd_size, true, false)
}

/// Copies from the distance back from the end of the output in the first byte of `source`.
pub fn negative_repeat(source: &[u8], buffer: &mut Vec<u8>, cmd_size: usize) -> (r: Result<
    usize,
    DecompressionErrorKind,
>)
    ensures
        performs(expand_negative_repeat(source@, old(buffer)@, cmd_size as nat, false), r, old(buffer)@, final(buffer)@),
{
    repeat_from_distance(source, buffer, cmd_size, false)
}

/// Copies, flipping each byte, from the distance back from the end of the output
/// in the first byte of `source`.
pub fn negative_xor_repeat_le(source: &[u8], buffer: &mut Vec<u8>, cmd_size: usize) -> (r: Result<
    usize,
    DecompressionErrorKind,
>)
    ensures
        performs(expand_negative_repeat(source@, old(buffer)@, cmd_size as nat, true), r, old(buffer)@, final(buffer)@),
{
    repeat_from_distance(source, buffer, cmd_size, true)
}

/// The byte at `idx`, or `IndexOutOfBounds` past the end.
fn try_get_byte(source: &[u8], idx: usize) -> (r: Result<u8, DecompressionErrorKind>)
    ensures
        idx < source@.len() ==> r == Ok::<u8, DecompressionErrorKind>(source@[idx as int]),
        idx >= source@.len() ==> r == Err::<u8, DecompressionErrorKind>(DecompressionErrorKind::IndexOutOfBounds),
{
    if idx < source.len() {
        Ok(source[idx])
    } else {
        Err(DecompressionErrorKind::IndexOutOfBounds)
    }
}

} // verus!
