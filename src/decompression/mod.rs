//! The decompressor: it reads command headers and hands each payload to the
//! matching decoder callback until the sentinel or the end of the input.
use vstd::prelude::*;

pub mod command_callbacks;

use crate::errors::{DecompressionError, DecompressionErrorInfo, DecompressionErrorKind};
use crate::format::{
    command_bits_spec, decode_command, decode_from, decode_stream, expand_spec, has_command,
    is_extended_spec, length_field_spec, performs, SENTINEL,
};
use crate::CompressionType;

verus! {

type DecompResult<T> = core::result::Result<T, DecompressionErrorKind>;

/// The effect of one step of the decoder on the input: whether it met the
/// sentinel, and how many input bytes it took.
struct CommandOutcome {
    is_terminated: bool,
    num_bytes_consumed: usize,
}

impl CommandOutcome {
    fn new(is_terminated: bool, num_bytes_consumed: usize) -> (r: Self)
        ensures
            r.is_terminated == is_terminated,
            r.num_bytes_consumed == num_bytes_consumed,
    {
        CommandOutcome { is_terminated, num_bytes_consumed }
    }
}

/// The decoder callbacks of LZ5, one per command.
#[derive(Clone, Copy)]
enum DecoderCommand {
    DirectCopy,
    ByteFill,
    WordFill,
    IncreasingFill,
    Repeat,
    XorRepeat,
    NegativeRepeat,
    NegativeXorRepeat,
}

impl DecoderCommand {
    spec fn selector(self) -> u8 {
        match self {
            DecoderCommand::DirectCopy => 0,
            DecoderCommand::ByteFill => 1,
            DecoderCommand::WordFill => 2,
            DecoderCommand::IncreasingFill => 3,
            DecoderCommand::Repeat => 4,
            DecoderCommand::XorRepeat => 5,
            DecoderCommand::NegativeRepeat => 6,
            DecoderCommand::NegativeXorRepeat => 7,
        }
    }

    /// Runs the callback on the payload `source`, appending to `buffer`.
    fn call(self, source: &[u8], buffer: &mut Vec<u8>, cmd_size: usize) -> (r: DecompResult<usize>)
        ensures
            performs(expand_spec(self.selector(), source@, old(buffer)@, cmd_size as nat), r, old(buffer)@, final(buffer)@),
    {
        match self {
            DecoderCommand::DirectCopy => command_callbacks::direct_copy(source, buffer, cmd_size),
            DecoderCommand::ByteFill => command_callbacks::byte_fill(source, buffer, cmd_size),
            DecoderCommand::WordFill => command_callbacks::word_fill(source, buffer, cmd_size),
            DecoderCommand::IncreasingFill => command_callbacks::increasing_fill(source, buffer, cmd_size),
            DecoderCommand::Repeat => command_callbacks::repeat_le(source, buffer, cmd_size),
            DecoderCommand::XorRepeat => command_callbacks::xor_repeat_le(source, buffer, cmd_size),
            DecoderCommand::NegativeRepeat => command_callbacks::negative_repeat(source, buffer, cmd_size),
            DecoderCommand::NegativeXorRepeat => command_callbacks::negative_xor_repeat_le(
                source,
                buffer,
                cmd_size,
            ),
        }
    }
}

/// Decodes an LZ5 stream. Decoding stops at the sentinel `0xFF` or at the end of
/// `source`; on failure the error holds `source` and the output decoded before
/// the failing command.
pub fn decompress(source: &[u8], compression_type: CompressionType) -> (r: Result<
    Vec<u8>,
    DecompressionError,
>)
    ensures
        match r {
            Ok(v) => decode_stream(source@) == Ok::<Seq<u8>, (DecompressionErrorKind, Seq<u8>)>(v@),
            Err(e) => {
                &&& decode_stream(source@) == Err::<Seq<u8>, (DecompressionErrorKind, Seq<u8>)>(
                    (e.kind, e.error_info.result@),
                )
                &&& e.error_info.source@ == source@
            },
        },
{
    let mut buffer: Vec<u8> = Vec::new();
    match compression_type {
        CompressionType::LZ5 => {},
    }
    let mut i: usize = 0;
    assert(source@.skip(0) =~= source@);
    assert(buffer@ =~= Seq::<u8>::empty());
    while i < source.len()
        invariant
            i <= source@.len(),
            decode_from(source@.skip(i as int), buffer@) == decode_stream(source@),
        decreases source@.len() - i,
    {
        let rest = &source[i..source.len()];
        assert(rest@ =~= source@.skip(i as int));
        let ghost before = buffer@;
        let command_outcome = match process_next(rest, &mut buffer) {
            Ok(outcome) => outcome,
            Err(kind) => {
                return Err(build_error(source, &buffer, kind));
            },
        };
        if command_outcome.is_terminated {
            return Ok(buffer);
        }
        proof {
            assert(source@.skip(i as int).skip(command_outcome.num_bytes_consumed as int)
                =~= source@.skip(i + command_outcome.num_bytes_consumed));
        }
        i += command_outcome.num_bytes_consumed;
    }
    assert(source@.skip(i as int).len() == 0);
    Ok(buffer)
}

/// Decodes the command at the start of `source` (which is not empty) into `buffer`.
fn process_next(source: &[u8], buffer: &mut Vec<u8>) -> (r: DecompResult<CommandOutcome>)
    requires
        source@.len() > 0,
    ensures
        source@[0] == SENTINEL ==> (r matches Ok(o) && o.is_terminated && final(buffer)@ == old(buffer)@),
        source@[0] != SENTINEL ==> match decode_command(source@, old(buffer)@) {
            Ok((out, used)) => (r matches Ok(o) && !o.is_terminated && o.num_bytes_consumed == used
                && final(buffer)@ == out),
            Err(k) => (r matches Err(e) && e == k && final(buffer)@ == old(buffer)@),
        },
{
    let first_byte = source[0];
    if first_byte == 0xFF {
        Ok(CommandOutcome::new(true, 1))
    } else {
        let is_extended_cmd = is_extended_cmd(first_byte);
        let cmd_bits = get_command_bits(first_byte, is_extended_cmd);
        let cmd_size = get_command_size(source, is_extended_cmd)?;
        let source_offset = get_command_source_offset(source, is_extended_cmd)?;
        let cmd_callback = get_command_callback(is_extended_cmd, cmd_bits)?;
        let num_skip = cmd_callback.call(source_offset, buffer, cmd_size)?;
        if is_extended_cmd {
            Ok(CommandOutcome::new(false, num_skip + 2))
        } else {
            Ok(CommandOutcome::new(false, num_skip + 1))
        }
    }
}

/// The decoder callback for a selector in a header layout.
fn get_command_callback(is_extended: bool, cmd_bits: u8) -> (r: DecompResult<DecoderCommand>)
    requires
        cmd_bits < 8,
    ensures
        has_command(cmd_bits, is_extended) ==> (r matches Ok(c) && c.selector() == cmd_bits),
        !has_command(cmd_bits, is_extended) ==> r == Err::<DecoderCommand, DecompressionErrorKind>(
            DecompressionErrorKind::InvalidCommand,
        ),
{
    match cmd_bits {
        0 => Ok(DecoderCommand::DirectCopy),
        1 => Ok(DecoderCommand::ByteFill),
        2 => Ok(DecoderCommand::WordFill),
        3 => Ok(DecoderCommand::IncreasingFill),
        4 => Ok(DecoderCommand::Repeat),
        5 => Ok(DecoderCommand::XorRepeat),
        6 => Ok(DecoderCommand::NegativeRepeat),
        _ => if is_extended {
            Ok(DecoderCommand::NegativeXorRepeat)
        } else {
            Err(DecompressionErrorKind::InvalidCommand)
        },
    }
}

/// Whether a header starting with `byte` is an extended (two-byte) one.
fn is_extended_cmd(byte: u8) -> (r: bool)
    ensures
        r == is_extended_spec(byte),
{
    get_command_bits(byte, false) == 0b111
}

/// The selector in the first header byte.
fn get_command_bits(byte: u8, extended: bool) -> (r: u8)
    ensures
        r == command_bits_spec(byte, extended),
        r < 8,
{
    if extended {
        assert((byte & 0b00011100) >> 2 == (byte / 4) % 8) by (bit_vector);
        (byte & 0b00011100) >> 2
    } else {
        assert((byte & 0b11100000) >> 5 == byte / 32) by (bit_vector);
        (byte & 0b11100000) >> 5
    }
}

/// The number of bytes that the command at the start of `source` stands for.
fn get_command_size(source: &[u8], extended: bool) -> (r: DecompResult<usize>)
    requires
        source@.len() > 0,
    ensures
        extended && source@.len() < 2 ==> r == Err::<usize, DecompressionErrorKind>(
            DecompressionErrorKind::IndexOutOfBounds,
        ),
        !(extended && source@.len() < 2) ==> r == Ok::<usize, DecompressionErrorKind>(
            (length_field_spec(source@, extended) + 1) as usize,
        ),
        r matches Ok(n) ==> 1 <= n <= 1024,
{
    let required_size: usize = if extended {
        2
    } else {
        1
    };
    if source.len() < required_size {
        Err(DecompressionErrorKind::IndexOutOfBounds)
    } else {
        let b0 = source[0];
        let cmd_size: usize = if extended {
            let high: u8 = b0 & 0b00000011;
            assert(b0 & 0b00000011 == b0 % 4) by (bit_vector);
            let first_byte: usize = high as usize;
            let second_byte: usize = source[1] as usize;
            assert((first_byte << 8) | second_byte == first_byte * 256 + second_byte) by (bit_vector)
                requires
                    first_byte < 4,
                    second_byte < 256,
            ;
            (first_byte << 8) | second_byte
        } else {
            assert(b0 & 0b00011111 == b0 % 32) by (bit_vector);
            (b0 & 0b00011111) as usize
        };
        Ok(cmd_size + 1)
    }
}

/// The payload that follows the header at the start of `source`.
fn get_command_source_offset(source: &[u8], extended: bool) -> (r: DecompResult<&[u8]>)
    ensures
        ({
            let h: int = if extended { 2 } else { 1 };
            &&& h > source@.len() ==> (r matches Err(e) && e == DecompressionErrorKind::IndexOutOfBounds)
            &&& h <= source@.len() ==> (r matches Ok(p) && p@ == source@.skip(h))
        }),
{
    let offset: usize = if extended {
        2
    } else {
        1
    };
    if offset > source.len() {
        Err(DecompressionErrorKind::IndexOutOfBounds)
    } else {
        let source_offset = &source[offset..source.len()];
        assert(source_offset@ =~= source@.skip(offset as int));
        Ok(source_offset)
    }
}

/// The error of a failed decompression of `source`, after `buffer` was decoded.
fn build_error(source: &[u8], buffer: &Vec<u8>, kind: DecompressionErrorKind) -> (r:
    DecompressionError)
    ensures
        r.kind == kind,
        r.error_info.source@ == source@,
        r.error_info.result@ == buffer@,
{
    let error_info = DecompressionErrorInfo::new(source, buffer.as_slice());
    DecompressionError::new(kind, error_info)
}

} // verus!
