//! The encoder side of each command: given the source ahead of a position, it
//! proposes one block that stands for a prefix of it, or none.
use vstd::prelude::*;

use super::block::{opt_view, Block, BlockView};
use super::command::CommandConfiguration;
use super::history_table::{HistoryTable, HistoryView};
use crate::format::{header_spec, MAX_BLOCK_SIZE, SENTINEL};

verus! {

/// Largest position that a two-byte payload can hold.
pub const MAX_POSITION: usize = 0xFFFF;

/// Largest distance that a one-byte payload can hold.
pub const MAX_DISTANCE: usize = 255;

/// The block for `n` source bytes at `index` with the given payload, when it is
/// worth emitting: it stands for more bytes than it takes, fits one block, and
/// does not start with the sentinel (which the decoder would take for the end).
pub open spec fn proposal(cfg: CommandConfiguration, index: int, n: nat, payload: Seq<u8>) -> Option<
    BlockView,
> {
    let data = header_spec(cfg.cmd_num, (n - 1) as nat, cfg.is_extended_only) + payload;
    if 1 <= n <= cfg.max_block_size && n > data.len() && data[0] != SENTINEL {
        Some(BlockView { index, num_bytes_consumed: n as int, data })
    } else {
        None
    }
}

/// How far from `k` on the bytes of `s` equal its first byte.
pub open spec fn byte_run_from(s: Seq<u8>, k: nat) -> nat
    decreases s.len() - k,
{
    if k < s.len() && s[k as int] == s[0] {
        byte_run_from(s, k + 1)
    } else {
        k
    }
}

/// How far from `k` on the bytes of `s` repeat its first two bytes in turn.
pub open spec fn word_run_from(s: Seq<u8>, k: nat) -> nat
    decreases s.len() - k,
{
    if k < s.len() && s[k as int] == s[(k % 2) as int] {
        word_run_from(s, k + 1)
    } else {
        k
    }
}

/// How far from `k` on the bytes of `s` count up by one from its first byte,
/// without passing `0xFF`.
pub open spec fn increasing_run_from(s: Seq<u8>, k: nat) -> nat
    decreases s.len() - k,
{
    if k < s.len() && s[k as int] == s[0] + k {
        increasing_run_from(s, k + 1)
    } else {
        k
    }
}

/// Direct copy: all of `src`, verbatim, whenever it is not empty and fits one block.
pub open spec fn direct_copy_spec(cfg: CommandConfiguration, src: Seq<u8>, index: int) -> Option<
    BlockView,
> {
    if 1 <= src.len() <= cfg.max_block_size {
        Some(
            BlockView {
                index,
                num_bytes_consumed: src.len() as int,
                data: header_spec(cfg.cmd_num, (src.len() - 1) as nat, cfg.is_extended_only) + src,
            },
        )
    } else {
        None
    }
}

/// Byte fill: the run of the first byte of `src`.
pub open spec fn byte_fill_spec(cfg: CommandConfiguration, src: Seq<u8>, index: int) -> Option<
    BlockView,
> {
    if src.len() < 1 {
        None
    } else {
        proposal(cfg, index, byte_run_from(src, 0), seq![src[0]])
    }
}

/// Word fill: the run of the first two bytes of `src` in turn.
pub open spec fn word_fill_spec(cfg: CommandConfiguration, src: Seq<u8>, index: int) -> Option<
    BlockView,
> {
    if src.len() < 2 {
        None
    } else {
        proposal(cfg, index, word_run_from(src, 0), seq![src[0], src[1]])
    }
}

/// Increasing fill: the run counting up from the first byte of `src`.
pub open spec fn increasing_fill_spec(cfg: CommandConfiguration, src: Seq<u8>, index: int) -> Option<
    BlockView,
> {
    if src.len() < 1 {
        None
    } else {
        proposal(cfg, index, increasing_run_from(src, 0), seq![src[0]])
    }
}

/// A position as two little-endian bytes.
pub open spec fn le_bytes(p: int) -> Seq<u8> {
    seq![(p % 256) as u8, (p / 256) as u8]
}

/// Repeat and XOR repeat: the longest earlier match anywhere in the source,
/// whose position must fit two bytes.
pub open spec fn repeat_spec(
    cfg: CommandConfiguration,
    src: Seq<u8>,
    index: int,
    history: HistoryView,
    flip: bool,
) -> Option<BlockView> {
    match history.longest_repeat_spec(src, 0, flip) {
        Some((p, size)) => if p <= MAX_POSITION {
            proposal(cfg, index, size, le_bytes(p))
        } else {
            None
        },
        None => None,
    }
}

pub open spec fn repeat_le_spec(cfg: CommandConfiguration, src: Seq<u8>, index: int, history: HistoryView) -> Option<BlockView> {
    repeat_spec(cfg, src, index, history, false)
}

pub open spec fn xor_repeat_le_spec(cfg: CommandConfiguration, src: Seq<u8>, index: int, history: HistoryView) -> Option<BlockView> {
    repeat_spec(cfg, src, index, history, true)
}

/// The lowest position that a one-byte distance back from `index` reaches.
pub open spec fn nearby_bound(index: int) -> int {
    if index < MAX_DISTANCE {
        0
    } else {
        index - MAX_DISTANCE
    }
}

/// Negative repeat and its XOR form: the longest match at most 255 bytes back.
pub open spec fn negative_spec(
    cfg: CommandConfiguration,
    src: Seq<u8>,
    index: int,
    history: HistoryView,
    flip: bool,
) -> Option<BlockView> {
    match history.longest_repeat_spec(src, nearby_bound(index) as usize, flip) {
        Some((p, size)) => proposal(cfg, index, size, seq![(index - p) as u8]),
        None => None,
    }
}

pub open spec fn negative_repeat_spec(cfg: CommandConfiguration, src: Seq<u8>, index: int, history: HistoryView) -> Option<BlockView> {
    negative_spec(cfg, src, index, history, false)
}

pub open spec fn negative_xor_repeat_spec(cfg: CommandConfiguration, src: Seq<u8>, index: int, history: HistoryView) -> Option<BlockView> {
    negative_spec(cfg, src, index, history, true)
}

/// Proposes the whole of `source`, verbatim. This is the fallback: it is worth
/// emitting even though it takes more bytes than it stands for.
pub fn direct_copy(
    cmd_config: &CommandConfiguration,
    source: &[u8],
    index: usize,
    _history: &HistoryTable,
) -> (r: Option<Block>)
    requires
        cmd_config.wf(),
    ensures
        opt_view(r) == direct_copy_spec(*cmd_config, source@, index as int),
{
    if source.is_empty() || source.len() > cmd_config.max_block_size {
        return None;
    }
    let num_bytes_consumed = source.len();
    let mut data = build_command_bytes(cmd_config, num_bytes_consumed);
    let mut arguments = vstd::slice::slice_to_vec(source);
    data.append(&mut arguments);
    let block = Block::new(index, num_bytes_consumed, data).set_debug_message("direct copy");
    Some(block)
}

/// Proposes the run of the first byte of `source`.
pub fn byte_fill(
    cmd_config: &CommandConfiguration,
    source: &[u8],
    index: usize,
    _history: &HistoryTable,
) -> (r: Option<Block>)
    requires
        cmd_config.wf(),
    ensures
        opt_view(r) == byte_fill_spec(*cmd_config, source@, index as int),
{
    if source.len() < 1 {
        return None;
    }
    let first_byte = source[0];
    let mut num_bytes_consumed: usize = 0;
    while num_bytes_consumed < source.len() && source[num_bytes_consumed] == first_byte
        invariant
            num_bytes_consumed <= source@.len(),
            first_byte == source@[0],
            byte_run_from(source@, num_bytes_consumed as nat) == byte_run_from(source@, 0),
        decreases source@.len() - num_bytes_consumed,
    {
        num_bytes_consumed += 1;
    }
    let payload = vec![first_byte];
    assert(payload@ =~= seq![source@[0]]);
    propose(cmd_config, index, num_bytes_consumed, payload, "byte fill")
}

/// Proposes the run of the first two bytes of `source` in turn.
pub fn word_fill(
    cmd_config: &CommandConfiguration,
    source: &[u8],
    index: usize,
    _history: &HistoryTable,
) -> (r: Option<Block>)
    requires
        cmd_config.wf(),
    ensures
        opt_view(r) == word_fill_spec(*cmd_config, source@, index as int),
{
    if source.len() < 2 {
        return None;
    }
    let first_byte = source[0];
    let second_byte = source[1];
    let mut num_bytes_consumed: usize = 0;
    while num_bytes_consumed < source.len() && source[num_bytes_consumed] == source[num_bytes_consumed
        % 2]
        invariant
            num_bytes_consumed <= source@.len(),
            source@.len() >= 2,
            first_byte == source@[0],
            second_byte == source@[1],
            word_run_from(source@, num_bytes_consumed as nat) == word_run_from(source@, 0),
        decreases source@.len() - num_bytes_consumed,
    {
        num_bytes_consumed += 1;
    }
    let payload = vec![first_byte, second_byte];
    assert(payload@ =~= seq![source@[0], source@[1]]);
    propose(cmd_config, index, num_bytes_consumed, payload, "word fill")
}

/// Proposes the run of `source` that counts up by one from its first byte; it
/// ends after `0xFF`.
pub fn increasing_fill(
    cmd_config: &CommandConfiguration,
    source: &[u8],
    index: usize,
    _history: &HistoryTable,
) -> (r: Option<Block>)
    requires
        cmd_config.wf(),
    ensures
        opt_view(r) == increasing_fill_spec(*cmd_config, source@, index as int),
{
    if source.len() < 1 {
        return None;
    }
    let first_byte = source[0];
    let mut num_bytes_consumed: usize = 0;
    while num_bytes_consumed < source.len() && num_bytes_consumed < 256 && source[num_bytes_consumed]
        as usize == first_byte as usize + num_bytes_consumed
        invariant
            num_bytes_consumed <= source@.len(),
            first_byte == source@[0],
            increasing_run_from(source@, num_bytes_consumed as nat) == increasing_run_from(source@, 0),
        decreases source@.len() - num_bytes_consumed,
    {
        num_bytes_consumed += 1;
    }
    let payload = vec![first_byte];
    assert(payload@ =~= seq![source@[0]]);
    propose(cmd_config, index, num_bytes_consumed, payload, "increasing fill")
}

/// Proposes the longest earlier match of `source` anywhere in the source.
pub fn repeat_le(
    cmd_config: &CommandConfiguration,
    source: &[u8],
    index: usize,
    history: &HistoryTable,
) -> (r: Option<Block>)
    requires
        cmd_config.wf(),
        history.wf(),
    ensures
        opt_view(r) == repeat_le_spec(*cmd_config, source@, index as int, history@),
{
    let repeat_info = history.find_longest_repeat(source, 0)?;
    propose_repeat(cmd_config, index, repeat_info.start_index, repeat_info.size, "repeat le")
}

/// Proposes the longest earlier match anywhere in the source of `source` with
/// every byte flipped.
pub fn xor_repeat_le(
    cmd_config: &CommandConfiguration,
    source: &[u8],
    index: usize,
    history: &HistoryTable,
) -> (r: Option<Block>)
    requires
        cmd_config.wf(),
        history.wf(),
    ensures
        opt_view(r) == xor_repeat_le_spec(*cmd_config, source@, index as int, history@),
{
    let repeat_info = history.find_longest_repeat_xor(source, 0)?;
    propose_repeat(cmd_config, index, repeat_info.start_index, repeat_info.size, "xor repeat le")
}

/// Proposes the longest match of `source` at most 255 bytes back.
pub fn negative_repeat(
    cmd_config: &CommandConfiguration,
    source: &[u8],
    index: usize,
    history: &HistoryTable,
) -> (r: Option<Block>)
    requires
        cmd_config.wf(),
        history.wf(),
        history@.positions_below(index as int),
    ensures
        opt_view(r) == negative_repeat_spec(*cmd_config, source@, index as int, history@),
{
    let lower_bound = nearby_lower_bound(index);
    let repeat_info = history.find_longest_repeat(source, lower_bound)?;
    propose_nearby(cmd_config, history, source, index, repeat_info.start_index, repeat_info.size, false, "negative repeat")
}

/// Proposes the longest match of `source`, with every byte flipped, at most 255 bytes back.
pub fn negative_xor_repeat(
    cmd_config: &CommandConfiguration,
    source: &[u8],
    index: usize,
    history: &HistoryTable,
) -> (r: Option<Block>)
    requires
        cmd_config.wf(),
        history.wf(),
        history@.positions_below(index as int),
    ensures
        opt_view(r) == negative_xor_repeat_spec(*cmd_config, source@, index as int, history@),
{
    let lower_bound = nearby_lower_bound(index);
    let repeat_info = history.find_longest_repeat_xor(source, lower_bound)?;
    propose_nearby(cmd_config, history, source, index, repeat_info.start_index, repeat_info.size, true, "negative xor repeat")
}

fn nearby_lower_bound(index: usize) -> (r: usize)
    ensures
        r == nearby_bound(index as int),
{
    if index < MAX_DISTANCE {
        0
    } else {
        index - MAX_DISTANCE
    }
}

/// The repeat block for a match at `start` of `size` bytes.
fn propose_repeat(
    cmd_config: &CommandConfiguration,
    index: usize,
    start: usize,
    size: usize,
    message: &str,
) -> (r: Option<Block>)
    requires
        cmd_config.wf(),
    ensures
        opt_view(r) == (if start <= MAX_POSITION {
            proposal(*cmd_config, index as int, size as nat, le_bytes(start as int))
        } else {
            None
        }),
{
    if size == 0 || start > MAX_POSITION {
        return None;
    }
    propose(cmd_config, index, size, transform_into_bytes_le(start), message)
}

/// The negative repeat block for a match at `start` of `size` bytes.
fn propose_nearby(
    cmd_config: &CommandConfiguration,
    history: &HistoryTable,
    source: &[u8],
    index: usize,
    start: usize,
    size: usize,
    flip: bool,
    message: &str,
) -> (r: Option<Block>)
    requires
        cmd_config.wf(),
        history.wf(),
        history@.positions_below(index as int),
        history@.longest_repeat_spec(source@, nearby_bound(index as int) as usize, flip) == Some((start as int, size as nat)),
    ensures
        opt_view(r) == proposal(*cmd_config, index as int, size as nat, seq![(index - start) as u8]),
{
    proof {
        history@.lemma_repeat_found(source@, nearby_bound(index as int) as usize, flip);
    }
    let distance = (index - start) as u8;
    let payload = vec![distance];
    assert(payload@ =~= seq![(index - start) as u8]);
    propose(cmd_config, index, size, payload, message)
}

/// The block for `n` source bytes at `index` with `payload`, when worth emitting.
fn propose(
    cmd_config: &CommandConfiguration,
    index: usize,
    num_bytes_consumed: usize,
    payload: Vec<u8>,
    message: &str,
) -> (r: Option<Block>)
    requires
        cmd_config.wf(),
    ensures
        opt_view(r) == proposal(*cmd_config, index as int, num_bytes_consumed as nat, payload@),
{
    if num_bytes_consumed < 1 || num_bytes_consumed > cmd_config.max_block_size {
        return None;
    }
    let mut data = build_command_bytes(cmd_config, num_bytes_consumed);
    let mut arguments = payload;
    data.append(&mut arguments);
    if num_bytes_consumed <= data.len() || data[0] == 0xFF {
        return None;
    }
    let block = Block::new(index, num_bytes_consumed, data).set_debug_message(message);
    Some(block)
}

/// A position as two little-endian bytes.
fn transform_into_bytes_le(val: usize) -> (r: Vec<u8>)
    requires
        val <= MAX_POSITION,
    ensures
        r@ == le_bytes(val as int),
{
    let first = (val & 0xFF) as u8;
    let second = (val >> 8) as u8;
    assert(val & 0xFF == val % 256) by (bit_vector);
    assert(val >> 8 == val / 256) by (bit_vector);
    vec![first, second]
}

/// The header of a block of `num_bytes_consumed` source bytes.
fn build_command_bytes(cmd_config: &CommandConfiguration, num_bytes_consumed: usize) -> (r: Vec<u8>)
    requires
        cmd_config.wf(),
        1 <= num_bytes_consumed <= MAX_BLOCK_SIZE,
    ensures
        r@ == header_spec(cmd_config.cmd_num, (num_bytes_consumed - 1) as nat, cmd_config.is_extended_only),
{
    let cmd = cmd_config.cmd_num;
    let cmd_size = cmd_config.cmd_size as u32;
    let shift_width: u32 = 8 - cmd_size;
    let extended_threshold: usize = 1usize << shift_width;
    assert(1usize << 5u32 == 32) by (bit_vector);
    let size = num_bytes_consumed - 1;
    let is_extended = size >= extended_threshold || cmd_config.is_extended_only;
    let extended_mask: u8 = if is_extended {
        0xFFu8 << shift_width
    } else {
        0
    };
    let cmd_mask: u8 = if is_extended {
        cmd << (shift_width - cmd_size)
    } else {
        cmd << shift_width
    };
    let size_mask: u8 = if is_extended {
        (#[verifier::truncate] ((size >> 8) as u8))
    } else {
        size as u8
    };
    let mut command_bytes: Vec<u8> = Vec::new();
    let first = bit_or(extended_mask, cmd_mask, size_mask);
    let ghost len_field = (num_bytes_consumed - 1) as nat;
    if is_extended {
        assert(shift_width == 5 && shift_width - cmd_size == 2);
        assert(size >> 8 == size / 256 && size / 256 < 4) by (bit_vector)
            requires
                size < 1024,
        ;
        let hi = size_mask;
        assert(hi == size / 256);
        assert(0xFFu8 << 5u32 == 0xE0u8) by (bit_vector);
        assert((0xE0u8 | (cmd << 2u32) | hi) == 0xE0 + cmd * 4 + hi) by (bit_vector)
            requires
                cmd < 8,
                hi < 4,
        ;
        assert(first == 0xE0 + cmd * 4 + len_field / 256);
        command_bytes.push(first);
        assert(size & 0xFF == size % 256) by (bit_vector);
        command_bytes.push((size & 0xFF) as u8);
        assert(command_bytes@ =~= header_spec(cmd, len_field, cmd_config.is_extended_only));
    } else {
        assert(shift_width == 5);
        let low = size_mask;
        assert(low == size);
        assert((cmd << 5u32) | low == cmd * 32 + low) by (bit_vector)
            requires
                cmd < 8,
                low < 32,
        ;
        assert((0u8 | (cmd << 5u32) | low) == (cmd << 5u32) | low) by (bit_vector);
        command_bytes.push(first);
        assert(command_bytes@ =~= header_spec(cmd, len_field, cmd_config.is_extended_only));
    }
    command_bytes
}

fn bit_or(a: u8, b: u8, c: u8) -> (r: u8)
    ensures
        r == a | b | c,
{
    a | b | c
}

} // verus!
