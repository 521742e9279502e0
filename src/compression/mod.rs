//! The compressor: it walks the source, records byte pairs in the history,
//! emits the best block proposed at each uncovered position, and covers the
//! gaps between blocks with the fallback command.
use vstd::prelude::*;

pub mod block;
pub mod command;
pub mod command_callbacks;
pub mod history_table;
pub mod round_trip;
pub mod strategies;

use self::block::{opt_view, Block};
use self::history_table::{history_before, lemma_history_before_below, lemma_history_next, HistoryTable};
use self::block::BlockView;
use self::round_trip::{
    block_decodes, lemma_covers_append, lemma_covers_empty, lemma_covers_end, lemma_proposal_decodes,
    stream_covers,
};
use self::strategies::{
    best_spec, blocks_bytes, fallback_tiling, get_compression_strategy, lemma_best_decodes,
    lz5_commands, lz5_fallback, source_slice_spec, views, CompressionStrategy,
};
use crate::errors::{CompressionError, DecompressionErrorKind};
use crate::format::{decode_stream, MAX_BLOCK_SIZE, SENTINEL};
use crate::CompressionType;

verus! {

/// The fallback bytes that cover `[start, end)` of `source`, with the pairs
/// that start before `n` recorded.
pub open spec fn gap_bytes(source: Seq<u8>, start: int, end: int, n: int) -> Seq<u8> {
    blocks_bytes(
        fallback_tiling(lz5_fallback(), source, start, end, MAX_BLOCK_SIZE as int, history_before(source, n)),
    )
}

/// The block that the greedy rule picks at position `i` of `source`: the best
/// of the LZ5 proposals there, with the pairs before `i` recorded.
#[verifier::opaque]
pub open spec fn best_at(source: Seq<u8>, i: int) -> Option<BlockView> {
    best_spec(
        lz5_commands(),
        source_slice_spec(source, i, MAX_BLOCK_SIZE as int),
        i,
        history_before(source, i),
    )
}

/// What the compressor emits from position `i` on, with the source covered up
/// to `last`. At each position not yet covered it records the pair that ends
/// there, then emits the best proposed block, after fallback blocks for the gap
/// before it; at the end it covers the rest with fallback blocks.
pub open spec fn emitted_from(source: Seq<u8>, i: int, last: int) -> Seq<u8>
    decreases source.len() - i,
{
    if i >= source.len() {
        gap_bytes(source, last, source.len() as int, i - 1)
    } else if i < last {
        emitted_from(source, i + 1, last)
    } else {
        match best_at(source, i) {
            Some(b) => gap_bytes(source, last, i, i) + b.data + emitted_from(
                source,
                i + 1,
                i + b.num_bytes_consumed,
            ),
            None => emitted_from(source, i + 1, last),
        }
    }
}

/// The LZ5 stream that [`compress`] makes of `source`: the emitted blocks, then
/// the sentinel.
pub open spec fn compress_spec(source: Seq<u8>) -> Seq<u8> {
    emitted_from(source, 0, 0).push(SENTINEL)
}

/// Fallback blocks for a gap extend what a stream prefix covers to the gap's end.
proof fn lemma_gap_covers(buffer: Seq<u8>, source: Seq<u8>, start: int, end: int, n: int)
    requires
        source.len() <= usize::MAX,
        0 <= start <= end <= source.len(),
        stream_covers(buffer, source.take(start)),
    ensures
        stream_covers(buffer + gap_bytes(source, start, end, n), source.take(end)),
    decreases end - start,
{
    let history = history_before(source, n);
    let max = MAX_BLOCK_SIZE as int;
    if start >= end {
        assert(buffer + gap_bytes(source, start, end, n) =~= buffer);
    } else {
        let len = if end - start > max {
            max
        } else {
            end - start
        };
        let chunk = source.subrange(start, start + len);
        lemma_history_before_below(source, n);
        lemma_proposal_decodes(lz5_fallback(), chunk, start, history, source);
        let b = lz5_fallback().proposal_spec(chunk, start, history)->Some_0;
        let rest = fallback_tiling(lz5_fallback(), source, start + len, end, max, history);
        let tiling = fallback_tiling(lz5_fallback(), source, start, end, max, history);
        assert(tiling == seq![b] + rest);
        assert(tiling[0] == b);
        assert(tiling.skip(1) =~= rest);
        lemma_covers_append(buffer, b, source);
        lemma_gap_covers(buffer + b.data, source, start + len, end, n);
        assert(buffer + gap_bytes(source, start, end, n) =~= (buffer + b.data) + gap_bytes(
            source,
            start + len,
            end,
            n,
        ));
    }
}

/// The block picked at a position decodes back, and starts there.
proof fn lemma_best_at_decodes(source: Seq<u8>, i: int)
    requires
        source.len() <= usize::MAX,
        0 <= i < source.len(),
    ensures
        best_at(source, i) matches Some(b) ==> block_decodes(b, source) && b.index == i,
{
    reveal(best_at);
    let history = history_before(source, i);
    let src = source_slice_spec(source, i, MAX_BLOCK_SIZE as int);
    lemma_history_before_below(source, i);
    assert(forall|k: int| 0 <= k < lz5_commands().len() ==> (#[trigger] lz5_commands()[k]).wf());
    assert(src == source.subrange(i, i + src.len()));
    lemma_best_decodes(lz5_commands(), src, i, history, source);
}

/// One step of the compressor at a position not yet covered.
proof fn lemma_emitted_step(source: Seq<u8>, i: int, last: int)
    requires
        0 <= last <= i < source.len(),
    ensures
        emitted_from(source, i, last) == match best_at(source, i) {
            Some(b) => gap_bytes(source, last, i, i) + b.data + emitted_from(
                source,
                i + 1,
                i + b.num_bytes_consumed,
            ),
            None => emitted_from(source, i + 1, last),
        },
{
}

/// What the compressor emits from `i` on, after a prefix that covers the
/// source up to `last`, covers the whole source.
proof fn lemma_emitted_covers(buffer: Seq<u8>, source: Seq<u8>, i: int, last: int)
    requires
        source.len() <= usize::MAX,
        0 <= i <= source.len(),
        0 <= last <= source.len(),
        stream_covers(buffer, source.take(last)),
    ensures
        stream_covers(buffer + emitted_from(source, i, last), source),
    decreases source.len() - i,
{
    if i >= source.len() {
        lemma_gap_covers(buffer, source, last, source.len() as int, i - 1);
        assert(source.take(source.len() as int) =~= source);
    } else if i < last {
        lemma_emitted_covers(buffer, source, i + 1, last);
    } else {
        match best_at(source, i) {
            Some(b) => {
                lemma_best_at_decodes(source, i);
                lemma_gap_covers(buffer, source, last, i, i);
                let with_gap = buffer + gap_bytes(source, last, i, i);
                lemma_covers_append(with_gap, b, source);
                lemma_emitted_covers(with_gap + b.data, source, i + 1, i + b.num_bytes_consumed);
                assert(buffer + emitted_from(source, i, last) =~= (with_gap + b.data) + emitted_from(
                    source,
                    i + 1,
                    i + b.num_bytes_consumed,
                ));
            },
            None => {
                lemma_emitted_covers(buffer, source, i + 1, last);
            },
        }
    }
}

/// Whatever the source, the stream that the compressor makes of it decodes
/// back to it.
pub proof fn lemma_round_trip(source: Seq<u8>)
    requires
        source.len() <= usize::MAX,
    ensures
        decode_stream(compress_spec(source)) == Ok::<Seq<u8>, (DecompressionErrorKind, Seq<u8>)>(
            source,
        ),
{
    lemma_covers_empty();
    assert(source.take(0) =~= Seq::<u8>::empty());
    lemma_emitted_covers(Seq::empty(), source, 0, 0);
    assert(Seq::<u8>::empty() + emitted_from(source, 0, 0) =~= emitted_from(source, 0, 0));
    lemma_covers_end(emitted_from(source, 0, 0), source);
}

/// Compresses `source` into an LZ5 stream: the blocks that the greedy rule
/// picks and fallback blocks between them, then the sentinel. The stream
/// decodes back to `source`.
pub fn compress(source: &[u8], compression_type: CompressionType) -> (r: Result<
    Vec<u8>,
    CompressionError,
>)
    ensures
        r matches Ok(v) && v@ == compress_spec(source@) && v@.last() == SENTINEL && decode_stream(
            v@,
        ) == Ok::<Seq<u8>, (DecompressionErrorKind, Seq<u8>)>(source@),
{
    let strategy = match get_compression_strategy(compression_type) {
        Some(strategy) => strategy,
        None => {
            return Err(
                CompressionError::UnsupportedFormat { compression_type: compression_type.name() },
            );
        },
    };
    let mut history_table = HistoryTable::new(source);
    let mut buffer: Vec<u8> = Vec::new();
    let mut last_block_end_index: usize = 0;
    let mut i: usize = 0;
    proof {
        assert(history_table@.buckets =~= history_before(source@, -1).buckets);
        assert(buffer@ + emitted_from(source@, 0, 0) =~= emitted_from(source@, 0, 0));
    }
    while i < source.len()
        invariant
            strategy.wf(),
            strategy.commands@ == lz5_commands(),
            strategy.fallback_command == Some(lz5_fallback()),
            strategy.max_block_size == MAX_BLOCK_SIZE,
            history_table.wf(),
            history_table@ == history_before(source@, i - 1),
            i <= source@.len(),
            last_block_end_index <= source@.len(),
            buffer@ + emitted_from(source@, i as int, last_block_end_index as int) == emitted_from(
                source@,
                0,
                0,
            ),
        decreases source@.len() - i,
    {
        if i > 0 {
            let first = source[i - 1];
            let second = source[i];
            proof {
                lemma_history_next(source@, i - 1);
            }
            history_table.insert(first, second, i - 1);
        }
        proof {
            if i == 0 {
                assert(history_before(source@, -1).buckets =~= history_before(source@, 0).buckets);
            }
            assert(history_table@ == history_before(source@, i as int));
            lemma_history_before_below(source@, i as int);
        }
        if i < last_block_end_index {
            i += 1;
            continue;
        }
        let ghost before = buffer@;
        let best = strategy.get_best_block(source, i, &history_table);
        assert(opt_view(best) == best_at(source@, i as int)) by {
            reveal(best_at);
        }
        proof {
            lemma_best_at_decodes(source@, i as int);
            lemma_emitted_step(source@, i as int, last_block_end_index as int);
        }
        if let Some(block) = best {
            if i > last_block_end_index {
                let fallback_blocks = get_fallback_blocks(
                    &strategy,
                    source,
                    last_block_end_index,
                    i,
                    &history_table,
                )?;
                append_blocks(&mut buffer, &fallback_blocks);
            }
            assert(buffer@ == before + gap_bytes(source@, last_block_end_index as int, i as int, i as int));
            last_block_end_index = i + block.num_bytes_consumed;
            let ghost gap = buffer@;
            let mut data_vec = block.collect();
            buffer.append(&mut data_vec);
            assert(buffer@ + emitted_from(source@, i + 1, last_block_end_index as int) =~= gap
                + (block@.data + emitted_from(source@, i + 1, last_block_end_index as int)));
        }
        i += 1;
    }
    let ghost before = buffer@;
    if i > last_block_end_index {
        let fallback_blocks = get_fallback_blocks(
            &strategy,
            source,
            last_block_end_index,
            i,
            &history_table,
        )?;
        append_blocks(&mut buffer, &fallback_blocks);
    }
    proof {
        assert(buffer@ == before + gap_bytes(source@, last_block_end_index as int, i as int, i - 1));
        assert(buffer@ == emitted_from(source@, 0, 0));
        lemma_round_trip(source@);
    }
    buffer.push(0xFF);
    Ok(buffer)
}

/// The fallback blocks that cover `[start_index, end_index)`.
fn get_fallback_blocks(
    strategy: &CompressionStrategy,
    source: &[u8],
    start_index: usize,
    end_index: usize,
    history_table: &HistoryTable,
) -> (r: Result<Vec<Block>, CompressionError>)
    requires
        strategy.wf(),
        history_table.wf(),
        start_index <= end_index <= source@.len(),
    ensures
        r matches Ok(v) && views(v@) == fallback_tiling(
            strategy.fallback_command->Some_0,
            source@,
            start_index as int,
            end_index as int,
            strategy.max_block_size as int,
            history_table@,
        ),
{
    match strategy.get_fallback_blocks(source, start_index, end_index, history_table) {
        Some(blocks) => Ok(blocks),
        None => Err(CompressionError::CompressionFailed),
    }
}

/// Appends the encoded bytes of `blocks`, in order.
fn append_blocks(buffer: &mut Vec<u8>, blocks: &Vec<Block>)
    ensures
        final(buffer)@ == old(buffer)@ + blocks_bytes(views(blocks@)),
{
    let ghost all = views(blocks@);
    let mut k: usize = 0;
    assert(all.skip(0) =~= all);
    assert(buffer@ + blocks_bytes(all) =~= old(buffer)@ + blocks_bytes(all));
    while k < blocks.len()
        invariant
            all == views(blocks@),
            k <= blocks@.len(),
            buffer@ + blocks_bytes(all.skip(k as int)) == old(buffer)@ + blocks_bytes(all),
        decreases blocks@.len() - k,
    {
        let ghost before = buffer@;
        proof {
            assert(all.skip(k as int)[0] == blocks@[k as int]@);
            assert(all.skip(k as int).skip(1) =~= all.skip(k + 1));
        }
        buffer.extend_from_slice(blocks[k].data.as_slice());
        assert(buffer@ + blocks_bytes(all.skip(k + 1)) =~= before + blocks_bytes(all.skip(k as int)));
        k += 1;
    }
    assert(all.skip(k as int).len() == 0);
    assert(buffer@ =~= buffer@ + blocks_bytes(all.skip(k as int)));
}

} // verus!
