//! Why the compressor's output decodes back to its input: each block it emits,
//! decoded after the source before it, yields the source up to the block's end.
use vstd::prelude::*;

use super::block::BlockView;
use super::command::{Command, CommandKind};
use super::command_callbacks::{
    byte_run_from, increasing_run_from, le_bytes, nearby_bound, word_run_from,
    MAX_DISTANCE, MAX_POSITION,
};
use super::history_table::{lemma_match_run, pair_key, HistoryView};
use crate::format::{
    back_copy, decode_command, decode_from, decode_stream, expand_spec, flip_spec, header_spec,
    lemma_header_round_trip, position_spec, SENTINEL,
};

verus! {

/// `b` stands for the source bytes it claims: decoded after the source that
/// comes before it, whatever follows it in the stream, it takes exactly its own
/// bytes and yields the source up to its end.
pub open spec fn block_decodes(b: BlockView, whole: Seq<u8>) -> bool {
    &&& 0 <= b.index
    &&& 1 <= b.num_bytes_consumed
    &&& b.index + b.num_bytes_consumed <= whole.len()
    &&& b.data.len() >= 1
    &&& b.data[0] != SENTINEL
    &&& forall|rest: Seq<u8>|
        #[trigger] decode_command(b.data + rest, whole.take(b.index)) == Ok::<
            (Seq<u8>, nat),
            crate::errors::DecompressionErrorKind,
        >((whole.take(b.index + b.num_bytes_consumed), b.data.len()))
}

/// `buffer` is a stream prefix that decodes to `covered`: whatever follows it is
/// decoded as though `covered` had been decoded before.
pub open spec fn stream_covers(buffer: Seq<u8>, covered: Seq<u8>) -> bool {
    forall|rest: Seq<u8>| #[trigger]
        decode_from(buffer + rest, Seq::empty()) == decode_from(rest, covered)
}

/// The empty stream prefix covers nothing.
pub proof fn lemma_covers_empty()
    ensures
        stream_covers(Seq::empty(), Seq::empty()),
{
    assert forall|rest: Seq<u8>| #[trigger]
        decode_from(Seq::<u8>::empty() + rest, Seq::empty()) == decode_from(rest, Seq::empty()) by {
        assert(Seq::<u8>::empty() + rest =~= rest);
    }
}

/// Appending a block that decodes extends what the prefix covers to the block's end.
pub proof fn lemma_covers_append(buffer: Seq<u8>, b: BlockView, whole: Seq<u8>)
    requires
        stream_covers(buffer, whole.take(b.index)),
        block_decodes(b, whole),
    ensures
        stream_covers(buffer + b.data, whole.take(b.index + b.num_bytes_consumed)),
{
    assert forall|rest: Seq<u8>| #[trigger]
        decode_from((buffer + b.data) + rest, Seq::empty()) == decode_from(
            rest,
            whole.take(b.index + b.num_bytes_consumed),
        ) by {
        let tail = b.data + rest;
        assert((buffer + b.data) + rest =~= buffer + tail);
        assert(decode_from(buffer + tail, Seq::empty()) == decode_from(tail, whole.take(b.index)));
        assert(decode_command(b.data + rest, whole.take(b.index)) == Ok::<
            (Seq<u8>, nat),
            crate::errors::DecompressionErrorKind,
        >((whole.take(b.index + b.num_bytes_consumed), b.data.len())));
        assert(tail[0] == b.data[0]);
        assert(tail.skip(b.data.len() as int) =~= rest);
    }
}

/// A prefix that covers the whole source, followed by the sentinel, decodes to it.
pub proof fn lemma_covers_end(buffer: Seq<u8>, whole: Seq<u8>)
    requires
        stream_covers(buffer, whole),
    ensures
        decode_stream(buffer.push(SENTINEL)) == Ok::<
            Seq<u8>,
            (crate::errors::DecompressionErrorKind, Seq<u8>),
        >(whole),
{
    let end = seq![SENTINEL];
    assert(buffer.push(SENTINEL) =~= buffer + end);
    assert(decode_from(buffer + end, Seq::empty()) == decode_from(end, whole));
}

/// A run of the first byte has that byte throughout.
proof fn lemma_byte_run(s: Seq<u8>, k: nat)
    requires
        k <= s.len(),
        forall|j: int| 0 <= j < k ==> #[trigger] s[j] == s[0],
    ensures
        k <= byte_run_from(s, k) <= s.len(),
        forall|j: int| 0 <= j < byte_run_from(s, k) ==> #[trigger] s[j] == s[0],
    decreases s.len() - k,
{
    if k < s.len() && s[k as int] == s[0] {
        lemma_byte_run(s, k + 1);
    }
}

/// A run of the first two bytes has them in turn throughout.
proof fn lemma_word_run(s: Seq<u8>, k: nat)
    requires
        k <= s.len(),
        forall|j: int| 0 <= j < k ==> #[trigger] s[j] == s[j % 2],
    ensures
        k <= word_run_from(s, k) <= s.len(),
        forall|j: int| 0 <= j < word_run_from(s, k) ==> #[trigger] s[j] == s[j % 2],
    decreases s.len() - k,
{
    if k < s.len() && s[k as int] == s[(k % 2) as int] {
        lemma_word_run(s, k + 1);
    }
}

/// An increasing run counts up by one throughout.
proof fn lemma_increasing_run(s: Seq<u8>, k: nat)
    requires
        k <= s.len(),
        forall|j: int| 0 <= j < k ==> #[trigger] s[j] == s[0] + j,
    ensures
        k <= increasing_run_from(s, k) <= s.len(),
        forall|j: int| 0 <= j < increasing_run_from(s, k) ==> #[trigger] s[j] == s[0] + j,
    decreases s.len() - k,
{
    if k < s.len() && s[k as int] == s[0] + k {
        lemma_increasing_run(s, k + 1);
    }
}

/// A copy from an earlier position whose bytes agree (flipped when `flip` holds)
/// with the bytes ahead rebuilds those bytes.
proof fn lemma_back_copy_rebuilds(whole: Seq<u8>, index: int, p: int, n: nat, flip: bool)
    requires
        0 <= p < index,
        index + n <= whole.len(),
        forall|j: int| 0 <= j < n ==> flip_spec(#[trigger] whole[p + j], flip) == whole[index + j],
    ensures
        back_copy(whole.take(index), p, n, flip) == whole.take(index + n),
    decreases n,
{
    if n == 0 {
        assert(whole.take(index) =~= whole.take(index + n));
    } else {
        lemma_back_copy_rebuilds(whole, index, p, (n - 1) as nat, flip);
        let prev = whole.take(index + n - 1);
        assert(prev[p + n - 1] == whole[p + n - 1]);
        assert(flip_spec(whole[p + (n - 1)], flip) == whole[index + (n - 1)]);
        assert(prev.push(whole[index + n - 1]) =~= whole.take(index + n));
    }
}

/// Decoding a block's header and then its payload: the header gives back the
/// selector and the count, and the rest is the payload's expansion.
proof fn lemma_decode_header(
    cmd: u8,
    extended_only: bool,
    n: nat,
    payload: Seq<u8>,
    rest: Seq<u8>,
    out: Seq<u8>,
)
    requires
        cmd < 8,
        cmd == 7 ==> extended_only,
        1 <= n <= 1024,
        header_spec(cmd, (n - 1) as nat, extended_only)[0] != SENTINEL,
    ensures
        ({
            let h = header_spec(cmd, (n - 1) as nat, extended_only);
            decode_command((h + payload) + rest, out) == match expand_spec(cmd, payload + rest, out, n) {
                Ok((o, used)) => Ok((o, h.len() + used)),
                Err(k) => Err(k),
            }
        }),
{
    let h = header_spec(cmd, (n - 1) as nat, extended_only);
    lemma_header_round_trip(cmd, (n - 1) as nat, extended_only);
    let enc = (h + payload) + rest;
    assert(enc[0] == h[0]);
    if h.len() == 2 {
        assert(enc[1] == h[1]);
    }
    assert(enc.skip(h.len() as int) =~= payload + rest);
}

/// The payload, whatever follows it, expands after the source before `index`
/// to the source up to `index + n`, reading exactly its own bytes.
pub open spec fn payload_rebuilds(cmd: u8, payload: Seq<u8>, whole: Seq<u8>, index: int, n: nat) -> bool {
    forall|rest: Seq<u8>| #[trigger]
        expand_spec(cmd, payload + rest, whole.take(index), n) == Ok::<
            (Seq<u8>, nat),
            crate::errors::DecompressionErrorKind,
        >((whole.take(index + n), payload.len()))
}

proof fn lemma_direct_copy_rebuilds(src: Seq<u8>, whole: Seq<u8>, index: int)
    requires
        0 <= index,
        index + src.len() <= whole.len(),
        src == whole.subrange(index, index + src.len()),
    ensures
        payload_rebuilds(0, src, whole, index, src.len()),
{
    assert forall|rest: Seq<u8>| #[trigger]
        expand_spec(0, src + rest, whole.take(index), src.len()) == Ok::<
            (Seq<u8>, nat),
            crate::errors::DecompressionErrorKind,
        >((whole.take(index + src.len()), src.len())) by {
        assert((src + rest).take(src.len() as int) =~= src);
        assert(whole.take(index) + src =~= whole.take(index + src.len()));
    }
}

proof fn lemma_byte_fill_rebuilds(src: Seq<u8>, whole: Seq<u8>, index: int)
    requires
        0 <= index,
        src.len() >= 1,
        index + src.len() <= whole.len(),
        src == whole.subrange(index, index + src.len()),
    ensures
        payload_rebuilds(1, seq![src[0]], whole, index, byte_run_from(src, 0)),
{
    lemma_byte_run(src, 0);
    let n = byte_run_from(src, 0);
    let payload = seq![src[0]];
    assert forall|rest: Seq<u8>| #[trigger]
        expand_spec(1, payload + rest, whole.take(index), n) == Ok::<
            (Seq<u8>, nat),
            crate::errors::DecompressionErrorKind,
        >((whole.take(index + n), 1)) by {
        let p = payload + rest;
        assert(p[0] == src[0]);
        let lhs = whole.take(index) + Seq::new(n, |k: int| p[0]);
        assert forall|j: int| 0 <= j < lhs.len() implies lhs[j] == whole.take(index + n)[j] by {
            if j >= index {
                assert(src[j - index] == whole[j]);
            }
        }
        assert(lhs =~= whole.take(index + n));
    }
}

proof fn lemma_word_fill_rebuilds(src: Seq<u8>, whole: Seq<u8>, index: int)
    requires
        0 <= index,
        src.len() >= 2,
        index + src.len() <= whole.len(),
        src == whole.subrange(index, index + src.len()),
    ensures
        payload_rebuilds(2, seq![src[0], src[1]], whole, index, word_run_from(src, 0)),
{
    lemma_word_run(src, 0);
    let n = word_run_from(src, 0);
    let payload = seq![src[0], src[1]];
    assert forall|rest: Seq<u8>| #[trigger]
        expand_spec(2, payload + rest, whole.take(index), n) == Ok::<
            (Seq<u8>, nat),
            crate::errors::DecompressionErrorKind,
        >((whole.take(index + n), 2)) by {
        let p = payload + rest;
        assert(p[0] == src[0] && p[1] == src[1]);
        let lhs = whole.take(index) + Seq::new(n, |k: int| if k % 2 == 0 { p[0] } else { p[1] });
        assert forall|j: int| 0 <= j < lhs.len() implies lhs[j] == whole.take(index + n)[j] by {
            if j >= index {
                assert(src[j - index] == whole[j]);
                assert(src[j - index] == src[(j - index) % 2]);
            }
        }
        assert(lhs =~= whole.take(index + n));
    }
}

proof fn lemma_increasing_fill_rebuilds(src: Seq<u8>, whole: Seq<u8>, index: int)
    requires
        0 <= index,
        src.len() >= 1,
        index + src.len() <= whole.len(),
        src == whole.subrange(index, index + src.len()),
    ensures
        payload_rebuilds(3, seq![src[0]], whole, index, increasing_run_from(src, 0)),
{
    lemma_increasing_run(src, 0);
    let n = increasing_run_from(src, 0);
    if n > 0 {
        assert(src[n - 1] == src[0] + (n - 1));
    }
    let payload = seq![src[0]];
    assert forall|rest: Seq<u8>| #[trigger]
        expand_spec(3, payload + rest, whole.take(index), n) == Ok::<
            (Seq<u8>, nat),
            crate::errors::DecompressionErrorKind,
        >((whole.take(index + n), 1)) by {
        let p = payload + rest;
        assert(p[0] == src[0]);
        let lhs = whole.take(index) + Seq::new(n, |k: int| (p[0] + k) as u8);
        assert forall|j: int| 0 <= j < lhs.len() implies lhs[j] == whole.take(index + n)[j] by {
            if j >= index {
                assert(src[j - index] == whole[j]);
                assert(src[j - index] == src[0] + (j - index));
            }
        }
        assert(lhs =~= whole.take(index + n));
    }
}

/// The match that the history finds for the bytes at `index` lies before
/// `index`, and the source there agrees with them for the match's length.
proof fn lemma_found_match(
    src: Seq<u8>,
    index: int,
    history: HistoryView,
    whole: Seq<u8>,
    lower_bound: usize,
    flip: bool,
)
    requires
        history.wf(),
        history.source == whole,
        history.positions_below(index),
        0 <= index,
        index + src.len() <= whole.len(),
        src == whole.subrange(index, index + src.len()),
    ensures
        history.longest_repeat_spec(src, lower_bound, flip) matches Some((p, size)) ==> {
            &&& lower_bound <= p < index
            &&& 1 <= size <= src.len()
            &&& forall|j: int| 0 <= j < size ==> flip_spec(#[trigger] whole[p + j], flip) == whole[index + j]
        },
{
    history.lemma_repeat_found(src, lower_bound, flip);
    if let Some((p, size)) = history.longest_repeat_spec(src, lower_bound, flip) {
        let a = flip_spec(src[0], flip);
        let b = flip_spec(src[1], flip);
        let j = choose|j: int|
            0 <= j < history.positions(a, b).len() && history.positions(a, b)[j] == p as usize;
        assert(0 <= pair_key(a, b) < 65536) by (nonlinear_arith)
            requires
                a < 256,
                b < 256,
        ;
        assert(history.buckets[pair_key(a, b)][j] < index);
        lemma_match_run(whole, p, src, 0, flip);
        assert forall|j: int| 0 <= j < size implies flip_spec(#[trigger] whole[p + j], flip)
            == whole[index + j] by {
            assert(src[j] == whole[index + j]);
        }
    }
}

proof fn lemma_repeat_rebuilds(whole: Seq<u8>, index: int, p: int, n: nat, flip: bool)
    requires
        0 <= p < index,
        p <= MAX_POSITION,
        index + n <= whole.len(),
        forall|j: int| 0 <= j < n ==> flip_spec(#[trigger] whole[p + j], flip) == whole[index + j],
    ensures
        payload_rebuilds(if flip { 5 } else { 4 }, le_bytes(p), whole, index, n),
{
    lemma_back_copy_rebuilds(whole, index, p, n, flip);
    let cmd: u8 = if flip { 5 } else { 4 };
    assert forall|rest: Seq<u8>| #[trigger]
        expand_spec(cmd, le_bytes(p) + rest, whole.take(index), n) == Ok::<
            (Seq<u8>, nat),
            crate::errors::DecompressionErrorKind,
        >((whole.take(index + n), 2)) by {
        let q = le_bytes(p) + rest;
        assert(q[0] == le_bytes(p)[0] && q[1] == le_bytes(p)[1]);
        assert(position_spec(q, false) == p);
    }
}

proof fn lemma_negative_rebuilds(whole: Seq<u8>, index: int, p: int, n: nat, flip: bool)
    requires
        0 <= p < index,
        index - p <= MAX_DISTANCE,
        index + n <= whole.len(),
        forall|j: int| 0 <= j < n ==> flip_spec(#[trigger] whole[p + j], flip) == whole[index + j],
    ensures
        payload_rebuilds(if flip { 7 } else { 6 }, seq![(index - p) as u8], whole, index, n),
{
    lemma_back_copy_rebuilds(whole, index, p, n, flip);
    let payload = seq![(index - p) as u8];
    let cmd: u8 = if flip { 7 } else { 6 };
    assert forall|rest: Seq<u8>| #[trigger]
        expand_spec(cmd, payload + rest, whole.take(index), n)
            == Ok::<(Seq<u8>, nat), crate::errors::DecompressionErrorKind>(
            (whole.take(index + n), 1),
        ) by {
        let q = payload + rest;
        assert(q[0] == (index - p) as u8);
    }
}

/// A block made of a header and a payload that rebuilds the source decodes.
proof fn lemma_header_payload_decodes(b: BlockView, cmd: u8, extended_only: bool, payload: Seq<u8>, whole: Seq<u8>)
    requires
        cmd < 8,
        cmd == 7 ==> extended_only,
        0 <= b.index,
        1 <= b.num_bytes_consumed <= 1024,
        b.index + b.num_bytes_consumed <= whole.len(),
        b.data == header_spec(cmd, (b.num_bytes_consumed - 1) as nat, extended_only) + payload,
        b.data[0] != SENTINEL,
        payload_rebuilds(cmd, payload, whole, b.index, b.num_bytes_consumed as nat),
    ensures
        block_decodes(b, whole),
{
    let n = b.num_bytes_consumed as nat;
    let hdr = header_spec(cmd, (n - 1) as nat, extended_only);
    assert(hdr[0] == b.data[0]);
    assert forall|rest: Seq<u8>| #[trigger]
        decode_command(b.data + rest, whole.take(b.index)) == Ok::<
            (Seq<u8>, nat),
            crate::errors::DecompressionErrorKind,
        >((whole.take(b.index + n), b.data.len())) by {
        lemma_decode_header(cmd, extended_only, n, payload, rest, whole.take(b.index));
        assert(expand_spec(cmd, payload + rest, whole.take(b.index), n) == Ok::<
            (Seq<u8>, nat),
            crate::errors::DecompressionErrorKind,
        >((whole.take(b.index + n), payload.len())));
    }
}

/// What a command proposes at `index` for the source ahead of it decodes back,
/// provided every recorded position lies before `index`.
pub proof fn lemma_proposal_decodes(
    cmd: Command,
    src: Seq<u8>,
    index: int,
    history: HistoryView,
    whole: Seq<u8>,
)
    requires
        cmd.wf(),
        history.wf(),
        history.source == whole,
        cmd.callback.reads_history() ==> history.positions_below(index),
        0 <= index <= usize::MAX,
        index + src.len() <= whole.len(),
        src == whole.subrange(index, index + src.len()),
    ensures
        cmd.proposal_spec(src, index, history) matches Some(b) ==> {
            &&& block_decodes(b, whole)
            &&& b.index == index
            &&& b.num_bytes_consumed <= src.len()
        },
{
    let cfg = cmd.config;
    if let Some(b) = cmd.proposal_spec(src, index, history) {
        let n = b.num_bytes_consumed as nat;
        let ext = cfg.is_extended_only;
        match cmd.callback {
            CommandKind::DirectCopy => {
                lemma_direct_copy_rebuilds(src, whole, index);
                lemma_header_payload_decodes(b, 0, ext, src, whole);
            },
            CommandKind::ByteFill => {
                lemma_byte_run(src, 0);
                lemma_byte_fill_rebuilds(src, whole, index);
                lemma_header_payload_decodes(b, 1, ext, seq![src[0]], whole);
            },
            CommandKind::WordFill => {
                lemma_word_run(src, 0);
                lemma_word_fill_rebuilds(src, whole, index);
                lemma_header_payload_decodes(b, 2, ext, seq![src[0], src[1]], whole);
            },
            CommandKind::IncreasingFill => {
                lemma_increasing_run(src, 0);
                lemma_increasing_fill_rebuilds(src, whole, index);
                lemma_header_payload_decodes(b, 3, ext, seq![src[0]], whole);
            },
            CommandKind::RepeatLe => {
                lemma_found_match(src, index, history, whole, 0, false);
                let (p, size) = history.longest_repeat_spec(src, 0, false)->Some_0;
                lemma_repeat_rebuilds(whole, index, p, n, false);
                lemma_header_payload_decodes(b, 4, ext, le_bytes(p), whole);
            },
            CommandKind::XorRepeatLe => {
                lemma_found_match(src, index, history, whole, 0, true);
                let (p, size) = history.longest_repeat_spec(src, 0, true)->Some_0;
                lemma_repeat_rebuilds(whole, index, p, n, true);
                lemma_header_payload_decodes(b, 5, ext, le_bytes(p), whole);
            },
            CommandKind::NegativeRepeat => {
                let lb = nearby_bound(index) as usize;
                lemma_found_match(src, index, history, whole, lb, false);
                let (p, size) = history.longest_repeat_spec(src, lb, false)->Some_0;
                lemma_negative_rebuilds(whole, index, p, n, false);
                lemma_header_payload_decodes(b, 6, ext, seq![(index - p) as u8], whole);
            },
            CommandKind::NegativeXorRepeat => {
                let lb = nearby_bound(index) as usize;
                lemma_found_match(src, index, history, whole, lb, true);
                let (p, size) = history.longest_repeat_spec(src, lb, true)->Some_0;
                lemma_negative_rebuilds(whole, index, p, n, true);
                lemma_header_payload_decodes(b, 7, ext, seq![(index - p) as u8], whole);
            },
        }
    }
}

} // verus!
