//! An index of the positions of the source at which each pair of bytes occurs,
//! for finding earlier copies of the bytes ahead.
use vstd::prelude::*;

use crate::format::flip_spec;

verus! {

/// Number of distinct byte pairs, one bucket each.
pub const NUM_PAIRS: usize = 65536;

/// A match found in the source: where it starts and how long it is.
pub struct RepeatInformation {
    pub start_index: usize,
    pub size: usize,
}

impl RepeatInformation {
    fn new(start_index: usize, size: usize) -> (r: Self)
        ensures
            r.start_index == start_index,
            r.size == size,
    {
        RepeatInformation { start_index, size }
    }
}

/// The value of an optional match: its start and length.
pub open spec fn repeat_view(r: Option<RepeatInformation>) -> Option<(int, nat)> {
    match r {
        Some(info) => Some((info.start_index as int, info.size as nat)),
        None => None,
    }
}

/// The bucket of the pair `(a, b)`.
pub open spec fn pair_key(a: u8, b: u8) -> int {
    a * 256 + b
}

/// How far, counting from `k`, the bytes of `whole` from position `p` on (flipped
/// when `flip` holds) agree with the bytes of `src`.
pub open spec fn match_run_from(whole: Seq<u8>, p: int, src: Seq<u8>, k: nat, flip: bool) -> nat
    decreases src.len() - k,
{
    if k < src.len() && p + k < whole.len() && flip_spec(whole[p + k], flip) == src[k as int] {
        match_run_from(whole, p, src, k + 1, flip)
    } else {
        k
    }
}

/// The length of the match of `src` at position `p` of `whole`.
pub open spec fn match_len(whole: Seq<u8>, p: int, src: Seq<u8>, flip: bool) -> nat {
    match_run_from(whole, p, src, 0, flip)
}

/// The longest match among the candidate positions `ps`, the first one on a tie;
/// `(0, 0)` when there is none.
pub open spec fn best_match(whole: Seq<u8>, src: Seq<u8>, ps: Seq<usize>, flip: bool) -> (int, nat)
    decreases ps.len(),
{
    if ps.len() == 0 {
        (0, 0)
    } else {
        let prev = best_match(whole, src, ps.drop_last(), flip);
        let m = match_len(whole, ps.last() as int, src, flip);
        if m > prev.1 {
            (ps.last() as int, m)
        } else {
            prev
        }
    }
}

/// The positions at or after `lower_bound`, in order.
pub open spec fn at_or_after(ps: Seq<usize>, lower_bound: usize) -> Seq<usize> {
    ps.filter(|p: usize| p >= lower_bound)
}

/// A match in the whole source whose length is positive and every byte of which
/// agrees (flipped when `flip` holds).
pub proof fn lemma_match_run(whole: Seq<u8>, p: int, src: Seq<u8>, k: nat, flip: bool)
    requires
        k <= src.len(),
        0 <= p,
        p + k <= whole.len(),
        forall|j: int| 0 <= j < k ==> flip_spec(#[trigger] whole[p + j], flip) == src[j],
    ensures
        ({
            let r = match_run_from(whole, p, src, k, flip);
            &&& k <= r <= src.len()
            &&& p + r <= whole.len()
            &&& forall|j: int| 0 <= j < r ==> flip_spec(#[trigger] whole[p + j], flip) == src[j]
            &&& (r < src.len() && p + r < whole.len()) ==> flip_spec(whole[p + r], flip) != src[r as int]
        }),
    decreases src.len() - k,
{
    if k < src.len() && p + k < whole.len() && flip_spec(whole[p + k], flip) == src[k as int] {
        lemma_match_run(whole, p, src, k + 1, flip);
    }
}

/// The best match with a positive length is at one of the candidates, and its
/// length is that candidate's match length.
pub proof fn lemma_best_match(whole: Seq<u8>, src: Seq<u8>, ps: Seq<usize>, flip: bool)
    ensures
        ({
            let (bi, bs) = best_match(whole, src, ps, flip);
            bs > 0 ==> ps.contains(bi as usize) && 0 <= bi <= usize::MAX && bs == match_len(
                whole,
                bi,
                src,
                flip,
            )
        }),
    decreases ps.len(),
{
    if ps.len() > 0 {
        lemma_best_match(whole, src, ps.drop_last(), flip);
        let (bi, bs) = best_match(whole, src, ps.drop_last(), flip);
        if bs > 0 {
            assert(ps.drop_last().contains(bi as usize));
            let j = choose|j: int| 0 <= j < ps.drop_last().len() && ps.drop_last()[j] == bi as usize;
            assert(ps[j] == bi as usize);
        }
        assert(ps[ps.len() - 1] == ps.last());
    }
}

/// `b` flipped by XOR with `0xFF` when `flip` holds.
fn flip_byte(b: u8, flip: bool) -> (r: u8)
    ensures
        r == flip_spec(b, flip),
{
    if flip {
        assert(b ^ 0xFF == 255 - b) by (bit_vector);
        b ^ 0xFF
    } else {
        b
    }
}

/// The bucket of the pair `(a, b)`.
fn pair_index(a: u8, b: u8) -> (r: usize)
    ensures
        r == pair_key(a, b),
        r < NUM_PAIRS,
{
    let high = a as usize;
    let low = b as usize;
    assert((high << 8) | low == high * 256 + low) by (bit_vector)
        requires
            high < 256,
            low < 256,
    ;
    (high << 8) | low
}

/// Each position at or after the bound is one of the positions, and at or after it.
pub proof fn lemma_at_or_after(ps: Seq<usize>, lower_bound: usize)
    ensures
        forall|i: int|
            0 <= i < at_or_after(ps, lower_bound).len() ==> ps.contains(
                #[trigger] at_or_after(ps, lower_bound)[i],
            ) && at_or_after(ps, lower_bound)[i] >= lower_bound,
    decreases ps.len(),
{
    reveal(Seq::filter);
    if ps.len() > 0 {
        lemma_at_or_after(ps.drop_last(), lower_bound);
        let out = at_or_after(ps, lower_bound);
        let sub = at_or_after(ps.drop_last(), lower_bound);
        assert forall|i: int| 0 <= i < out.len() implies ps.contains(out[i]) && out[i] >= lower_bound by {
            if i < sub.len() {
                assert(out[i] == sub[i]);
                let j = choose|j: int| 0 <= j < ps.drop_last().len() && ps.drop_last()[j] == sub[i];
                assert(ps[j] == sub[i]);
            } else {
                assert(out[i] == ps.last());
                assert(ps[ps.len() - 1] == ps.last());
            }
        }
    }
}

/// The value of a history: the source, and for each pair of bytes (by its
/// bucket number) the positions recorded for it, in the order they were recorded.
pub struct HistoryView {
    pub source: Seq<u8>,
    pub buckets: Seq<Seq<usize>>,
}

impl HistoryView {
    /// One bucket for each pair of bytes.
    pub open spec fn wf(&self) -> bool {
        self.buckets.len() == NUM_PAIRS
    }

    /// The positions recorded for the pair `(a, b)`, in the order they were recorded.
    pub open spec fn positions(&self, a: u8, b: u8) -> Seq<usize> {
        self.buckets[pair_key(a, b)]
    }

    /// Every recorded position lies before `bound`.
    pub open spec fn positions_below(&self, bound: int) -> bool {
        forall|key: int, j: int|
            0 <= key < self.buckets.len() && 0 <= j < self.buckets[key].len()
                ==> #[trigger] self.buckets[key][j] < bound
    }

    /// The longest match of `src` in the source at a position at or after
    /// `lower_bound` recorded for the first two bytes of `src` (flipped when `flip`
    /// holds), the first one on a tie.
    pub open spec fn longest_repeat_spec(&self, src: Seq<u8>, lower_bound: usize, flip: bool) -> Option<
        (int, nat),
    > {
        if src.len() < 2 {
            None
        } else {
            let ps = at_or_after(
                self.positions(flip_spec(src[0], flip), flip_spec(src[1], flip)),
                lower_bound,
            );
            let (bi, bs) = best_match(self.source, src, ps, flip);
            if bs == 0 {
                None
            } else {
                Some((bi, bs))
            }
        }
    }

    /// A match that the history finds lies at a recorded position at or after
    /// the lower bound, and has the length of the match there.
    pub proof fn lemma_repeat_found(&self, src: Seq<u8>, lower_bound: usize, flip: bool)
        requires
            self.wf(),
        ensures
            self.longest_repeat_spec(src, lower_bound, flip) matches Some((p, size)) ==> {
                let a = flip_spec(src[0], flip);
                let b = flip_spec(src[1], flip);
                &&& 0 <= p <= usize::MAX
                &&& self.positions(a, b).contains(p as usize)
                &&& lower_bound <= p
                &&& size > 0
                &&& size == match_len(self.source, p, src, flip)
            },
    {
        if src.len() >= 2 {
            let a = flip_spec(src[0], flip);
            let b = flip_spec(src[1], flip);
            let ps = at_or_after(self.positions(a, b), lower_bound);
            lemma_best_match(self.source, src, ps, flip);
            lemma_at_or_after(self.positions(a, b), lower_bound);
            let (p, size) = best_match(self.source, src, ps, flip);
            if size > 0 {
                let j = choose|j: int| 0 <= j < ps.len() && ps[j] == p as usize;
                assert(ps[j] >= lower_bound);
            }
        }
    }
}

/// The positions before `n` at which a pair of bytes with bucket `key` starts
/// in `source`, in increasing order.
pub open spec fn recorded_positions(source: Seq<u8>, key: int, n: int) -> Seq<usize>
    decreases n,
{
    if n <= 0 {
        Seq::empty()
    } else {
        let prev = recorded_positions(source, key, n - 1);
        let p = n - 1;
        if p + 1 < source.len() && pair_key(source[p], source[p + 1]) == key {
            prev.push(p as usize)
        } else {
            prev
        }
    }
}

/// The history of `source` once the pairs that start before `n` are recorded.
pub open spec fn history_before(source: Seq<u8>, n: int) -> HistoryView {
    HistoryView {
        source,
        buckets: Seq::new(NUM_PAIRS as nat, |key: int| recorded_positions(source, key, n)),
    }
}

/// Every position recorded before `n` lies before `n`.
pub proof fn lemma_recorded_below(source: Seq<u8>, key: int, n: int)
    requires
        source.len() <= usize::MAX,
    ensures
        forall|j: int|
            0 <= j < recorded_positions(source, key, n).len() ==> #[trigger] recorded_positions(
                source,
                key,
                n,
            )[j] < n,
    decreases n,
{
    if n > 0 {
        lemma_recorded_below(source, key, n - 1);
        let prev = recorded_positions(source, key, n - 1);
        let p = n - 1;
        if p + 1 < source.len() && pair_key(source[p], source[p + 1]) == key {
            assert(prev.push(p as usize)[prev.len() as int] == p);
        }
    }
}

/// The history before `n` holds only positions before `n`.
pub proof fn lemma_history_before_below(source: Seq<u8>, n: int)
    requires
        source.len() <= usize::MAX,
    ensures
        history_before(source, n).wf(),
        history_before(source, n).positions_below(n),
{
    let h = history_before(source, n);
    assert forall|key: int, j: int| 0 <= key < h.buckets.len() && 0 <= j < h.buckets[key].len()
        implies #[trigger] h.buckets[key][j] < n by {
        lemma_recorded_below(source, key, n);
    }
}

/// Recording the pair that starts at `n` extends the history before `n` to the
/// history before `n + 1`.
pub proof fn lemma_history_next(source: Seq<u8>, n: int)
    requires
        0 <= n,
        n + 1 < source.len(),
    ensures
        history_before(source, n + 1).buckets == history_before(source, n).buckets.update(
            pair_key(source[n], source[n + 1]),
            history_before(source, n).buckets[pair_key(source[n], source[n + 1])].push(n as usize),
        ),
{
    let key = pair_key(source[n], source[n + 1]);
    assert(0 <= key < NUM_PAIRS) by (nonlinear_arith)
        requires
            key == source[n] * 256 + source[n + 1],
            source[n] < 256,
            source[n + 1] < 256,
    ;
    assert(history_before(source, n + 1).buckets =~= history_before(source, n).buckets.update(
        key,
        history_before(source, n).buckets[key].push(n as usize),
    ));
}

/// For each pair of bytes, the positions of the source at which it occurs.
pub struct HistoryTable<'a> {
    pub source: &'a [u8],
    pub buckets: Vec<Vec<usize>>,
}

impl<'a> View for HistoryTable<'a> {
    type V = HistoryView;

    open spec fn view(&self) -> HistoryView {
        HistoryView { source: self.source@, buckets: self.buckets@.map_values(|b: Vec<usize>| b@) }
    }
}

impl<'a> HistoryTable<'a> {
    /// One bucket for each pair of bytes.
    pub open spec fn wf(&self) -> bool {
        self.buckets@.len() == NUM_PAIRS
    }

    pub fn new(source: &'a [u8]) -> (r: HistoryTable<'a>)
        ensures
            r.wf(),
            r@ == (HistoryView { source: source@, buckets: Seq::new(NUM_PAIRS as nat, |key: int| Seq::<usize>::empty()) }),
    {
        let mut buckets: Vec<Vec<usize>> = Vec::new();
        while buckets.len() < NUM_PAIRS
            invariant
                buckets@.len() <= NUM_PAIRS,
                forall|key: int| 0 <= key < buckets@.len() ==> (#[trigger] buckets@[key])@.len() == 0,
            decreases NUM_PAIRS - buckets@.len(),
        {
            buckets.push(Vec::new());
        }
        let r = HistoryTable { source, buckets };
        assert(r@.buckets =~~= Seq::new(NUM_PAIRS as nat, |key: int| Seq::<usize>::empty()));
        r
    }

    /// Records that the pair `(first, second)` occurs at `index`.
    pub fn insert(&mut self, first: u8, second: u8, index: usize)
        requires
            old(self).wf(),
        ensures
            final(self).wf(),
            final(self)@.source == old(self)@.source,
            final(self)@.buckets == old(self)@.buckets.update(
                pair_key(first, second),
                old(self)@.buckets[pair_key(first, second)].push(index),
            ),
    {
        let key = pair_index(first, second);
        self.buckets[key].push(index);
        assert(self@.buckets =~~= old(self)@.buckets.update(
            pair_key(first, second),
            old(self)@.buckets[pair_key(first, second)].push(index),
        ));
    }

    /// The longest match of `source` (which starts ahead of every recorded
    /// position) in the whole source, among the recorded positions at or after
    /// `lower_bound` of its first two bytes; the first such on a tie.
    pub fn find_longest_repeat(&self, source: &[u8], lower_bound: usize) -> (r: Option<RepeatInformation>)
        requires
            self.wf(),
        ensures
            repeat_view(r) == self@.longest_repeat_spec(source@, lower_bound, false),
    {
        self.longest_repeat(source, lower_bound, false)
    }

    /// As [`Self::find_longest_repeat`], with the bytes of the whole source flipped
    /// by XOR with `0xFF` before they are compared.
    pub fn find_longest_repeat_xor(&self, source: &[u8], lower_bound: usize) -> (r: Option<
        RepeatInformation,
    >)
        requires
            self.wf(),
        ensures
            repeat_view(r) == self@.longest_repeat_spec(source@, lower_bound, true),
    {
        self.longest_repeat(source, lower_bound, true)
    }

    fn longest_repeat(&self, source: &[u8], lower_bound: usize, flip: bool) -> (r: Option<
        RepeatInformation,
    >)
        requires
            self.wf(),
        ensures
            repeat_view(r) == self@.longest_repeat_spec(source@, lower_bound, flip),
    {
        if source.len() < 2 {
            return None;
        }
        let first_byte = flip_byte(source[0], flip);
        let second_byte = flip_byte(source[1], flip);
        let ghost ps = at_or_after(self@.positions(first_byte, second_byte), lower_bound);
        let indices = match self.get_indices(first_byte, second_byte, lower_bound) {
            Some(indices) => indices,
            None => {
                assert(ps.len() == 0);
                assert(best_match(self@.source, source@, ps, flip) == (0int, 0nat));
                return None;
            },
        };
        let mut best_index: usize = 0;
        let mut best_size: usize = 0;
        let mut t: usize = 0;
        assert(indices@.take(0) =~= Seq::<usize>::empty());
        while t < indices.len()
            invariant
                self.wf(),
                t <= indices@.len(),
                indices@ == ps,
                (best_index as int, best_size as nat) == best_match(
                    self.source@,
                    source@,
                    indices@.take(t as int),
                    flip,
                ),
            decreases indices@.len() - t,
        {
            let x = indices[t];
            let num_same = self.match_length(source, x, flip);
            assert(indices@.take(t + 1).drop_last() =~= indices@.take(t as int));
            if num_same > best_size {
                best_index = x;
                best_size = num_same;
            }
            t += 1;
        }
        assert(indices@.take(t as int) =~= indices@);
        if best_size == 0 {
            None
        } else {
            Some(RepeatInformation::new(best_index, best_size))
        }
    }

    /// How far the source from `start` on (flipped when `flip` holds) agrees with `source`.
    fn match_length(&self, source: &[u8], start: usize, flip: bool) -> (r: usize)
        ensures
            r == match_len(self.source@, start as int, source@, flip),
    {
        let mut iter_index = start;
        let mut compare_index: usize = 0;
        while compare_index < source.len() && iter_index < self.source.len() && flip_byte(
            self.source[iter_index],
            flip,
        ) == source[compare_index]
            invariant
                iter_index == start + compare_index,
                compare_index <= source@.len(),
                match_run_from(self.source@, start as int, source@, compare_index as nat, flip)
                    == match_len(self.source@, start as int, source@, flip),
            decreases source@.len() - compare_index,
        {
            iter_index += 1;
            compare_index += 1;
        }
        compare_index
    }

    /// The positions recorded for `(first, second)` at or after `lower_bound`; none
    /// when the pair was never recorded.
    fn get_indices(&self, first: u8, second: u8, lower_bound: usize) -> (r: Option<Vec<usize>>)
        requires
            self.wf(),
        ensures
            self@.positions(first, second).len() == 0 ==> r.is_none(),
            self@.positions(first, second).len() > 0 ==> (r matches Some(v) && v@ == at_or_after(
                self@.positions(first, second),
                lower_bound,
            )),
    {
        let indices = &self.buckets[pair_index(first, second)];
        if indices.len() == 0 {
            return None;
        }
        let ghost pred = |p: usize| p >= lower_bound;
        let mut filtered: Vec<usize> = Vec::new();
        let mut t: usize = 0;
        assert(indices@.take(0) =~= Seq::<usize>::empty());
        while t < indices.len()
            invariant
                t <= indices@.len(),
                pred == (|p: usize| p >= lower_bound),
                filtered@ == indices@.take(t as int).filter(pred),
            decreases indices@.len() - t,
        {
            let x = indices[t];
            if x >= lower_bound {
                filtered.push(x);
            }
            proof {
                let next = indices@.take(t + 1);
                assert(next.drop_last() =~= indices@.take(t as int));
                reveal(Seq::filter);
            }
            t += 1;
        }
        assert(indices@.take(t as int) =~= indices@);
        Some(filtered)
    }
}

} // verus!
