//! Multi-sequence embedding extraction: grouping independent sequences into
//! batches, and deciding where each sequence's vector is read from.
//!
//! The extractor fills its batch with as many of the next sequences as fit.
//! The caller decodes the batch, reads one vector per sequence from the
//! places that [`EmbeddingExtractor::sources`] names, clears the engine's
//! cache, and asks for the next batch.

use vstd::prelude::*;
use crate::batch::{sequence_entries, EntryView, TokenBatch};
use crate::token::LlamaToken;

verus! {

/// How the engine collapses the per-token vectors of a sequence.
#[derive(Clone, Copy, Debug, PartialEq, Eq, Structural)]
pub enum PoolingMode {
    Unspecified,
    /// No pooling: every token keeps its own vector.
    Unpooled,
    Mean,
    Cls,
    Last,
    Rank,
}

/// Where the vector of one sequence is read after a decode.
#[derive(Clone, Copy, Debug, PartialEq, Eq, Structural)]
pub enum EmbeddingSource {
    /// The per-token vector of the batch entry `index`.
    Token { index: usize },
    /// The pooled vector of the sequence `sequence_id`.
    Sequence { sequence_id: i32 },
    /// The sequence has no token, hence no per-token vector.
    Absent,
}

/// Why embedding extraction could not start.
#[derive(Clone, Copy, Debug, PartialEq, Eq, Structural)]
pub enum EmbeddingError {
    /// Sequence `index` has `len` tokens, more than the `limit` that the
    /// context and the batch allow. Nothing is truncated.
    SequenceExceedsContext { index: usize, len: usize, limit: usize },
}

/// How two vectors of which some may be all zero compare.
#[derive(Clone, Copy, Debug, PartialEq, Eq, Structural)]
pub enum SimilarityRule {
    /// Both vectors are zero: the similarity is one.
    Identical,
    /// Exactly one vector is zero: the similarity is zero.
    Unrelated,
    /// Neither is zero: the similarity is the cosine of their angle.
    Cosine,
}

/// The rule for two vectors, given which of them are all zero.
pub open spec fn spec_similarity_rule(first_is_zero: bool, second_is_zero: bool) -> SimilarityRule {
    if first_is_zero && second_is_zero {
        SimilarityRule::Identical
    } else if first_is_zero || second_is_zero {
        SimilarityRule::Unrelated
    } else {
        SimilarityRule::Cosine
    }
}

/// Chooses how the similarity of two vectors is computed.
pub fn similarity_rule(first_is_zero: bool, second_is_zero: bool) -> (rule: SimilarityRule)
    ensures
        rule == spec_similarity_rule(first_is_zero, second_is_zero),
{
    if first_is_zero && second_is_zero {
        SimilarityRule::Identical
    } else if first_is_zero || second_is_zero {
        SimilarityRule::Unrelated
    } else {
        SimilarityRule::Cosine
    }
}

/// The rule does not depend on the order of the two vectors.
pub proof fn lemma_similarity_rule_symmetric(first_is_zero: bool, second_is_zero: bool)
    ensures
        spec_similarity_rule(first_is_zero, second_is_zero) == spec_similarity_rule(
            second_is_zero,
            first_is_zero,
        ),
{
}

/// Number of tokens in the sequences `from..to`.
pub open spec fn tokens_in(seqs: Seq<Seq<LlamaToken>>, from: int, to: int) -> int
    decreases to - from,
{
    if to <= from {
        0
    } else {
        tokens_in(seqs, from, to - 1) + seqs[to - 1].len()
    }
}

/// The batch that holds the sequences `from..to`: one after the other, the
/// first on sequence id 0, each at positions counting up from zero, none
/// requesting logits.
pub open spec fn group_entries(seqs: Seq<Seq<LlamaToken>>, from: int, to: int) -> Seq<EntryView>
    decreases to - from,
{
    if to <= from {
        Seq::empty()
    } else {
        group_entries(seqs, from, to - 1) + sequence_entries(
            seqs[to - 1],
            (to - 1 - from) as i32,
            false,
        )
    }
}

/// Where the group that starts at `from` and has reached `at` ends: it
/// takes sequences while the next one still fits into `n_batch` tokens and
/// its sequence id fits the id type.
pub open spec fn group_end(seqs: Seq<Seq<LlamaToken>>, from: int, at: int, n_batch: int) -> int
    decreases seqs.len() - at,
{
    if at >= seqs.len() || tokens_in(seqs, from, at) + seqs[at].len() > n_batch || at - from
        >= i32::MAX {
        at
    } else {
        group_end(seqs, from, at + 1, n_batch)
    }
}

/// The most tokens one sequence may have: what both the context and one
/// batch can hold.
pub open spec fn sequence_limit(n_ctx: usize, n_batch: usize) -> usize {
    if n_ctx < n_batch {
        n_ctx
    } else {
        n_batch
    }
}

/// The refusal of sequence `index`, which has more than `limit` tokens.
pub open spec fn oversized_error(
    seqs: Seq<Seq<LlamaToken>>,
    limit: usize,
    index: int,
) -> EmbeddingError {
    EmbeddingError::SequenceExceedsContext {
        index: index as usize,
        len: seqs[index].len() as usize,
        limit,
    }
}

/// The token sequences held by `sequences`.
pub open spec fn token_views(sequences: Seq<Vec<LlamaToken>>) -> Seq<Seq<LlamaToken>> {
    sequences.map_values(|s: Vec<LlamaToken>| s@)
}

/// Whether `index` is the first sequence with more than `limit` tokens.
pub open spec fn is_first_oversized(seqs: Seq<Seq<LlamaToken>>, limit: int, index: int) -> bool {
    &&& 0 <= index < seqs.len()
    &&& seqs[index].len() > limit
    &&& forall|j: int| 0 <= j < index ==> (#[trigger] seqs[j]).len() <= limit
}

/// Where the vector of the `s`-th sequence of the group starting at `from`
/// is read: without pooling, at the sequence's last token; with pooling, by
/// sequence id.
pub open spec fn source_for(
    pooling: PoolingMode,
    seqs: Seq<Seq<LlamaToken>>,
    from: int,
    s: int,
) -> EmbeddingSource {
    if pooling == PoolingMode::Unpooled {
        if seqs[from + s].len() == 0 {
            EmbeddingSource::Absent
        } else {
            EmbeddingSource::Token { index: (tokens_in(seqs, from, from + s + 1) - 1) as usize }
        }
    } else {
        EmbeddingSource::Sequence { sequence_id: s as i32 }
    }
}

proof fn lemma_tokens_in_monotone(seqs: Seq<Seq<LlamaToken>>, from: int, mid: int, to: int)
    requires
        from <= mid <= to,
    ensures
        0 <= tokens_in(seqs, from, mid) <= tokens_in(seqs, from, to),
    decreases to - from,
{
    if mid < to {
        lemma_tokens_in_monotone(seqs, from, mid, to - 1);
    } else if from < mid {
        lemma_tokens_in_monotone(seqs, from, mid - 1, to - 1);
    }
}

proof fn lemma_group_entries_len(seqs: Seq<Seq<LlamaToken>>, from: int, to: int)
    ensures
        group_entries(seqs, from, to).len() == tokens_in(seqs, from, to),
    decreases to - from,
{
    if to > from {
        lemma_group_entries_len(seqs, from, to - 1);
    }
}

/// No entry of a group's batch requests logits.
pub proof fn lemma_group_requests_no_logits(seqs: Seq<Seq<LlamaToken>>, from: int, to: int)
    ensures
        forall|i: int|
            0 <= i < group_entries(seqs, from, to).len() ==> !(#[trigger] group_entries(
                seqs,
                from,
                to,
            )[i]).wants_logits,
    decreases to - from,
{
    if to > from {
        lemma_group_requests_no_logits(seqs, from, to - 1);
        let shorter = group_entries(seqs, from, to - 1);
        let last = sequence_entries(seqs[to - 1], (to - 1 - from) as i32, false);
        assert forall|i: int| 0 <= i < (shorter + last).len() implies !(#[trigger] (shorter
            + last)[i]).wants_logits by {
            if i >= shorter.len() {
                assert((shorter + last)[i] == last[i - shorter.len()]);
            }
        }
    }
}

/// In the batch of a group, the entry that [`source_for`] names without
/// pooling is the last token of its sequence: it carries the sequence's id
/// and last token, and no later entry carries that id.
pub proof fn lemma_token_source_is_last_of_sequence(
    seqs: Seq<Seq<LlamaToken>>,
    from: int,
    to: int,
    s: int,
)
    requires
        0 <= from <= to <= seqs.len(),
        to - from <= i32::MAX,
        0 <= s < to - from,
        seqs[from + s].len() > 0,
    ensures
        ({
            let batch = group_entries(seqs, from, to);
            let index = tokens_in(seqs, from, from + s + 1) - 1;
            &&& 0 <= index < batch.len()
            &&& batch[index].sequence_ids == seq![s as i32]
            &&& batch[index].token == seqs[from + s].last()
            &&& batch[index].position == (seqs[from + s].len() - 1) as i32
            &&& forall|j: int|
                index < j < batch.len() ==> !(#[trigger] batch[j]).sequence_ids.contains(s as i32)
        }),
    decreases to - from,
{
    let batch = group_entries(seqs, from, to);
    let shorter = group_entries(seqs, from, to - 1);
    let last = sequence_entries(seqs[to - 1], (to - 1 - from) as i32, false);
    let index = tokens_in(seqs, from, from + s + 1) - 1;
    lemma_group_entries_len(seqs, from, to - 1);
    lemma_group_entries_len(seqs, from, to);
    lemma_tokens_in_monotone(seqs, from, from + s, from + s + 1);
    lemma_tokens_in_monotone(seqs, from, from + s + 1, to);
    if from + s == to - 1 {
        assert(batch[index] == last[index - shorter.len()]);
        assert forall|j: int| index < j < batch.len() implies !(#[trigger] batch[j]).sequence_ids.contains(
            s as i32,
        ) by {}
    } else {
        lemma_token_source_is_last_of_sequence(seqs, from, to - 1, s);
        lemma_tokens_in_monotone(seqs, from, from + s + 1, to - 1);
        assert(batch[index] == shorter[index]);
        assert forall|j: int| index < j < batch.len() implies !(#[trigger] batch[j]).sequence_ids.contains(
            s as i32,
        ) by {
            if j < shorter.len() {
                assert(batch[j] == shorter[j]);
            } else {
                assert(batch[j] == last[j - shorter.len()]);
                assert(last[j - shorter.len()].sequence_ids == seq![(to - 1 - from) as i32]);
                assert(seq![(to - 1 - from) as i32][0] == (to - 1 - from) as i32);
            }
        }
    }
}

/// What a group is: it starts where asked and never passes the end of the
/// input; it fits into one batch; it takes at least one sequence while
/// there is input left; and it stops only at the end of the input, before
/// a sequence that would not fit any more, or at the last sequence id.
pub proof fn lemma_group_end(seqs: Seq<Seq<LlamaToken>>, from: int, n_batch: int)
    requires
        0 <= from <= seqs.len(),
        0 <= n_batch,
        forall|i: int| 0 <= i < seqs.len() ==> (#[trigger] seqs[i]).len() <= n_batch,
    ensures
        ({
            let end = group_end(seqs, from, from, n_batch);
            &&& from <= end <= seqs.len()
            &&& end - from <= i32::MAX
            &&& tokens_in(seqs, from, end) <= n_batch
            &&& from < seqs.len() ==> from < end
            &&& end < seqs.len() ==> (tokens_in(seqs, from, end) + seqs[end].len() > n_batch
                || end - from == i32::MAX)
        }),
{
    if from < seqs.len() {
        assert(seqs[from].len() <= n_batch);
        assert(tokens_in(seqs, from, from) == 0);
    } else {
        assert(tokens_in(seqs, from, from) == 0);
    }
    lemma_group_end_from(seqs, from, from, n_batch);
}

proof fn lemma_group_end_from(seqs: Seq<Seq<LlamaToken>>, from: int, at: int, n_batch: int)
    requires
        0 <= from <= at <= seqs.len(),
        at - from <= i32::MAX,
        0 <= tokens_in(seqs, from, at) <= n_batch || at == from,
    ensures
        ({
            let end = group_end(seqs, from, at, n_batch);
            &&& at <= end <= seqs.len()
            &&& end - from <= i32::MAX
            &&& at < end || end == at
            &&& (at < end ==> tokens_in(seqs, from, end) <= n_batch)
            &&& (end == at ==> (at >= seqs.len() || tokens_in(seqs, from, at) + seqs[at].len()
                > n_batch || at - from >= i32::MAX))
            &&& end < seqs.len() ==> (tokens_in(seqs, from, end) + seqs[end].len() > n_batch
                || end - from == i32::MAX)
        }),
    decreases seqs.len() - at,
{
    if at >= seqs.len() || tokens_in(seqs, from, at) + seqs[at].len() > n_batch || at - from
        >= i32::MAX {
    } else {
        lemma_tokens_in_monotone(seqs, from, at, at + 1);
        lemma_group_end_from(seqs, from, at + 1, n_batch);
    }
}

/// Mathematical value of an [`EmbeddingExtractor`].
pub struct ExtractorView {
    /// All input sequences, in submission order.
    pub sequences: Seq<Seq<LlamaToken>>,
    /// Largest number of tokens submitted in one decode.
    pub n_batch: nat,
    /// Index of the first sequence of the group now in the batch.
    pub first: int,
    /// Index of the first sequence not yet submitted.
    pub next: int,
}

/// Groups input sequences into batches and names the source of each vector.
pub struct EmbeddingExtractor {
    sequences: Vec<Vec<LlamaToken>>,
    n_batch: usize,
    first: usize,
    next: usize,
    batch: TokenBatch,
    /// For each sequence of the current group, the number of batch entries
    /// up to and including its last token.
    ends: Vec<usize>,
}

impl View for EmbeddingExtractor {
    type V = ExtractorView;

    closed spec fn view(&self) -> ExtractorView {
        ExtractorView {
            sequences: token_views(self.sequences@),
            n_batch: self.n_batch as nat,
            first: self.first as int,
            next: self.next as int,
        }
    }
}

impl EmbeddingExtractor {
    /// The invariant every extractor satisfies: the batch holds exactly the
    /// current group, and no sequence is too long for a batch.
    pub closed spec fn wf(&self) -> bool {
        &&& self.batch.wf()
        &&& self.batch.spec_capacity() == self.n_batch
        &&& self.batch.spec_max_seqs() == 1
        &&& self.n_batch <= i32::MAX
        &&& self.first <= self.next <= self.sequences@.len()
        &&& self.next - self.first <= i32::MAX
        &&& forall|i: int| 0 <= i < self@.sequences.len() ==> (#[trigger] self@.sequences[i]).len() <= self.n_batch
        &&& self.batch@ == group_entries(self@.sequences, self.first as int, self.next as int)
        &&& self.ends@.len() == self.next - self.first
        &&& forall|s: int|
            0 <= s < self.ends@.len() ==> (#[trigger] self.ends@[s]) == tokens_in(
                self@.sequences,
                self.first as int,
                self.first + s + 1,
            )
    }

    /// The entries now in the batch.
    pub closed spec fn spec_batch(&self) -> Seq<EntryView> {
        self.batch@
    }

    /// Takes the input sequences. Fails when one of them has more tokens
    /// than the context or a batch can hold, naming the first such.
    pub fn new(sequences: Vec<Vec<LlamaToken>>, n_ctx: usize, n_batch: usize) -> (r: Result<
        EmbeddingExtractor,
        EmbeddingError,
    >)
        requires
            n_batch <= i32::MAX,
        ensures
            ({
                let seqs = token_views(sequences@);
                let limit = sequence_limit(n_ctx, n_batch);
                &&& r is Err <==> (exists|i: int|
                    0 <= i < seqs.len() && (#[trigger] seqs[i]).len() > limit)
                &&& r is Err ==> (exists|index: int| #[trigger]
                    is_first_oversized(seqs, limit as int, index) && r->Err_0 == oversized_error(
                        seqs,
                        limit,
                        index,
                    ))
                &&& r is Ok ==> r->Ok_0.wf() && r->Ok_0@ == (ExtractorView {
                    sequences: seqs,
                    n_batch: n_batch as nat,
                    first: 0,
                    next: 0,
                }) && r->Ok_0.spec_batch() == Seq::<EntryView>::empty()
            }),
    {
        let limit = if n_ctx < n_batch {
            n_ctx
        } else {
            n_batch
        };
        let ghost seqs = token_views(sequences@);
        let mut i: usize = 0;
        while i < sequences.len()
            invariant
                i <= sequences@.len(),
                seqs == token_views(sequences@),
                limit == sequence_limit(n_ctx, n_batch),
                forall|j: int| 0 <= j < i ==> (#[trigger] seqs[j]).len() <= limit,
            decreases sequences@.len() - i,
        {
            let len = sequences[i].len();
            assert(seqs[i as int] == sequences@[i as int]@);
            if len > limit {
                assert(is_first_oversized(seqs, limit as int, i as int));
                let error = EmbeddingError::SequenceExceedsContext { index: i, len, limit };
                assert(error == oversized_error(seqs, limit, i as int));
                assert(is_first_oversized(seqs, limit as int, i as int));
                return Err(error);
            }
            i += 1;
        }
        let extractor = EmbeddingExtractor {
            sequences,
            n_batch,
            first: 0,
            next: 0,
            batch: TokenBatch::new(n_batch, 1),
            ends: Vec::new(),
        };
        Ok(extractor)
    }

    /// The batch to hand to the engine.
    pub fn batch(&self) -> (batch: &TokenBatch)
        ensures
            batch@ == self.spec_batch(),
            self.wf() ==> batch.wf(),
    {
        &self.batch
    }

    /// Index of the first sequence of the current group.
    pub fn first(&self) -> (first: usize)
        ensures
            first == self@.first,
    {
        self.first
    }

    /// Number of sequences in the current group.
    pub fn group_len(&self) -> (n: usize)
        requires
            self.wf(),
        ensures
            n == self@.next - self@.first,
    {
        self.next - self.first
    }

    /// Refills the batch with the next group of sequences: as many as fit.
    /// Returns whether there is anything to decode; once every sequence has
    /// been submitted the batch stays empty.
    pub fn next_batch(&mut self) -> (ready: bool)
        requires
            old(self).wf(),
        ensures
            final(self).wf(),
            final(self)@.sequences == old(self)@.sequences,
            final(self)@.n_batch == old(self)@.n_batch,
            final(self)@.first == old(self)@.next,
            final(self)@.next == group_end(
                old(self)@.sequences,
                old(self)@.next,
                old(self)@.next,
                old(self)@.n_batch as int,
            ),
            final(self).spec_batch() == group_entries(
                final(self)@.sequences,
                final(self)@.first,
                final(self)@.next,
            ),
            ready == (old(self)@.next < old(self)@.sequences.len()),
            ready == (final(self)@.first < final(self)@.next),
    {
        let ghost seqs = self@.sequences;
        let start = self.next;
        self.batch.clear();
        self.ends.clear();
        self.first = start;
        let mut at: usize = start;
        while at < self.sequences.len()
            invariant
                start <= at <= self.sequences@.len(),
                at - start <= i32::MAX,
                self@.sequences == seqs,
                self.n_batch == old(self).n_batch,
                self.first == start,
                self.batch.wf(),
                self.batch.spec_capacity() == self.n_batch,
                self.batch.spec_max_seqs() == 1,
                self.n_batch <= i32::MAX,
                forall|i: int| 0 <= i < seqs.len() ==> (#[trigger] seqs[i]).len() <= self.n_batch,
                self.batch@ == group_entries(seqs, start as int, at as int),
                self.batch@.len() == tokens_in(seqs, start as int, at as int),
                self.batch@.len() <= self.n_batch,
                self.ends@.len() == at - start,
                forall|s: int|
                    0 <= s < self.ends@.len() ==> (#[trigger] self.ends@[s]) == tokens_in(
                        seqs,
                        start as int,
                        start + s + 1,
                    ),
                group_end(seqs, start as int, at as int, self.n_batch as int) == group_end(
                    seqs,
                    start as int,
                    start as int,
                    self.n_batch as int,
                ),
            ensures
                at >= seqs.len() || tokens_in(seqs, start as int, at as int) + seqs[at as int].len()
                    > self.n_batch || at - start >= i32::MAX,
            decreases self.sequences@.len() - at,
        {
            assert(seqs[at as int] == self.sequences@[at as int]@);
            if self.batch.len() + self.sequences[at].len() > self.n_batch || at - start
                >= 0x7fff_ffff {
                break ;
            }
            let r = self.batch.add_sequence(self.sequences[at].as_slice(), (at - start) as i32, false);
            assert(r is Ok);
            self.ends.push(self.batch.len());
            proof {
                self.batch.lemma_len_within_capacity();
            }
            at += 1;
        }
        proof {
            if start < self.sequences@.len() {
                assert(seqs[start as int].len() <= self.n_batch);
                assert(tokens_in(seqs, start as int, start as int) == 0);
            }
        }
        self.next = at;
        start < at
    }

    /// Where the vector of each sequence of the current group is read from,
    /// in submission order.
    pub fn sources(&self, pooling: PoolingMode) -> (out: Vec<EmbeddingSource>)
        requires
            self.wf(),
        ensures
            out@.len() == self@.next - self@.first,
            forall|s: int|
                0 <= s < out@.len() ==> (#[trigger] out@[s]) == source_for(
                    pooling,
                    self@.sequences,
                    self@.first,
                    s,
                ),
    {
        let n = self.next - self.first;
        let mut out: Vec<EmbeddingSource> = Vec::with_capacity(n);
        let mut s: usize = 0;
        while s < n
            invariant
                self.wf(),
                n == self.next - self.first,
                s <= n,
                out@.len() == s,
                forall|t: int|
                    0 <= t < s ==> (#[trigger] out@[t]) == source_for(
                        pooling,
                        self@.sequences,
                        self@.first,
                        t,
                    ),
            decreases n - s,
        {
            let source = match pooling {
                PoolingMode::Unpooled => {
                    let len = self.sequences[self.first + s].len();
                    assert(self@.sequences[self.first + s] == self.sequences@[self.first + s]@);
                    if len == 0 {
                        EmbeddingSource::Absent
                    } else {
                        proof {
                            lemma_tokens_in_monotone(
                                self@.sequences,
                                self.first as int,
                                self.first + s,
                                self.first + s + 1,
                            );
                        }
                        EmbeddingSource::Token { index: self.ends[s] - 1 }
                    }
                },
                _ => EmbeddingSource::Sequence { sequence_id: s as i32 },
            };
            out.push(source);
            s += 1;
        }
        out
    }
}

} // verus!
