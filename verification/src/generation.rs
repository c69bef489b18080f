//! Single-sequence autoregressive generation as a state machine.
//!
//! The machine decides; the caller performs. After every step the machine
//! names the next [`Action`]: decode the batch, sample a token, or stop. The
//! caller carries the action out on the engine and reports what happened.

use vstd::prelude::*;
use vstd::string::*;
use vstd::utf8::{decode_utf8, valid_utf8};
use crate::batch::{add_outcome, sequence_entries, CapacityExceeded, EntryView, TokenBatch};
use crate::text::{
    joined, lemma_pieces_give_whole_text, push_pending, push_text, pushed_pending, pushed_text,
    Utf8Assembler,
};
use crate::token::LlamaToken;

verus! {

/// What stopped a generation early or kept it from starting.
#[derive(Clone, Copy, Debug, PartialEq, Eq, Structural)]
pub enum GenerationError {
    /// The prompt leaves no room to generate: it has `n_len` tokens or more.
    PromptTooLong { prompt_len: usize, n_len: i32 },
    /// The context cannot hold the prompt and the tokens to generate.
    ContextTooSmall { required: i32, context_capacity: i32 },
    /// The batch cannot hold what had to be submitted.
    Capacity(CapacityExceeded),
    /// The engine failed to decode a batch; `code` is its status.
    DecodeFailure { code: i32 },
}

/// Why a generation ended normally.
#[derive(Clone, Copy, Debug, PartialEq, Eq, Structural)]
pub enum DoneReason {
    /// The sampler produced an end-of-generation token.
    EndOfGeneration,
    /// The length budget is used up.
    LengthReached,
}

/// Where a generation stands.
#[derive(Clone, Copy, Debug, PartialEq, Eq, Structural)]
pub enum Phase {
    /// The prompt is in the batch and waits to be decoded.
    Prefill,
    /// Tokens are being generated. While `decoding`, the batch holds the
    /// last sampled token and waits to be decoded; otherwise the machine
    /// waits for the next sampled token.
    Sampling { decoding: bool },
    /// Generation ended normally.
    Done { reason: DoneReason },
    /// Generation was abandoned.
    Failed { error: GenerationError },
}

/// What the caller has to do next.
#[derive(Clone, Copy, Debug, PartialEq, Eq, Structural)]
pub enum Action {
    /// Decode the machine's batch and report the outcome.
    Decode,
    /// Sample from the logits of the batch's last entry and report the token.
    Sample,
    /// Nothing: the machine is in a terminal phase.
    Finish,
}

/// Mathematical value of a [`GenerationLoop`].
pub struct GenerationView {
    pub phase: Phase,
    /// Length budget: prompt and generated tokens together.
    pub n_len: i32,
    /// Position of the next token to be written.
    pub n_cur: int,
    /// Number of tokens generated so far.
    pub n_decoded: int,
    /// Bytes of an unfinished character.
    pub pending: Seq<u8>,
    /// Text generated so far.
    pub output: Seq<char>,
    /// Entries waiting in the batch.
    pub batch: Seq<EntryView>,
    pub batch_capacity: nat,
}

/// The action that a machine in phase `phase` asks for.
pub open spec fn expected_action(phase: Phase) -> Action {
    match phase {
        Phase::Prefill => Action::Decode,
        Phase::Sampling { decoding } => if decoding {
            Action::Decode
        } else {
            Action::Sample
        },
        Phase::Done { .. } => Action::Finish,
        Phase::Failed { .. } => Action::Finish,
    }
}

/// How a generation starts. The context is checked first, then the prompt
/// against the length budget, then against the batch; on success the whole
/// prompt waits in the batch on sequence 0 and only its last token requests
/// logits.
pub open spec fn prefill_outcome(
    prompt: Seq<LlamaToken>,
    n_len: i32,
    context_capacity: i32,
    batch_capacity: nat,
) -> Result<GenerationView, GenerationError> {
    if n_len > context_capacity {
        Err(GenerationError::ContextTooSmall { required: n_len, context_capacity })
    } else if prompt.len() >= n_len {
        Err(GenerationError::PromptTooLong { prompt_len: prompt.len() as usize, n_len })
    } else if prompt.len() > batch_capacity {
        Err(
            GenerationError::Capacity(
                CapacityExceeded::Slots {
                    free: batch_capacity as usize,
                    requested: prompt.len() as usize,
                },
            ),
        )
    } else {
        Ok(
            GenerationView {
                phase: Phase::Prefill,
                n_len,
                n_cur: prompt.len() as int,
                n_decoded: 0,
                pending: Seq::empty(),
                output: Seq::empty(),
                batch: sequence_entries(prompt, 0, true),
                batch_capacity,
            },
        )
    }
}

/// The state after the engine reported the outcome of a decode. A report
/// that the machine did not ask for changes nothing.
pub open spec fn after_decoded(v: GenerationView, outcome: Result<(), i32>) -> GenerationView {
    if expected_action(v.phase) != Action::Decode {
        v
    } else {
        match outcome {
            Err(code) => GenerationView {
                phase: Phase::Failed { error: GenerationError::DecodeFailure { code } },
                ..v
            },
            Ok(_) => if v.n_cur <= v.n_len {
                GenerationView { phase: Phase::Sampling { decoding: false }, ..v }
            } else {
                GenerationView { phase: Phase::Done { reason: DoneReason::LengthReached }, ..v }
            },
        }
    }
}

/// The state after the sampler produced `token`, whose text is `bytes`. An
/// end-of-generation token ends the generation and adds nothing. Any other
/// token adds its finished characters to the output and takes the batch for
/// itself, at the current position on sequence 0, requesting logits.
pub open spec fn after_sampled(
    v: GenerationView,
    token: LlamaToken,
    end_of_generation: bool,
    bytes: Seq<u8>,
) -> GenerationView {
    if expected_action(v.phase) != Action::Sample {
        v
    } else if end_of_generation {
        GenerationView { phase: Phase::Done { reason: DoneReason::EndOfGeneration }, ..v }
    } else {
        let entry = EntryView {
            token,
            sequence_ids: seq![0i32],
            position: v.n_cur as i32,
            wants_logits: true,
        };
        match add_outcome(Seq::empty(), v.batch_capacity, 1, entry) {
            Ok(batch) => GenerationView {
                phase: Phase::Sampling { decoding: true },
                n_cur: v.n_cur + 1,
                n_decoded: v.n_decoded + 1,
                pending: push_pending(v.pending, bytes),
                output: v.output + push_text(v.pending, bytes),
                batch,
                ..v
            },
            Err(refusal) => GenerationView {
                phase: Phase::Failed { error: GenerationError::Capacity(refusal) },
                pending: push_pending(v.pending, bytes),
                output: v.output + push_text(v.pending, bytes),
                batch: Seq::empty(),
                ..v
            },
        }
    }
}

/// Positions stay contiguous: a generated token is written at the
/// position right after everything written before, and the number of
/// positions that were not generated, the prompt's, never changes.
pub proof fn lemma_positions_stay_contiguous(
    v: GenerationView,
    token: LlamaToken,
    end_of_generation: bool,
    bytes: Seq<u8>,
    outcome: Result<(), i32>,
)
    requires
        0 <= v.n_cur <= v.n_len,
    ensures
        ({
            let sampled = after_sampled(v, token, end_of_generation, bytes);
            let decoded = after_decoded(v, outcome);
            &&& sampled.n_cur - sampled.n_decoded == v.n_cur - v.n_decoded
            &&& decoded.n_cur == v.n_cur && decoded.n_decoded == v.n_decoded
            &&& sampled.n_cur == v.n_cur + 1 ==> sampled.batch.len() == 1
                && sampled.batch[0].position == v.n_cur && sampled.batch[0].wants_logits
        }),
{
}

/// The state after the sampler produced `tokens` one after the other, none
/// of them an end of generation, each with its bytes in `pieces`, and the
/// engine decoded each of them.
pub open spec fn after_tokens(
    v: GenerationView,
    tokens: Seq<LlamaToken>,
    pieces: Seq<Seq<u8>>,
) -> GenerationView
    decreases pieces.len(),
{
    if pieces.len() == 0 {
        v
    } else {
        after_tokens(
            after_decoded(after_sampled(v, tokens[0], false, pieces[0]), Ok(())),
            tokens.drop_first(),
            pieces.drop_first(),
        )
    }
}

/// While the budget lasts, the output grows by exactly what the assembler
/// makes of the sampled tokens' bytes, and every token counts.
pub proof fn lemma_output_follows_tokens(
    v: GenerationView,
    tokens: Seq<LlamaToken>,
    pieces: Seq<Seq<u8>>,
)
    requires
        v.phase == (Phase::Sampling { decoding: false }),
        tokens.len() == pieces.len(),
        v.batch_capacity >= 1,
        v.n_cur + pieces.len() <= v.n_len + 1,
    ensures
        ({
            let end = after_tokens(v, tokens, pieces);
            &&& end.output == v.output + pushed_text(v.pending, pieces)
            &&& end.pending == pushed_pending(v.pending, pieces)
            &&& end.n_cur == v.n_cur + pieces.len()
            &&& end.n_decoded == v.n_decoded + pieces.len()
        }),
    decreases pieces.len(),
{
    if pieces.len() == 0 {
        assert(v.output + pushed_text(v.pending, pieces) =~= v.output);
    } else {
        let sampled = after_sampled(v, tokens[0], false, pieces[0]);
        let next = after_decoded(sampled, Ok(()));
        let others = pieces.drop_first();
        assert(sampled.phase == (Phase::Sampling { decoding: true }));
        assert(sampled.output == v.output + push_text(v.pending, pieces[0]));
        assert(next.output == sampled.output && next.pending == sampled.pending);
        assert(sampled.pending == push_pending(v.pending, pieces[0]));
        assert(pushed_pending(v.pending, pieces) == pushed_pending(next.pending, others));
        assert(next.n_cur == v.n_cur + 1 && next.n_decoded == v.n_decoded + 1);
        assert(pushed_text(v.pending, pieces) == push_text(v.pending, pieces[0]) + pushed_text(
            next.pending,
            others,
        ));
        if others.len() > 0 {
            lemma_output_follows_tokens(next, tokens.drop_first(), others);
        } else {
            assert(next.output + pushed_text(next.pending, others) =~= next.output);
        }
        assert(after_tokens(v, tokens, pieces).output =~= v.output + pushed_text(
            v.pending,
            pieces,
        ));
    }
}

/// When the bytes of the sampled tokens together are valid UTF-8, the
/// output of a fresh generation is their text, whole and unchanged,
/// however the characters were cut into tokens.
pub proof fn lemma_valid_tokens_give_their_text(
    v: GenerationView,
    tokens: Seq<LlamaToken>,
    pieces: Seq<Seq<u8>>,
)
    requires
        v.phase == (Phase::Sampling { decoding: false }),
        v.pending.len() == 0,
        v.output.len() == 0,
        tokens.len() == pieces.len(),
        v.batch_capacity >= 1,
        v.n_cur + pieces.len() <= v.n_len + 1,
        valid_utf8(joined(pieces)),
    ensures
        after_tokens(v, tokens, pieces).output == decode_utf8(joined(pieces)),
        after_tokens(v, tokens, pieces).pending.len() == 0,
{
    lemma_output_follows_tokens(v, tokens, pieces);
    assert(v.pending =~= Seq::<u8>::empty());
    lemma_pieces_give_whole_text(pieces);
    assert(v.output + pushed_text(v.pending, pieces) =~= pushed_text(v.pending, pieces));
}

/// A prompt that uses up the length budget is refused as too long,
/// whenever the context can hold the budget.
pub proof fn lemma_prompt_at_budget_is_too_long(
    prompt: Seq<LlamaToken>,
    n_len: i32,
    context_capacity: i32,
    batch_capacity: nat,
)
    requires
        n_len <= context_capacity,
        prompt.len() >= n_len,
    ensures
        prefill_outcome(prompt, n_len, context_capacity, batch_capacity) == Err::<
            GenerationView,
            GenerationError,
        >(GenerationError::PromptTooLong { prompt_len: prompt.len() as usize, n_len }),
{
}

/// When the first sampled token ends the generation, the generation is
/// done and its output is empty.
pub proof fn lemma_immediate_end_leaves_output_empty(
    prompt: Seq<LlamaToken>,
    n_len: i32,
    context_capacity: i32,
    batch_capacity: nat,
    token: LlamaToken,
    bytes: Seq<u8>,
)
    requires
        prefill_outcome(prompt, n_len, context_capacity, batch_capacity) is Ok,
    ensures
        ({
            let started = prefill_outcome(prompt, n_len, context_capacity, batch_capacity)->Ok_0;
            let ended = after_sampled(after_decoded(started, Ok(())), token, true, bytes);
            &&& ended.phase == Phase::Done { reason: DoneReason::EndOfGeneration }
            &&& ended.output == Seq::<char>::empty()
            &&& ended.n_decoded == 0
        }),
{
}

/// The generation state machine: one sequence, one batch, one output text.
#[derive(Debug)]
pub struct GenerationLoop {
    phase: Phase,
    n_len: i32,
    n_cur: i64,
    n_decoded: i64,
    assembler: Utf8Assembler,
    output: String,
    batch: TokenBatch,
}

impl View for GenerationLoop {
    type V = GenerationView;

    closed spec fn view(&self) -> GenerationView {
        GenerationView {
            phase: self.phase,
            n_len: self.n_len,
            n_cur: self.n_cur as int,
            n_decoded: self.n_decoded as int,
            pending: self.assembler@,
            output: self.output@,
            batch: self.batch@,
            batch_capacity: self.batch.spec_capacity(),
        }
    }
}

impl GenerationLoop {
    /// The invariant every machine satisfies: positions stay within one past
    /// the length budget, and every position beyond the prompt was generated.
    pub closed spec fn wf(&self) -> bool {
        &&& self.batch.wf()
        &&& self.batch.spec_max_seqs() == 1
        &&& self.assembler.wf()
        &&& 0 <= self.n_decoded <= self.n_cur <= self.n_len + 1
        &&& (expected_action(self.phase) == Action::Sample ==> self.n_cur <= self.n_len)
    }

    /// Starts a generation for `prompt` with a length budget of `n_len`
    /// tokens, in a context of `context_capacity` positions, using a batch
    /// of `batch_capacity` slots.
    pub fn prefill(
        prompt: &[LlamaToken],
        n_len: i32,
        context_capacity: i32,
        batch_capacity: usize,
    ) -> (r: Result<GenerationLoop, GenerationError>)
        requires
            batch_capacity <= i32::MAX,
        ensures
            match prefill_outcome(prompt@, n_len, context_capacity, batch_capacity as nat) {
                Ok(started) => r is Ok && r->Ok_0.wf() && r->Ok_0@ == started,
                Err(error) => r is Err && r->Err_0 == error,
            },
    {
        if n_len > context_capacity {
            return Err(GenerationError::ContextTooSmall { required: n_len, context_capacity });
        }
        if n_len <= 0 || prompt.len() >= n_len as usize {
            return Err(GenerationError::PromptTooLong { prompt_len: prompt.len(), n_len });
        }
        let mut batch = TokenBatch::new(batch_capacity, 1);
        match batch.add_sequence(prompt, 0, true) {
            Err(refusal) => Err(GenerationError::Capacity(refusal)),
            Ok(_) => {
                let machine = GenerationLoop {
                    phase: Phase::Prefill,
                    n_len,
                    n_cur: prompt.len() as i64,
                    n_decoded: 0,
                    assembler: Utf8Assembler::new(),
                    output: String::new(),
                    batch,
                };
                assert(machine@.batch =~= sequence_entries(prompt@, 0, true));
                Ok(machine)
            },
        }
    }

    /// The current phase.
    pub fn phase(&self) -> (phase: Phase)
        ensures
            phase == self@.phase,
    {
        self.phase
    }

    /// What the caller has to do next.
    pub fn action(&self) -> (action: Action)
        ensures
            action == expected_action(self@.phase),
    {
        match self.phase {
            Phase::Prefill => Action::Decode,
            Phase::Sampling { decoding } => if decoding {
                Action::Decode
            } else {
                Action::Sample
            },
            Phase::Done { .. } => Action::Finish,
            Phase::Failed { .. } => Action::Finish,
        }
    }

    /// Position of the next token to be written.
    pub fn n_cur(&self) -> (n: i64)
        ensures
            n == self@.n_cur,
    {
        self.n_cur
    }

    /// Number of tokens generated so far.
    pub fn n_decoded(&self) -> (n: i64)
        ensures
            n == self@.n_decoded,
    {
        self.n_decoded
    }

    /// The text generated so far.
    pub fn output(&self) -> (text: &String)
        ensures
            text@ == self@.output,
    {
        &self.output
    }

    /// The batch to hand to the engine when the action is [`Action::Decode`].
    pub fn batch(&self) -> (batch: &TokenBatch)
        ensures
            batch@ == self@.batch,
            batch.spec_capacity() == self@.batch_capacity,
            self.wf() ==> batch.wf(),
    {
        &self.batch
    }

    /// The batch entry whose logits the sampler reads: the last one. For an
    /// empty batch this is -1, which the engine takes as "the last logits".
    pub fn sample_index(&self) -> (index: i32)
        requires
            self.wf(),
        ensures
            index == self@.batch.len() - 1,
    {
        proof {
            self.batch.lemma_len_within_capacity();
        }
        self.batch.len() as i32 - 1
    }

    /// Ends the use of the machine and hands out the generated text with
    /// the phase the machine was in.
    pub fn finish(self) -> (r: (String, Phase))
        ensures
            r.0@ == self@.output,
            r.1 == self@.phase,
    {
        (self.output, self.phase)
    }

    /// Reports the outcome of the decode the machine asked for: `Ok`, or the
    /// engine's failure code. A failure is final; nothing is retried.
    pub fn on_decoded(&mut self, outcome: Result<(), i32>) -> (action: Action)
        requires
            old(self).wf(),
        ensures
            final(self).wf(),
            final(self)@ == after_decoded(old(self)@, outcome),
            action == expected_action(final(self)@.phase),
    {
        match self.action() {
            Action::Decode => {
                match outcome {
                    Err(code) => {
                        self.phase = Phase::Failed {
                            error: GenerationError::DecodeFailure { code },
                        };
                    },
                    Ok(_) => {
                        if self.n_cur <= self.n_len as i64 {
                            self.phase = Phase::Sampling { decoding: false };
                        } else {
                            self.phase = Phase::Done { reason: DoneReason::LengthReached };
                        }
                    },
                }
            },
            _ => {},
        }
        self.action()
    }

    /// Reports the token the sampler produced, whether the engine counts it
    /// as end of generation, and the bytes of its text.
    pub fn on_sampled(&mut self, token: LlamaToken, end_of_generation: bool, bytes: &[u8]) -> (action:
        Action)
        requires
            old(self).wf(),
            bytes@.len() <= usize::MAX / 4,
        ensures
            final(self).wf(),
            final(self)@ == after_sampled(old(self)@, token, end_of_generation, bytes@),
            action == expected_action(final(self)@.phase),
    {
        match self.action() {
            Action::Sample => {
                if end_of_generation {
                    self.phase = Phase::Done { reason: DoneReason::EndOfGeneration };
                } else {
                    let text = self.assembler.push(bytes);
                    self.output.append(text.as_str());
                    self.batch.clear();
                    let ids: Vec<i32> = vec![0i32];
                    assert(ids@ =~= seq![0i32]);
                    match self.batch.add(token, self.n_cur as i32, ids.as_slice(), true) {
                        Ok(_) => {
                            self.n_cur = self.n_cur + 1;
                            self.n_decoded = self.n_decoded + 1;
                            self.phase = Phase::Sampling { decoding: true };
                        },
                        Err(refusal) => {
                            self.phase = Phase::Failed {
                                error: GenerationError::Capacity(refusal),
                            };
                        },
                    }
                }
            },
            _ => {},
        }
        self.action()
    }
}

} // verus!
