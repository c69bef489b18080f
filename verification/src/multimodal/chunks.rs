//! The pieces of a mixed input and the positions they occupy.

use vstd::prelude::*;
use vstd::string::*;
use crate::batch::{CapacityExceeded, EntryView, TokenBatch};
use crate::decimal::{signed_decimal, signed_decimal_text};
use crate::multimodal::bitmap::{check_text, is_text_verdict};
use crate::multimodal::error::MultimodalError;
use crate::token::LlamaToken;

verus! {

/// A text to tokenize, with the tokenizer's options.
#[derive(Debug, Clone)]
pub struct InputText {
    /// The text; media markers in it stand for the bitmaps.
    pub text: String,
    /// Whether the tokenizer adds the model's special tokens.
    pub add_special: bool,
    /// Whether the tokenizer recognises special tokens in the text.
    pub parse_special: bool,
}

impl InputText {
    /// A text with both options switched on.
    pub fn new(text: &str) -> (input: InputText)
        ensures
            input.text@ == text@,
            input.add_special,
            input.parse_special,
    {
        InputText { text: text.to_owned(), add_special: true, parse_special: true }
    }

    /// Checks that the text can be handed to the tokenizer: it holds no
    /// zero byte.
    pub fn check(&self) -> (r: Result<(), MultimodalError>)
        ensures
            is_text_verdict(vstd::utf8::encode_utf8(self.text@), r),
    {
        check_text(self.text.as_str())
    }

    /// Sets whether special tokens are added.
    pub fn with_add_special(self, add: bool) -> (input: InputText)
        ensures
            input.text == self.text,
            input.add_special == add,
            input.parse_special == self.parse_special,
    {
        let mut input = self;
        input.add_special = add;
        input
    }

    /// Sets whether special tokens are recognised.
    pub fn with_parse_special(self, parse: bool) -> (input: InputText)
        ensures
            input.text == self.text,
            input.add_special == self.add_special,
            input.parse_special == parse,
    {
        let mut input = self;
        input.parse_special = parse;
        input
    }
}

/// The modality of a chunk.
#[derive(Debug, Clone, Copy, PartialEq, Eq, Structural)]
pub enum ChunkType {
    Text,
    Image,
    Audio,
}

impl ChunkType {
    /// The modality for the encoder's chunk code: 0 is text, 1 an image,
    /// 2 audio; any other code is taken as text.
    pub fn from_code(code: u32) -> (kind: ChunkType)
        ensures
            kind == if code == 1 {
                ChunkType::Image
            } else if code == 2 {
                ChunkType::Audio
            } else {
                ChunkType::Text
            },
    {
        if code == 1 {
            ChunkType::Image
        } else if code == 2 {
            ChunkType::Audio
        } else {
            ChunkType::Text
        }
    }
}

/// The tokens of a text chunk, given the raw ids the encoder holds for it.
/// A chunk of another modality has none, and neither has an empty one.
pub fn text_tokens(kind: ChunkType, raw: &[i32]) -> (tokens: Option<Vec<LlamaToken>>)
    ensures
        tokens is Some <==> kind == ChunkType::Text && raw@.len() > 0,
        tokens matches Some(t) ==> t@ == raw@.map_values(|id: i32| LlamaToken(id)),
{
    match kind {
        ChunkType::Text => {
            if raw.len() == 0 {
                return None;
            }
            let mut out: Vec<LlamaToken> = Vec::with_capacity(raw.len());
            let mut i: usize = 0;
            while i < raw.len()
                invariant
                    i <= raw@.len(),
                    out@.len() == i,
                    forall|j: int| 0 <= j < i ==> out@[j] == LlamaToken(#[trigger] raw@[j]),
                decreases raw@.len() - i,
            {
                out.push(LlamaToken(raw[i]));
                i += 1;
            }
            assert(out@ =~= raw@.map_values(|id: i32| LlamaToken(id)));
            Some(out)
        },
        _ => None,
    }
}

/// The text with which an unknown tokenizer status `code` is reported.
pub open spec fn unknown_code_text(code: i32) -> Seq<char> {
    "Unknown error code: "@ + signed_decimal_text(code as int)
}

fn unknown_code_reason(code: i32) -> (reason: String)
    ensures
        reason@ == unknown_code_text(code),
{
    let mut reason = String::from_str("Unknown error code: ");
    reason.append(signed_decimal(code).as_str());
    reason
}

/// What the tokenizer's status `code` means, for a call that supplied
/// `provided` bitmaps: 0 is success, 1 a mismatch between markers and
/// bitmaps, 2 a failure to preprocess a medium.
pub fn tokenize_outcome(code: i32, provided: usize) -> (r: Result<(), MultimodalError>)
    ensures
        code == 0 <==> r is Ok,
        code == 1 ==> r is Err && r->Err_0 == (MultimodalError::BitmapCountMismatch {
            provided,
            expected: 0,
        }),
        code == 2 ==> r is Err && r->Err_0 == MultimodalError::PreprocessingFailed,
        code != 0 && code != 1 && code != 2 ==> (r matches Err(
            MultimodalError::TokenizationFailed { reason },
        ) && reason@ == unknown_code_text(code)),
{
    if code == 0 {
        Ok(())
    } else if code == 1 {
        Err(MultimodalError::BitmapCountMismatch { provided, expected: 0 })
    } else if code == 2 {
        Err(MultimodalError::PreprocessingFailed)
    } else {
        Err(MultimodalError::TokenizationFailed { reason: unknown_code_reason(code) })
    }
}

/// One piece of a tokenized mixed input, described by what position
/// accounting needs: the tokens of a text, or the token count and the
/// number of temporal positions of a medium.
#[derive(Debug, Clone)]
pub enum Chunk {
    Text { tokens: Vec<LlamaToken> },
    Image { n_tokens: usize, n_pos: u32 },
    Audio { n_tokens: usize, n_pos: u32 },
}

/// Mathematical value of a [`Chunk`].
pub enum ChunkView {
    Text { tokens: Seq<LlamaToken> },
    Image { n_tokens: nat, n_pos: nat },
    Audio { n_tokens: nat, n_pos: nat },
}

impl View for Chunk {
    type V = ChunkView;

    open spec fn view(&self) -> ChunkView {
        match *self {
            Chunk::Text { tokens } => ChunkView::Text { tokens: tokens@ },
            Chunk::Image { n_tokens, n_pos } => ChunkView::Image {
                n_tokens: n_tokens as nat,
                n_pos: n_pos as nat,
            },
            Chunk::Audio { n_tokens, n_pos } => ChunkView::Audio {
                n_tokens: n_tokens as nat,
                n_pos: n_pos as nat,
            },
        }
    }
}

impl Chunk {
    /// The modality of the chunk.
    pub fn chunk_type(&self) -> (kind: ChunkType)
        ensures
            kind == chunk_kind(self@),
    {
        match self {
            Chunk::Text { .. } => ChunkType::Text,
            Chunk::Image { .. } => ChunkType::Image,
            Chunk::Audio { .. } => ChunkType::Audio,
        }
    }

    /// Number of tokens the chunk contributes.
    pub fn n_tokens(&self) -> (n: usize)
        ensures
            n == token_count(self@),
    {
        match self {
            Chunk::Text { tokens } => tokens.len(),
            Chunk::Image { n_tokens, .. } => *n_tokens,
            Chunk::Audio { n_tokens, .. } => *n_tokens,
        }
    }
}

/// Where one chunk sits in its sequence.
#[derive(Debug, Clone, Copy, PartialEq, Eq, Structural)]
pub struct Placement {
    /// Position of the chunk's first token.
    pub first_position: i32,
    /// Number of tokens of the chunk.
    pub n_tokens: usize,
    /// Whether all tokens of the chunk share `first_position`; otherwise
    /// each token sits one position after the one before it.
    pub shared_position: bool,
}

/// The modality of a chunk.
pub open spec fn chunk_kind(c: ChunkView) -> ChunkType {
    match c {
        ChunkView::Text { .. } => ChunkType::Text,
        ChunkView::Image { .. } => ChunkType::Image,
        ChunkView::Audio { .. } => ChunkType::Audio,
    }
}

/// Number of tokens of a chunk.
pub open spec fn token_count(c: ChunkView) -> nat {
    match c {
        ChunkView::Text { tokens } => tokens.len(),
        ChunkView::Image { n_tokens, .. } => n_tokens,
        ChunkView::Audio { n_tokens, .. } => n_tokens,
    }
}

/// Number of text tokens of a chunk: those that go into the batch.
pub open spec fn text_count(c: ChunkView) -> nat {
    match c {
        ChunkView::Text { tokens } => tokens.len(),
        _ => 0,
    }
}

/// Whether all tokens of the chunk share one position: a medium under
/// grouped temporal positions.
pub open spec fn shares_position(c: ChunkView, use_mrope: bool) -> bool {
    use_mrope && chunk_kind(c) != ChunkType::Text
}

/// By how many positions a chunk moves the sequence on: a text by its
/// tokens, a medium by its tokens under linear positions and by its
/// temporal positions under grouped ones.
pub open spec fn advance(c: ChunkView, use_mrope: bool) -> nat {
    match c {
        ChunkView::Text { tokens } => tokens.len(),
        ChunkView::Image { n_tokens, n_pos } => if use_mrope {
            n_pos
        } else {
            n_tokens
        },
        ChunkView::Audio { n_tokens, n_pos } => if use_mrope {
            n_pos
        } else {
            n_tokens
        },
    }
}

/// The position at which chunk `k` starts when the first starts at `start`.
pub open spec fn start_of(chunks: Seq<ChunkView>, use_mrope: bool, start: int, k: int) -> int
    decreases k,
{
    if k <= 0 {
        start
    } else {
        start_of(chunks, use_mrope, start, k - 1) + advance(chunks[k - 1], use_mrope)
    }
}

/// The position of token `i` of a chunk that starts at `first`.
pub open spec fn token_position(c: ChunkView, use_mrope: bool, first: int, i: int) -> int {
    if shares_position(c, use_mrope) {
        first
    } else {
        first + i
    }
}

/// Number of text tokens in the first `k` chunks.
pub open spec fn text_total(chunks: Seq<ChunkView>, k: int) -> int
    decreases k,
{
    if k <= 0 {
        0
    } else {
        text_total(chunks, k - 1) + text_count(chunks[k - 1])
    }
}

/// The batch entries of one chunk that starts at `first`: its tokens at
/// consecutive positions for a text, nothing for a medium.
pub open spec fn chunk_entries(c: ChunkView, first: int, sequence_id: i32) -> Seq<EntryView> {
    match c {
        ChunkView::Text { tokens } => Seq::new(
            tokens.len(),
            |i: int|
                EntryView {
                    token: tokens[i],
                    sequence_ids: seq![sequence_id],
                    position: (first + i) as i32,
                    wants_logits: false,
                },
        ),
        _ => Seq::empty(),
    }
}

/// The batch entries of the first `k` chunks.
pub open spec fn text_entries(
    chunks: Seq<ChunkView>,
    use_mrope: bool,
    start: int,
    sequence_id: i32,
    k: int,
) -> Seq<EntryView>
    decreases k,
{
    if k <= 0 {
        Seq::empty()
    } else {
        text_entries(chunks, use_mrope, start, sequence_id, k - 1) + chunk_entries(
            chunks[k - 1],
            start_of(chunks, use_mrope, start, k - 1),
            sequence_id,
        )
    }
}

/// Where chunk `k` sits.
pub open spec fn placement_of(chunks: Seq<ChunkView>, use_mrope: bool, start: int, k: int) -> Placement {
    Placement {
        first_position: start_of(chunks, use_mrope, start, k) as i32,
        n_tokens: token_count(chunks[k]) as usize,
        shared_position: shares_position(chunks[k], use_mrope),
    }
}

/// The chunks as mathematical values.
pub open spec fn chunk_views(chunks: Seq<Chunk>) -> Seq<ChunkView> {
    chunks.map_values(|c: Chunk| c@)
}

/// Positions never move backwards from chunk to chunk, and the text
/// tokens seen so far never outnumber the positions used so far.
pub proof fn lemma_start_of_monotone(
    chunks: Seq<ChunkView>,
    use_mrope: bool,
    start: int,
    sequence_id: i32,
    j: int,
    k: int,
)
    requires
        0 <= j <= k,
    ensures
        start_of(chunks, use_mrope, start, j) <= start_of(chunks, use_mrope, start, k),
        0 <= text_total(chunks, j) <= text_total(chunks, k),
        text_total(chunks, k) <= start_of(chunks, use_mrope, start, k) - start,
        text_entries(chunks, use_mrope, start, sequence_id, k).len() == text_total(chunks, k),
    decreases k,
{
    if k > 0 {
        if j < k {
            lemma_start_of_monotone(chunks, use_mrope, start, sequence_id, j, k - 1);
        } else {
            lemma_start_of_monotone(chunks, use_mrope, start, sequence_id, j - 1, k - 1);
        }
    }
}

/// The text tokens of a layout sit at strictly increasing positions, all
/// of them from `start` on and before the position the layout ends at.
pub proof fn lemma_text_positions_increase(
    chunks: Seq<ChunkView>,
    use_mrope: bool,
    start: int,
    sequence_id: i32,
    k: int,
)
    requires
        0 <= k <= chunks.len(),
        i32::MIN <= start,
        start_of(chunks, use_mrope, start, k) <= i32::MAX,
    ensures
        ({
            let entries = text_entries(chunks, use_mrope, start, sequence_id, k);
            &&& forall|i: int|
                0 <= i < entries.len() ==> start <= (#[trigger] entries[i]).position < start_of(
                    chunks,
                    use_mrope,
                    start,
                    k,
                )
            &&& forall|i: int, j: int|
                0 <= i < j < entries.len() ==> (#[trigger] entries[i]).position
                    < (#[trigger] entries[j]).position
        }),
    decreases k,
{
    if k > 0 {
        lemma_start_of_monotone(chunks, use_mrope, start, sequence_id, k - 1, k);
        lemma_start_of_monotone(chunks, use_mrope, start, sequence_id, 0, k - 1);
        lemma_text_positions_increase(chunks, use_mrope, start, sequence_id, k - 1);
        let entries = text_entries(chunks, use_mrope, start, sequence_id, k);
        let shorter = text_entries(chunks, use_mrope, start, sequence_id, k - 1);
        let first = start_of(chunks, use_mrope, start, k - 1);
        let added = chunk_entries(chunks[k - 1], first, sequence_id);
        assert forall|i: int| 0 <= i < entries.len() implies (if i < shorter.len() {
            entries[i] == shorter[i]
        } else {
            first <= (#[trigger] entries[i]).position == first + (i - shorter.len()) < start_of(
                chunks,
                use_mrope,
                start,
                k,
            )
        }) by {
            if i >= shorter.len() {
                assert(entries[i] == added[i - shorter.len()]);
            }
        }
        assert forall|i: int, j: int| 0 <= i < j < entries.len() implies (#[trigger] entries[i]).position
            < (#[trigger] entries[j]).position by {
            if j < shorter.len() {
                assert(entries[i] == shorter[i] && entries[j] == shorter[j]);
            } else if i < shorter.len() {
                assert(entries[i] == shorter[i]);
                assert(shorter[i].position < first);
            }
        }
    }
}

/// Lays the chunks out on `sequence_id`, the first at position `start`:
/// the tokens of the text chunks are appended to `batch`, and the place of
/// every chunk, text or medium, is returned.
///
/// Fails, leaving the batch untouched, when a position would leave the
/// position range (the error names the chunk that does), when the text
/// tokens do not fit into the batch, or when the batch takes no sequence.
pub fn assemble(
    batch: &mut TokenBatch,
    chunks: &[Chunk],
    use_mrope: bool,
    sequence_id: i32,
    start: i32,
) -> (r: Result<Vec<Placement>, CapacityExceeded>)
    requires
        old(batch).wf(),
    ensures
        final(batch).wf(),
        final(batch).spec_capacity() == old(batch).spec_capacity(),
        final(batch).spec_max_seqs() == old(batch).spec_max_seqs(),
        ({
            let views = chunk_views(chunks@);
            let n = chunks@.len() as int;
            let free = old(batch).spec_capacity() - old(batch)@.len();
            if start_of(views, use_mrope, start as int, n) > i32::MAX {
                r matches Err(CapacityExceeded::Positions { chunk }) && chunk < n && start_of(
                    views,
                    use_mrope,
                    start as int,
                    chunk as int,
                ) <= i32::MAX < start_of(views, use_mrope, start as int, chunk + 1)
            } else if text_total(views, n) > free {
                r == Err::<Vec<Placement>, CapacityExceeded>(
                    CapacityExceeded::Slots {
                        free: free as usize,
                        requested: text_total(views, n) as usize,
                    },
                )
            } else if text_total(views, n) > 0 && old(batch).spec_max_seqs() == 0 {
                r == Err::<Vec<Placement>, CapacityExceeded>(
                    CapacityExceeded::SequenceIds { max: 0, requested: 1 },
                )
            } else {
                &&& r is Ok
                &&& final(batch)@ == old(batch)@ + text_entries(
                    views,
                    use_mrope,
                    start as int,
                    sequence_id,
                    n,
                )
                &&& r->Ok_0@.len() == n
                &&& forall|k: int|
                    0 <= k < n ==> (#[trigger] r->Ok_0@[k]) == placement_of(
                        views,
                        use_mrope,
                        start as int,
                        k,
                    )
            }
        }),
        r is Err ==> *final(batch) == *old(batch),
{
    let ghost views = chunk_views(chunks@);
    let n = chunks.len();
    proof {
        batch.lemma_len_within_capacity();
    }
    let free = batch.capacity() - batch.len();
    let mut position: i64 = start as i64;
    let mut text: usize = 0;
    let mut k: usize = 0;
    while k < n
        invariant
            k <= n,
            n == chunks@.len(),
            views == chunk_views(chunks@),
            position == start_of(views, use_mrope, start as int, k as int),
            position <= i32::MAX,
            text == text_total(views, k as int),
            *batch == *old(batch),
            batch.wf(),
        decreases n - k,
    {
        assert(views[k as int] == chunks@[k as int]@);
        proof {
            lemma_start_of_monotone(views, use_mrope, start as int, sequence_id, k as int, k as int);
        }
        let step: usize = match &chunks[k] {
            Chunk::Text { tokens } => tokens.len(),
            Chunk::Image { n_tokens, n_pos } => if use_mrope {
                *n_pos as usize
            } else {
                *n_tokens
            },
            Chunk::Audio { n_tokens, n_pos } => if use_mrope {
                *n_pos as usize
            } else {
                *n_tokens
            },
        };
        assert(step == advance(views[k as int], use_mrope));
        if step as u128 > (0x7fff_ffffi64 - position) as u128 {
            proof {
                lemma_start_of_monotone(views, use_mrope, start as int, sequence_id, k + 1, n as int);
            }
            return Err(CapacityExceeded::Positions { chunk: k });
        }
        if let Chunk::Text { tokens } = &chunks[k] {
            text = text + tokens.len();
        }
        position = position + step as i64;
        k += 1;
    }
    if text > free {
        return Err(CapacityExceeded::Slots { free, requested: text });
    }
    if text > 0 && batch.max_seqs() == 0 {
        return Err(CapacityExceeded::SequenceIds { max: 0, requested: 1 });
    }
    let ids: Vec<i32> = vec![sequence_id];
    let mut placements: Vec<Placement> = Vec::with_capacity(n);
    let mut first: i64 = start as i64;
    let mut c: usize = 0;
    while c < n
        invariant
            c <= n,
            n == chunks@.len(),
            views == chunk_views(chunks@),
            ids@ == seq![sequence_id],
            batch.wf(),
            batch.spec_capacity() == old(batch).spec_capacity(),
            batch.spec_max_seqs() == old(batch).spec_max_seqs(),
            text_total(views, n as int) > 0 ==> batch.spec_max_seqs() >= 1,
            old(batch)@.len() + text_total(views, n as int) <= batch.spec_capacity(),
            start_of(views, use_mrope, start as int, n as int) <= i32::MAX,
            first == start_of(views, use_mrope, start as int, c as int),
            batch@ == old(batch)@ + text_entries(views, use_mrope, start as int, sequence_id, c as int),
            placements@.len() == c,
            forall|j: int|
                0 <= j < c ==> (#[trigger] placements@[j]) == placement_of(
                    views,
                    use_mrope,
                    start as int,
                    j,
                ),
        decreases n - c,
    {
        assert(views[c as int] == chunks@[c as int]@);
        proof {
            lemma_start_of_monotone(views, use_mrope, start as int, sequence_id, c as int, n as int);
            lemma_start_of_monotone(views, use_mrope, start as int, sequence_id, c + 1, n as int);
            lemma_start_of_monotone(views, use_mrope, start as int, sequence_id, 0, c as int);
        }
        let ghost before = batch@;
        let ghost added = chunk_entries(views[c as int], first as int, sequence_id);
        match &chunks[c] {
            Chunk::Text { tokens } => {
                let len = tokens.len();
                let mut i: usize = 0;
                while i < len
                    invariant
                        i <= len,
                        len == tokens@.len(),
                        views[c as int] == (ChunkView::Text { tokens: tokens@ }),
                        added == chunk_entries(views[c as int], first as int, sequence_id),
                        ids@ == seq![sequence_id],
                        batch.wf(),
                        batch.spec_capacity() == old(batch).spec_capacity(),
                        batch.spec_max_seqs() == old(batch).spec_max_seqs(),
                        len > 0 ==> batch.spec_max_seqs() >= 1,
                        c < n,
                        n == chunks@.len(),
                        views == chunk_views(chunks@),
                        before.len() + len <= batch.spec_capacity(),
                        first + len <= i32::MAX,
                        i32::MIN <= first,
                        batch@ == before + added.take(i as int),
                    decreases len - i,
                {
                    let r = batch.add(tokens[i], (first + i as i64) as i32, ids.as_slice(), false);
                    assert(r is Ok);
                    assert(batch@ =~= before + added.take(i + 1)) by {
                        assert(added.take(i + 1) =~= added.take(i as int).push(added[i as int]));
                    }
                    i += 1;
                }
                assert(added.take(len as int) =~= added);
                placements.push(
                    Placement { first_position: first as i32, n_tokens: len, shared_position: false },
                );
                first = first + len as i64;
            },
            Chunk::Image { n_tokens, n_pos } => {
                assert(batch@ =~= before + added);
                placements.push(
                    Placement {
                        first_position: first as i32,
                        n_tokens: *n_tokens,
                        shared_position: use_mrope,
                    },
                );
                first = first + if use_mrope {
                    *n_pos as i64
                } else {
                    *n_tokens as i64
                };
            },
            Chunk::Audio { n_tokens, n_pos } => {
                assert(batch@ =~= before + added);
                placements.push(
                    Placement {
                        first_position: first as i32,
                        n_tokens: *n_tokens,
                        shared_position: use_mrope,
                    },
                );
                first = first + if use_mrope {
                    *n_pos as i64
                } else {
                    *n_tokens as i64
                };
            },
        }
        assert(batch@ =~= old(batch)@ + text_entries(
            views,
            use_mrope,
            start as int,
            sequence_id,
            c + 1,
        ));
        c += 1;
    }
    Ok(placements)
}

} // verus!
