//! The bounded buffer of tokens that one decode call consumes.

use vstd::prelude::*;
use crate::token::LlamaToken;

verus! {

/// One slot of a batch: a token, the sequences it belongs to, its position in
/// those sequences, and whether the engine should compute logits for it.
#[derive(Debug)]
pub struct TokenEntry {
    pub token: LlamaToken,
    pub sequence_ids: Vec<i32>,
    pub position: i32,
    pub wants_logits: bool,
}

/// Mathematical value of a [`TokenEntry`].
pub struct EntryView {
    pub token: LlamaToken,
    pub sequence_ids: Seq<i32>,
    pub position: i32,
    pub wants_logits: bool,
}

impl View for TokenEntry {
    type V = EntryView;

    open spec fn view(&self) -> EntryView {
        EntryView {
            token: self.token,
            sequence_ids: self.sequence_ids@,
            position: self.position,
            wants_logits: self.wants_logits,
        }
    }
}

/// Why a batch refused an addition. Nothing was added when this is returned.
#[derive(Clone, Copy, Debug, PartialEq, Eq, Structural)]
pub enum CapacityExceeded {
    /// More entries were offered than there are free slots.
    Slots { free: usize, requested: usize },
    /// An entry named more sequences than one entry may carry.
    SequenceIds { max: usize, requested: usize },
    /// The positions of chunk `chunk` would leave the range of positions.
    Positions { chunk: usize },
}

/// The sequence ids that occur anywhere in `entries`.
pub open spec fn ids_of(entries: Seq<EntryView>) -> Set<i32> {
    Set::new(
        |s: i32|
            exists|i: int|
                0 <= i < entries.len() && #[trigger] entries[i].sequence_ids.contains(s),
    )
}

/// What adding `e` does to a batch that holds `entries`: the new contents, or
/// the refusal. A full batch refuses first; then an entry with too many
/// sequence ids is refused.
pub open spec fn add_outcome(
    entries: Seq<EntryView>,
    capacity: nat,
    max_seqs: nat,
    e: EntryView,
) -> Result<Seq<EntryView>, CapacityExceeded> {
    if entries.len() >= capacity {
        Err(CapacityExceeded::Slots { free: 0, requested: 1 })
    } else if e.sequence_ids.len() > max_seqs {
        Err(
            CapacityExceeded::SequenceIds {
                max: max_seqs as usize,
                requested: e.sequence_ids.len() as usize,
            },
        )
    } else {
        Ok(entries.push(e))
    }
}

/// What adding a whole sequence of `n` tokens does: it fits entirely or is
/// refused entirely.
pub open spec fn add_sequence_outcome(
    entries: Seq<EntryView>,
    capacity: nat,
    max_seqs: nat,
    appended: Seq<EntryView>,
) -> Result<Seq<EntryView>, CapacityExceeded> {
    if entries.len() + appended.len() > capacity {
        Err(
            CapacityExceeded::Slots {
                free: (capacity - entries.len()) as usize,
                requested: appended.len() as usize,
            },
        )
    } else if appended.len() > 0 && max_seqs == 0 {
        Err(CapacityExceeded::SequenceIds { max: 0, requested: 1 })
    } else {
        Ok(entries + appended)
    }
}

/// The contents of a batch after the calls `calls` of `add`, made in order on
/// a batch that held `entries`; refused calls leave the contents as they were.
pub open spec fn after_adds(
    entries: Seq<EntryView>,
    capacity: nat,
    max_seqs: nat,
    calls: Seq<EntryView>,
) -> Seq<EntryView>
    decreases calls.len(),
{
    if calls.len() == 0 {
        entries
    } else {
        let next = match add_outcome(entries, capacity, max_seqs, calls[0]) {
            Ok(grown) => grown,
            Err(_) => entries,
        };
        after_adds(next, capacity, max_seqs, calls.drop_first())
    }
}

/// How many of the calls `calls` of `add`, made in order, succeed.
pub open spec fn successful_adds(
    entries: Seq<EntryView>,
    capacity: nat,
    max_seqs: nat,
    calls: Seq<EntryView>,
) -> nat
    decreases calls.len(),
{
    if calls.len() == 0 {
        0
    } else {
        match add_outcome(entries, capacity, max_seqs, calls[0]) {
            Ok(grown) => 1 + successful_adds(grown, capacity, max_seqs, calls.drop_first()),
            Err(_) => successful_adds(entries, capacity, max_seqs, calls.drop_first()),
        }
    }
}

/// The length of a batch grows by exactly the number of successful adds, and
/// never beyond the capacity it started under.
pub proof fn lemma_len_counts_successful_adds(
    entries: Seq<EntryView>,
    capacity: nat,
    max_seqs: nat,
    calls: Seq<EntryView>,
)
    requires
        entries.len() <= capacity,
    ensures
        after_adds(entries, capacity, max_seqs, calls).len() == entries.len() + successful_adds(
            entries,
            capacity,
            max_seqs,
            calls,
        ),
        after_adds(entries, capacity, max_seqs, calls).len() <= capacity,
    decreases calls.len(),
{
    if calls.len() > 0 {
        match add_outcome(entries, capacity, max_seqs, calls[0]) {
            Ok(grown) => lemma_len_counts_successful_adds(
                grown,
                capacity,
                max_seqs,
                calls.drop_first(),
            ),
            Err(_) => lemma_len_counts_successful_adds(
                entries,
                capacity,
                max_seqs,
                calls.drop_first(),
            ),
        }
    }
}

/// When the calls fit into the free slots and none names too many sequences,
/// every one of them succeeds and the batch holds the old entries followed by
/// the new ones.
pub proof fn lemma_adds_within_capacity_all_succeed(
    entries: Seq<EntryView>,
    capacity: nat,
    max_seqs: nat,
    calls: Seq<EntryView>,
)
    requires
        entries.len() + calls.len() <= capacity,
        forall|i: int| 0 <= i < calls.len() ==> (#[trigger] calls[i]).sequence_ids.len() <= max_seqs,
    ensures
        successful_adds(entries, capacity, max_seqs, calls) == calls.len(),
        after_adds(entries, capacity, max_seqs, calls) == entries + calls,
    decreases calls.len(),
{
    if calls.len() == 0 {
        assert(entries + calls =~= entries);
    } else {
        let grown = entries.push(calls[0]);
        let rest = calls.drop_first();
        assert forall|i: int| 0 <= i < rest.len() implies (#[trigger] rest[i]).sequence_ids.len()
            <= max_seqs by {
            assert(rest[i] == calls[i + 1]);
        }
        lemma_adds_within_capacity_all_succeed(grown, capacity, max_seqs, rest);
        assert(grown + rest =~= entries + calls);
    }
}

/// The entries that `add_sequence` appends for `tokens` on `sequence_id`:
/// positions count up from zero and only the last entry may request logits.
pub open spec fn sequence_entries(
    tokens: Seq<LlamaToken>,
    sequence_id: i32,
    wants_logits_on_last: bool,
) -> Seq<EntryView> {
    Seq::new(
        tokens.len(),
        |i: int|
            EntryView {
                token: tokens[i],
                sequence_ids: seq![sequence_id],
                position: i as i32,
                wants_logits: wants_logits_on_last && i == tokens.len() - 1,
            },
    )
}

/// Adding a whole sequence that fits does what adding its tokens one by one
/// does: every single add succeeds and the contents are the same.
pub proof fn lemma_add_sequence_is_repeated_add(
    entries: Seq<EntryView>,
    capacity: nat,
    max_seqs: nat,
    tokens: Seq<LlamaToken>,
    sequence_id: i32,
    wants_logits_on_last: bool,
)
    requires
        add_sequence_outcome(
            entries,
            capacity,
            max_seqs,
            sequence_entries(tokens, sequence_id, wants_logits_on_last),
        ) is Ok,
    ensures
        ({
            let calls = sequence_entries(tokens, sequence_id, wants_logits_on_last);
            &&& add_sequence_outcome(entries, capacity, max_seqs, calls) == Ok::<
                Seq<EntryView>,
                CapacityExceeded,
            >(after_adds(entries, capacity, max_seqs, calls))
            &&& successful_adds(entries, capacity, max_seqs, calls) == tokens.len()
        }),
{
    let calls = sequence_entries(tokens, sequence_id, wants_logits_on_last);
    assert forall|i: int| 0 <= i < calls.len() implies (#[trigger] calls[i]).sequence_ids.len()
        <= max_seqs by {
        assert(calls[i].sequence_ids =~= seq![sequence_id]);
    }
    lemma_adds_within_capacity_all_succeed(entries, capacity, max_seqs, calls);
}

/// A fixed-capacity, reusable buffer of [`TokenEntry`] values.
#[derive(Debug)]
pub struct TokenBatch {
    capacity: usize,
    max_seqs: usize,
    entries: Vec<TokenEntry>,
    /// The distinct sequence ids of `entries`, in order of first appearance.
    sequences: Vec<i32>,
}

impl View for TokenBatch {
    type V = Seq<EntryView>;

    closed spec fn view(&self) -> Seq<EntryView> {
        self.entries@.map_values(|e: TokenEntry| e@)
    }
}

proof fn lemma_ids_of_push(entries: Seq<EntryView>, e: EntryView)
    ensures
        ids_of(entries.push(e)) =~= ids_of(entries).union(e.sequence_ids.to_set()),
{
    let bigger = entries.push(e);
    assert forall|s: i32| ids_of(bigger).contains(s) implies ids_of(entries).union(
        e.sequence_ids.to_set(),
    ).contains(s) by {
        let i = choose|i: int| 0 <= i < bigger.len() && #[trigger] bigger[i].sequence_ids.contains(s);
        if i < entries.len() {
            assert(entries[i].sequence_ids.contains(s));
        }
    }
    assert forall|s: i32|
        ids_of(entries).union(e.sequence_ids.to_set()).contains(s) implies ids_of(bigger).contains(
        s,
    ) by {
        if ids_of(entries).contains(s) {
            let i = choose|i: int|
                0 <= i < entries.len() && #[trigger] entries[i].sequence_ids.contains(s);
            assert(bigger[i].sequence_ids.contains(s));
        } else {
            assert(bigger[entries.len() as int].sequence_ids.contains(s));
        }
    }
}

impl TokenBatch {
    /// The invariant every batch satisfies.
    pub closed spec fn wf(&self) -> bool {
        &&& self.capacity <= i32::MAX
        &&& self.entries@.len() <= self.capacity
        &&& self.sequences@.no_duplicates()
        &&& self.sequences@.to_set() =~= ids_of(self@)
    }

    /// Number of token slots.
    pub closed spec fn spec_capacity(&self) -> nat {
        self.capacity as nat
    }

    /// Largest number of sequence ids one entry may carry, and the number of
    /// distinct sequences at which the batch counts as full.
    pub closed spec fn spec_max_seqs(&self) -> nat {
        self.max_seqs as nat
    }

    /// Whether no further sequence or token should be added.
    pub open spec fn spec_is_full(&self) -> bool {
        self@.len() == self.spec_capacity() || ids_of(self@).len() == self.spec_max_seqs()
    }

    /// A batch never holds more entries than it has slots, and the slots
    /// can be numbered by positions.
    pub proof fn lemma_len_within_capacity(&self)
        requires
            self.wf(),
        ensures
            self@.len() <= self.spec_capacity() <= i32::MAX,
    {
    }

    /// Creates an empty batch with room for `capacity` entries.
    pub fn new(capacity: usize, max_seqs: usize) -> (batch: TokenBatch)
        requires
            capacity <= i32::MAX,
        ensures
            batch.wf(),
            batch@ == Seq::<EntryView>::empty(),
            batch.spec_capacity() == capacity,
            batch.spec_max_seqs() == max_seqs,
    {
        let batch = TokenBatch {
            capacity,
            max_seqs,
            entries: Vec::with_capacity(capacity),
            sequences: Vec::new(),
        };
        assert(batch@ =~= Seq::<EntryView>::empty());
        batch
    }

    /// Number of token slots, fixed at construction.
    pub fn capacity(&self) -> (n: usize)
        ensures
            n == self.spec_capacity(),
    {
        self.capacity
    }

    /// Sequence-id limit, fixed at construction.
    pub fn max_seqs(&self) -> (n: usize)
        ensures
            n == self.spec_max_seqs(),
    {
        self.max_seqs
    }

    /// Number of entries currently held.
    pub fn len(&self) -> (n: usize)
        ensures
            n == self@.len(),
    {
        self.entries.len()
    }

    /// Whether the batch holds no entry.
    pub fn is_empty(&self) -> (b: bool)
        ensures
            b == (self@.len() == 0),
    {
        self.entries.len() == 0
    }

    /// Whether every slot is taken or the number of distinct sequences has
    /// reached the sequence limit.
    pub fn is_full(&self) -> (b: bool)
        requires
            self.wf(),
        ensures
            b == self.spec_is_full(),
    {
        proof {
            self.sequences@.unique_seq_to_set();
        }
        self.entries.len() == self.capacity || self.sequences.len() == self.max_seqs
    }

    /// Number of distinct sequences that have at least one entry.
    pub fn sequence_count(&self) -> (n: usize)
        requires
            self.wf(),
        ensures
            n == ids_of(self@).len(),
            ids_of(self@).finite(),
    {
        proof {
            self.sequences@.unique_seq_to_set();
        }
        self.sequences.len()
    }

    /// The entry in slot `index`.
    pub fn entry(&self, index: usize) -> (e: &TokenEntry)
        requires
            index < self@.len(),
        ensures
            e@ == self@[index as int],
    {
        &self.entries[index]
    }

    /// Removes every entry and keeps the storage for the next fill.
    pub fn clear(&mut self)
        requires
            old(self).wf(),
        ensures
            final(self).wf(),
            final(self)@ == Seq::<EntryView>::empty(),
            final(self).spec_capacity() == old(self).spec_capacity(),
            final(self).spec_max_seqs() == old(self).spec_max_seqs(),
    {
        self.entries.clear();
        self.sequences.clear();
        assert(self@ =~= Seq::<EntryView>::empty());
        assert(self.sequences@.to_set() =~= ids_of(self@));
    }

    /// Records `id` among the distinct sequences unless it is there already.
    fn note_sequence(sequences: &mut Vec<i32>, id: i32)
        requires
            old(sequences)@.no_duplicates(),
        ensures
            final(sequences)@.no_duplicates(),
            final(sequences)@.to_set() =~= old(sequences)@.to_set().insert(id),
    {
        let mut i: usize = 0;
        while i < sequences.len()
            invariant
                i <= sequences.len(),
                *sequences == *old(sequences),
                sequences@.no_duplicates(),
                forall|k: int| 0 <= k < i ==> sequences@[k] != id,
            decreases sequences.len() - i,
        {
            if sequences[i] == id {
                assert(sequences@.contains(id));
                return ;
            }
            i += 1;
        }
        assert(!sequences@.contains(id));
        let ghost before = sequences@;
        sequences.push(id);
        assert forall|a: int, b: int|
            0 <= a < sequences@.len() && 0 <= b < sequences@.len() && a != b implies sequences@[a]
            != sequences@[b] by {
            if a < before.len() && b < before.len() {
            } else if a < before.len() {
                assert(before.contains(before[a]));
            } else {
                assert(before.contains(before[b]));
            }
        }
        assert forall|s: i32| sequences@.to_set().contains(s) <==> before.to_set().insert(
            id,
        ).contains(s) by {
            if sequences@.contains(s) {
                let k = choose|k: int| 0 <= k < sequences@.len() && sequences@[k] == s;
                if k < before.len() {
                    assert(before.contains(s));
                }
            }
            if before.contains(s) {
                let k = choose|k: int| 0 <= k < before.len() && before[k] == s;
                assert(sequences@[k] == s);
            }
            if s == id {
                assert(sequences@[before.len() as int] == id);
            }
        }
    }

    /// Appends one entry.
    ///
    /// Fails, leaving the batch untouched, when every slot is taken or when
    /// `sequence_ids` names more sequences than an entry may carry.
    pub fn add(
        &mut self,
        token: LlamaToken,
        position: i32,
        sequence_ids: &[i32],
        wants_logits: bool,
    ) -> (r: Result<(), CapacityExceeded>)
        requires
            old(self).wf(),
            sequence_ids@.len() > 0,
        ensures
            final(self).wf(),
            final(self).spec_capacity() == old(self).spec_capacity(),
            final(self).spec_max_seqs() == old(self).spec_max_seqs(),
            match add_outcome(
                old(self)@,
                old(self).spec_capacity(),
                old(self).spec_max_seqs(),
                EntryView { token, sequence_ids: sequence_ids@, position, wants_logits },
            ) {
                Ok(grown) => r is Ok && final(self)@ == grown,
                Err(refusal) => r == Err::<(), CapacityExceeded>(refusal),
            },
            r is Err ==> *final(self) == *old(self),
    {
        if self.entries.len() == self.capacity {
            return Err(CapacityExceeded::Slots { free: 0, requested: 1 });
        }
        if sequence_ids.len() > self.max_seqs {
            return Err(
                CapacityExceeded::SequenceIds { max: self.max_seqs, requested: sequence_ids.len() },
            );
        }
        let ghost before = self@;
        let ghost entry = EntryView { token, sequence_ids: sequence_ids@, position, wants_logits };
        let mut ids: Vec<i32> = Vec::with_capacity(sequence_ids.len());
        let mut j: usize = 0;
        while j < sequence_ids.len()
            invariant
                j <= sequence_ids@.len(),
                ids@ == sequence_ids@.take(j as int),
                self.sequences@.no_duplicates(),
                self.sequences@.to_set() =~= ids_of(before).union(
                    sequence_ids@.take(j as int).to_set(),
                ),
                self@ == before,
                self.entries == old(self).entries,
                self.capacity == old(self).capacity,
                self.max_seqs == old(self).max_seqs,
            decreases sequence_ids@.len() - j,
        {
            let id = sequence_ids[j];
            ids.push(id);
            Self::note_sequence(&mut self.sequences, id);
            proof {
                let shorter = sequence_ids@.take(j as int);
                let longer = sequence_ids@.take(j + 1);
                assert(longer =~= shorter.push(id));
                assert forall|s: i32| longer.to_set().contains(s) <==> shorter.to_set().insert(
                    id,
                ).contains(s) by {
                    if longer.contains(s) {
                        let k = choose|k: int| 0 <= k < longer.len() && longer[k] == s;
                        if k < shorter.len() {
                            assert(shorter[k] == s);
                        }
                    }
                    if shorter.contains(s) {
                        let k = choose|k: int| 0 <= k < shorter.len() && shorter[k] == s;
                        assert(longer[k] == s);
                    }
                    if s == id {
                        assert(longer[j as int] == id);
                    }
                }
            }
            j += 1;
        }
        assert(sequence_ids@.take(sequence_ids@.len() as int) =~= sequence_ids@);
        self.entries.push(TokenEntry { token, sequence_ids: ids, position, wants_logits });
        proof {
            assert(self@ =~= before.push(entry));
            lemma_ids_of_push(before, entry);
        }
        Ok(())
    }

    /// Appends a whole sequence on `sequence_id`, at positions counting up
    /// from zero. Only the last entry requests logits, and only when
    /// `wants_logits_on_last` is set.
    ///
    /// Fails, leaving the batch untouched, unless every token fits.
    pub fn add_sequence(
        &mut self,
        tokens: &[LlamaToken],
        sequence_id: i32,
        wants_logits_on_last: bool,
    ) -> (r: Result<(), CapacityExceeded>)
        requires
            old(self).wf(),
        ensures
            final(self).wf(),
            final(self).spec_capacity() == old(self).spec_capacity(),
            final(self).spec_max_seqs() == old(self).spec_max_seqs(),
            match add_sequence_outcome(
                old(self)@,
                old(self).spec_capacity(),
                old(self).spec_max_seqs(),
                sequence_entries(tokens@, sequence_id, wants_logits_on_last),
            ) {
                Ok(grown) => r is Ok && final(self)@ == grown,
                Err(refusal) => r == Err::<(), CapacityExceeded>(refusal),
            },
            r is Err ==> *final(self) == *old(self),
    {
        let n = tokens.len();
        let free = self.capacity - self.entries.len();
        if n > free {
            return Err(CapacityExceeded::Slots { free, requested: n });
        }
        if n > 0 && self.max_seqs == 0 {
            return Err(CapacityExceeded::SequenceIds { max: 0, requested: 1 });
        }
        let ghost appended = sequence_entries(tokens@, sequence_id, wants_logits_on_last);
        let ids: Vec<i32> = vec![sequence_id];
        let mut i: usize = 0;
        while i < n
            invariant
                i <= n,
                n == tokens@.len(),
                n > 0 ==> self.spec_max_seqs() >= 1,
                self.wf(),
                old(self)@.len() + n <= self.spec_capacity(),
                self.spec_capacity() == old(self).spec_capacity(),
                self.spec_max_seqs() == old(self).spec_max_seqs(),
                self.spec_capacity() <= i32::MAX,
                ids@ == seq![sequence_id],
                appended == sequence_entries(tokens@, sequence_id, wants_logits_on_last),
                self@ == old(self)@ + appended.take(i as int),
            decreases n - i,
        {
            let ghost before = self@;
            let r = self.add(tokens[i], i as i32, ids.as_slice(), wants_logits_on_last && i == n - 1);
            assert(r is Ok);
            assert(self@ =~= old(self)@ + appended.take(i + 1)) by {
                assert(appended.take(i + 1) =~= appended.take(i as int).push(appended[i as int]));
            }
            i += 1;
        }
        assert(appended.take(n as int) =~= appended);
        Ok(())
    }
}

} // verus!
