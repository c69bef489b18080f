//! Assembly of streamed token bytes into text.
//!
//! A token's bytes may stop in the middle of a multi-byte character. The
//! assembler holds such a tail back until the next token completes it and
//! hands everything before it to the decoder.

use vstd::prelude::*;
use vstd::utf8::*;

verus! {

/// The number of bytes that a sequence starting with `lead` announces; one
/// for a byte that starts no multi-byte sequence.
pub open spec fn announced_width(lead: u8) -> int {
    if is_leading_byte_width_2(lead) {
        2
    } else if is_leading_byte_width_3(lead) {
        3
    } else if is_leading_byte_width_4(lead) {
        4
    } else {
        1
    }
}

/// Whether `tail` is the beginning of a multi-byte sequence that needs more
/// bytes: a leading byte followed by continuation bytes, fewer than the
/// leading byte announces.
pub open spec fn is_partial(tail: Seq<u8>) -> bool {
    &&& 1 <= tail.len() < announced_width(tail[0])
    &&& (tail.len() >= 2 ==> is_continuation_byte(tail[1]))
    &&& (tail.len() >= 3 ==> is_continuation_byte(tail[2]))
}

/// The length of the unfinished sequence at the end of `bytes`, zero when
/// `bytes` ends with a finished one.
pub open spec fn pending_len(bytes: Seq<u8>) -> int {
    let n = bytes.len() as int;
    if n >= 1 && is_partial(bytes.subrange(n - 1, n)) {
        1
    } else if n >= 2 && is_partial(bytes.subrange(n - 2, n)) {
        2
    } else if n >= 3 && is_partial(bytes.subrange(n - 3, n)) {
        3
    } else {
        0
    }
}

/// The text that `encoding_rs` gives for `bytes` taken as complete UTF-8
/// input, each malformed sequence replaced by U+FFFD.
pub uninterp spec fn utf8_lossy_text(bytes: Seq<u8>) -> Seq<char>;

/// The text of `bytes`: their characters where they are valid UTF-8, the
/// decoder's replacement text otherwise.
pub open spec fn decoded_text(bytes: Seq<u8>) -> Seq<char> {
    if valid_utf8(bytes) {
        decode_utf8(bytes)
    } else {
        utf8_lossy_text(bytes)
    }
}

/// The bytes an assembler holds back after `bytes` arrived while it held `pending`.
pub open spec fn push_pending(pending: Seq<u8>, bytes: Seq<u8>) -> Seq<u8> {
    let all = pending + bytes;
    all.subrange(all.len() - pending_len(all), all.len() as int)
}

/// The text an assembler emits when `bytes` arrive while it holds `pending`.
pub open spec fn push_text(pending: Seq<u8>, bytes: Seq<u8>) -> Seq<char> {
    let all = pending + bytes;
    decoded_text(all.subrange(0, all.len() - pending_len(all)))
}

/// Calls `encoding_rs::UTF_8.decode_without_bom_handling` and keeps the text.
/// Trusted: the text is a function of the bytes alone, and for valid UTF-8
/// it is the decoded characters. The size bound keeps the decoder's buffer
/// computations, at most three output bytes per input byte and fifteen
/// more, within `usize`; beyond it the decoder panics.
#[verifier::external_body]
fn decode_lossy(bytes: &[u8]) -> (text: String)
    requires
        3 * bytes@.len() + 15 <= usize::MAX,
    ensures
        text@ == utf8_lossy_text(bytes@),
        valid_utf8(bytes@) ==> text@ == decode_utf8(bytes@),
{
    encoding_rs::UTF_8.decode_without_bom_handling(bytes).0.into_owned()
}

fn width_of(lead: u8) -> (w: usize)
    ensures
        w == announced_width(lead),
{
    if 0xc0 <= lead && lead <= 0xdf {
        2
    } else if 0xe0 <= lead && lead <= 0xef {
        3
    } else if 0xf0 <= lead && lead <= 0xf7 {
        4
    } else {
        1
    }
}

fn is_continuation(byte: u8) -> (b: bool)
    ensures
        b == is_continuation_byte(byte),
{
    0x80 <= byte && byte <= 0xbf
}

/// Length of the unfinished multi-byte sequence at the end of `bytes`.
pub fn incomplete_tail_len(bytes: &[u8]) -> (k: usize)
    ensures
        k == pending_len(bytes@),
        k <= 3,
        k <= bytes@.len(),
{
    let n = bytes.len();
    if n >= 1 && width_of(bytes[n - 1]) > 1 {
        return 1;
    }
    if n >= 2 && width_of(bytes[n - 2]) > 2 && is_continuation(bytes[n - 1]) {
        return 2;
    }
    if n >= 3 && width_of(bytes[n - 3]) > 3 && is_continuation(bytes[n - 2]) && is_continuation(
        bytes[n - 1],
    ) {
        return 3;
    }
    0
}

/// Incremental UTF-8 assembler: the bytes of an unfinished character wait
/// here for the rest.
#[derive(Debug)]
pub struct Utf8Assembler {
    pending: Vec<u8>,
}

impl View for Utf8Assembler {
    type V = Seq<u8>;

    closed spec fn view(&self) -> Seq<u8> {
        self.pending@
    }
}

impl Utf8Assembler {
    /// At most three bytes ever wait.
    pub open spec fn wf(&self) -> bool {
        self@.len() <= 3
    }

    /// An assembler that holds nothing back.
    pub fn new() -> (assembler: Utf8Assembler)
        ensures
            assembler.wf(),
            assembler@ == Seq::<u8>::empty(),
    {
        Utf8Assembler { pending: Vec::new() }
    }

    /// The bytes currently held back.
    pub fn pending(&self) -> (bytes: &[u8])
        ensures
            bytes@ == self@,
    {
        self.pending.as_slice()
    }

    /// Takes the bytes of one more token and returns the text that is now
    /// complete; an unfinished tail waits for the next call.
    pub fn push(&mut self, bytes: &[u8]) -> (text: String)
        requires
            old(self).wf(),
            bytes@.len() <= usize::MAX / 4,
        ensures
            final(self).wf(),
            final(self)@ == push_pending(old(self)@, bytes@),
            text@ == push_text(old(self)@, bytes@),
    {
        let mut all: Vec<u8> = Vec::new();
        let mut i: usize = 0;
        while i < self.pending.len()
            invariant
                i <= self.pending@.len(),
                all@ == self.pending@.take(i as int),
            decreases self.pending@.len() - i,
        {
            all.push(self.pending[i]);
            assert(self.pending@.take(i + 1) =~= self.pending@.take(i as int).push(
                self.pending@[i as int],
            ));
            i += 1;
        }
        assert(self.pending@.take(self.pending@.len() as int) =~= self.pending@);
        let mut j: usize = 0;
        while j < bytes.len()
            invariant
                j <= bytes@.len(),
                all@ == self.pending@ + bytes@.take(j as int),
            decreases bytes@.len() - j,
        {
            all.push(bytes[j]);
            assert(bytes@.take(j + 1) =~= bytes@.take(j as int).push(bytes@[j as int]));
            assert(all@ =~= self.pending@ + bytes@.take(j + 1));
            j += 1;
        }
        assert(bytes@.take(bytes@.len() as int) =~= bytes@);
        let n = all.len();
        let k = incomplete_tail_len(all.as_slice());
        let cut = n - k;
        let text = decode_lossy(vstd::slice::slice_subrange(all.as_slice(), 0, cut));
        let mut tail: Vec<u8> = Vec::new();
        let mut t: usize = cut;
        while t < n
            invariant
                cut <= t <= n,
                n == all@.len(),
                tail@ == all@.subrange(cut as int, t as int),
            decreases n - t,
        {
            tail.push(all[t]);
            assert(all@.subrange(cut as int, t + 1) =~= all@.subrange(cut as int, t as int).push(
                all@[t as int],
            ));
            t += 1;
        }
        self.pending = tail;
        text
    }
}

/// Behind the first character of a valid text, a tail of `j` bytes before
/// `i` is unfinished exactly when it lies in the rest of the text and is
/// unfinished there.
proof fn lemma_tail_past_first_scalar(s: Seq<u8>, i: int, j: int)
    requires
        valid_utf8(s),
        s.len() > 0,
        length_of_first_scalar(s) <= i <= s.len(),
        1 <= j <= 3,
    ensures
        ({
            let w = length_of_first_scalar(s);
            let a = s.subrange(0, i);
            let ra = pop_first_scalar(s).subrange(0, i - w);
            (j <= i && is_partial(a.subrange(i - j, i))) <==> (j <= i - w && is_partial(
                ra.subrange(i - w - j, i - w),
            ))
        }),
{
    let w = length_of_first_scalar(s);
    let a = s.subrange(0, i);
    let ri = i - w;
    let ra = pop_first_scalar(s).subrange(0, ri);
    assert(valid_first_scalar(s));
    if j <= ri {
        assert(a.subrange(i - j, i) =~= ra.subrange(ri - j, ri));
    } else if j <= i {
        let t = a.subrange(i - j, i);
        assert(t[0] == s[i - j]);
        if i - j >= 1 {
            assert(is_continuation_byte(s[i - j]));
        } else {
            assert(t.len() == i);
        }
    }
}

/// Inside a valid text, a cut at `i` leaves exactly the started character
/// pending: the text splits at a character boundary `i - pending_len`.
proof fn lemma_pending_reaches_boundary(s: Seq<u8>, i: int)
    requires
        valid_utf8(s),
        0 <= i <= s.len(),
    ensures
        0 <= pending_len(s.subrange(0, i)) <= i,
        is_char_boundary(s, i - pending_len(s.subrange(0, i))),
        pending_len(s.subrange(0, i)) > 0 ==> is_partial(
            s.subrange(i - pending_len(s.subrange(0, i)), i),
        ),
    decreases s.len(),
{
    let a = s.subrange(0, i);
    if i == 0 {
    } else {
        let w = length_of_first_scalar(s);
        assert(valid_first_scalar(s));
        assert(1 <= w <= 4 && w <= s.len());
        if i < w {
            assert(a.subrange(0, i) =~= a);
            assert(is_partial(a.subrange(i - i, i)));
            if i >= 2 {
                assert(!is_partial(a.subrange(i - 1, i)));
            }
            if i >= 3 {
                assert(!is_partial(a.subrange(i - 2, i)));
            }
            assert(pending_len(a) == i);
            assert(s.subrange(0, i) =~= a.subrange(0, i));
        } else {
            let rest = pop_first_scalar(s);
            let ri = i - w;
            let ra = rest.subrange(0, ri);
            lemma_pending_reaches_boundary(rest, ri);
            lemma_tail_past_first_scalar(s, i, 1);
            lemma_tail_past_first_scalar(s, i, 2);
            lemma_tail_past_first_scalar(s, i, 3);
            assert(pending_len(a) == pending_len(ra));
            let k = pending_len(ra);
            assert(is_char_boundary(rest, ri - k));
            assert(is_char_boundary(s, i - k)) by {
                reveal_with_fuel(is_char_boundary, 2);
            }
            if k > 0 {
                assert(s.subrange(i - k, i) =~= rest.subrange(ri - k, ri));
                assert(ra.subrange(ri - k, ri) =~= rest.subrange(ri - k, ri));
            }
        }
    }
}

/// A valid text ends with a finished character: nothing of it is held back.
pub proof fn lemma_valid_text_leaves_nothing_pending(s: Seq<u8>)
    requires
        valid_utf8(s),
    ensures
        pending_len(s) == 0,
{
    let n = s.len() as int;
    lemma_pending_reaches_boundary(s, n);
    assert(s.subrange(0, n) =~= s);
    let k = pending_len(s);
    if k > 0 {
        valid_utf8_split(s, n - k);
        let tail = s.subrange(n - k, n);
        assert(valid_first_scalar(tail));
        assert(length_of_first_scalar(tail) <= tail.len());
    }
}

/// Feeding a valid text in one piece emits all of it and holds nothing back.
pub proof fn lemma_push_whole_text(s: Seq<u8>)
    requires
        valid_utf8(s),
    ensures
        push_text(Seq::<u8>::empty(), s) == decode_utf8(s),
        push_pending(Seq::<u8>::empty(), s) == Seq::<u8>::empty(),
{
    let all = Seq::<u8>::empty() + s;
    assert(all =~= s);
    lemma_valid_text_leaves_nothing_pending(s);
    assert(s.subrange(0, s.len() as int) =~= s);
    assert(s.subrange(s.len() as int, s.len() as int) =~= Seq::<u8>::empty());
}

/// Feeding a valid text in two pieces, cut at any byte `i`, emits the same
/// text as feeding it whole, decodes only valid input both times, and holds
/// nothing back at the end.
pub proof fn lemma_push_split_text(s: Seq<u8>, i: int)
    requires
        valid_utf8(s),
        0 <= i <= s.len(),
    ensures
        ({
            let first = s.subrange(0, i);
            let second = s.subrange(i, s.len() as int);
            let held = push_pending(Seq::<u8>::empty(), first);
            &&& push_text(Seq::<u8>::empty(), first) + push_text(held, second) == decode_utf8(s)
            &&& push_pending(held, second) == Seq::<u8>::empty()
            &&& valid_utf8(first.subrange(0, first.len() - pending_len(first)))
            &&& valid_utf8(held + second)
        }),
{
    let n = s.len() as int;
    let first = s.subrange(0, i);
    let second = s.subrange(i, n);
    assert(Seq::<u8>::empty() + first =~= first);
    lemma_pending_reaches_boundary(s, i);
    let k = pending_len(first);
    let cut = i - k;
    let held = push_pending(Seq::<u8>::empty(), first);
    assert(held =~= s.subrange(cut, i));
    assert(first.subrange(0, cut) =~= s.subrange(0, cut));
    valid_utf8_split(s, cut);
    decode_utf8_split(s, cut);
    let rest = held + second;
    assert(rest =~= s.subrange(cut, n));
    lemma_valid_text_leaves_nothing_pending(rest);
    assert(rest.subrange(0, rest.len() as int) =~= rest);
    assert(rest.subrange(rest.len() as int, rest.len() as int) =~= Seq::<u8>::empty());
    assert(push_text(Seq::<u8>::empty(), first) == decode_utf8(s.subrange(0, cut)));
    assert(push_text(held, second) == decode_utf8(rest));
}

/// All bytes of `pieces`, one piece after the other.
pub open spec fn joined(pieces: Seq<Seq<u8>>) -> Seq<u8>
    decreases pieces.len(),
{
    if pieces.len() == 0 {
        Seq::empty()
    } else {
        pieces[0] + joined(pieces.drop_first())
    }
}

/// The text an assembler that holds `pending` emits over the pushes of `pieces`.
pub open spec fn pushed_text(pending: Seq<u8>, pieces: Seq<Seq<u8>>) -> Seq<char>
    decreases pieces.len(),
{
    if pieces.len() == 0 {
        Seq::empty()
    } else {
        push_text(pending, pieces[0]) + pushed_text(
            push_pending(pending, pieces[0]),
            pieces.drop_first(),
        )
    }
}

/// The bytes an assembler that held `pending` holds back after the pushes of `pieces`.
pub open spec fn pushed_pending(pending: Seq<u8>, pieces: Seq<Seq<u8>>) -> Seq<u8>
    decreases pieces.len(),
{
    if pieces.len() == 0 {
        pending
    } else {
        pushed_pending(push_pending(pending, pieces[0]), pieces.drop_first())
    }
}

/// One push inside a valid text: when the held bytes, the pushed bytes and
/// whatever follows form a valid text, the push emits the characters that
/// are complete, and what it holds back still forms a valid text with what
/// follows.
pub proof fn lemma_push_inside_valid_text(held: Seq<u8>, bytes: Seq<u8>, rest: Seq<u8>)
    requires
        valid_utf8(held + bytes + rest),
    ensures
        valid_utf8(push_pending(held, bytes) + rest),
        push_text(held, bytes) + decode_utf8(push_pending(held, bytes) + rest) == decode_utf8(
            held + bytes + rest,
        ),
        rest.len() == 0 ==> push_pending(held, bytes).len() == 0,
{
    let all = held + bytes;
    let s = all + rest;
    let i = all.len() as int;
    assert(s.subrange(0, i) =~= all);
    lemma_pending_reaches_boundary(s, i);
    let k = pending_len(all);
    let cut = i - k;
    valid_utf8_split(s, cut);
    decode_utf8_split(s, cut);
    assert(all.subrange(0, cut) =~= s.subrange(0, cut));
    assert(push_pending(held, bytes) + rest =~= s.subrange(cut, s.len() as int));
    if rest.len() == 0 {
        assert(s =~= all);
        lemma_valid_text_leaves_nothing_pending(all);
    }
}

/// Feeding a text in any number of pieces, cut anywhere, emits the text
/// itself whenever the pieces together are valid UTF-8, and holds nothing
/// back at the end.
pub proof fn lemma_pieces_give_whole_text(pieces: Seq<Seq<u8>>)
    requires
        valid_utf8(joined(pieces)),
    ensures
        pushed_text(Seq::<u8>::empty(), pieces) == decode_utf8(joined(pieces)),
        pushed_pending(Seq::<u8>::empty(), pieces) == Seq::<u8>::empty(),
{
    assert(Seq::<u8>::empty() + joined(pieces) =~= joined(pieces));
    lemma_pieces_from(Seq::<u8>::empty(), pieces);
    if pieces.len() > 0 {
        assert(pushed_pending(Seq::<u8>::empty(), pieces) =~= Seq::<u8>::empty());
    }
}

proof fn lemma_pieces_from(held: Seq<u8>, pieces: Seq<Seq<u8>>)
    requires
        valid_utf8(held + joined(pieces)),
    ensures
        pushed_text(held, pieces) + decode_utf8(pushed_pending(held, pieces)) == decode_utf8(
            held + joined(pieces),
        ),
        valid_utf8(pushed_pending(held, pieces)),
        pieces.len() > 0 ==> pushed_pending(held, pieces).len() == 0,
    decreases pieces.len(),
{
    if pieces.len() == 0 {
        assert(held + joined(pieces) =~= held);
        assert(pushed_text(held, pieces) + decode_utf8(held) =~= decode_utf8(held));
    } else {
        let first = pieces[0];
        let others = pieces.drop_first();
        let rest = joined(others);
        assert(held + joined(pieces) =~= held + first + rest);
        lemma_push_inside_valid_text(held, first, rest);
        let next = push_pending(held, first);
        lemma_pieces_from(next, others);
        if others.len() == 0 {
            assert(rest.len() == 0);
            assert(next + rest =~= next);
        }
        assert(pushed_text(held, pieces) + decode_utf8(pushed_pending(held, pieces)) =~= push_text(
            held,
            first,
        ) + (pushed_text(next, others) + decode_utf8(pushed_pending(next, others))));
    }
}

} // verus!
