//! Text that crosses the boundary to the engine as NUL-terminated bytes.

use vstd::prelude::*;
use vstd::utf8::*;
use vstd::string::*;

verus! {

/// Whether `index` is the first zero byte of `bytes`.
pub open spec fn is_first_nul(bytes: Seq<u8>, index: int) -> bool {
    &&& 0 <= index < bytes.len()
    &&& bytes[index] == 0
    &&& forall|j: int| 0 <= j < index ==> #[trigger] bytes[j] != 0
}

/// Whether `bytes` can be sent as they are: they hold no zero byte.
pub open spec fn nul_free(bytes: Seq<u8>) -> bool {
    forall|j: int| 0 <= j < bytes.len() ==> #[trigger] bytes[j] != 0
}

/// Finds the first zero byte, which would cut the text short on the other side.
pub fn first_nul(bytes: &[u8]) -> (found: Option<usize>)
    ensures
        found is None <==> nul_free(bytes@),
        found matches Some(index) ==> is_first_nul(bytes@, index as int),
{
    let mut i: usize = 0;
    while i < bytes.len()
        invariant
            i <= bytes@.len(),
            forall|j: int| 0 <= j < i ==> #[trigger] bytes@[j] != 0,
        decreases bytes@.len() - i,
    {
        if bytes[i] == 0 {
            return Some(i);
        }
        i += 1;
    }
    None
}

/// Calls `core::str::from_utf8` and keeps the text it accepts.
/// Trusted: the bytes are accepted exactly when they are valid UTF-8, and
/// the text is then their decoding.
#[verifier::external_body]
fn utf8_text(bytes: &[u8]) -> (text: Option<String>)
    ensures
        text is Some <==> valid_utf8(bytes@),
        text matches Some(t) ==> t@ == decode_utf8(bytes@),
{
    match core::str::from_utf8(bytes) {
        Ok(text) => Some(text.to_owned()),
        Err(_) => None,
    }
}

/// The text of an optional identifier handed back by the engine: absent
/// when the engine gave none or when its bytes are not valid UTF-8.
pub fn id_text(raw: Option<&[u8]>) -> (id: Option<String>)
    ensures
        id is Some <==> (raw matches Some(bytes) && valid_utf8(bytes@)),
        id matches Some(t) ==> t@ == decode_utf8(raw->Some_0@),
{
    match raw {
        None => None,
        Some(bytes) => utf8_text(bytes),
    }
}

/// The text of `raw` when it is valid UTF-8, the text of `fallback` otherwise.
pub fn text_or(raw: &[u8], fallback: &str) -> (text: String)
    ensures
        text@ == if valid_utf8(raw@) {
            decode_utf8(raw@)
        } else {
            fallback@
        },
{
    match utf8_text(raw) {
        Some(text) => text,
        None => fallback.to_owned(),
    }
}

} // verus!
