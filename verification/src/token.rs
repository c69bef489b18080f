//! Token identifiers.

use vstd::prelude::*;

verus! {

/// Identifier of one entry of a model's vocabulary.
#[derive(Clone, Copy, Debug, PartialEq, Eq, Hash, Structural)]
pub struct LlamaToken(pub i32);

impl LlamaToken {
    /// Wraps a raw vocabulary index.
    pub fn new(id: i32) -> (token: LlamaToken)
        ensures
            token.0 == id,
    {
        LlamaToken(id)
    }
}

} // verus!
