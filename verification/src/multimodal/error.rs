//! Errors of the multimodal layer.

use vstd::prelude::*;

verus! {

/// What can go wrong when preparing or tokenizing multimodal input.
#[derive(Clone, Debug)]
pub enum MultimodalError {
    /// The encoder could not be set up.
    InitializationFailed,
    /// The pixel data does not have three bytes per pixel of the given size.
    InvalidImageDimensions { width: u32, height: u32 },
    /// The audio data holds no usable samples.
    InvalidAudioSamples { count: usize },
    /// The tokenizer reported a status this layer does not know.
    TokenizationFailed { reason: String },
    /// The text names a different number of media than were supplied.
    BitmapCountMismatch { provided: usize, expected: usize },
    /// The encoder could not preprocess a medium.
    PreprocessingFailed,
    /// The engine handed back nothing where a value was expected.
    NullPointer,
    /// A text holds a zero byte at `position` and cannot be handed over.
    StringConversion { position: usize },
    /// Bytes were not valid UTF-8 beyond `valid_up_to`.
    Utf8Error { valid_up_to: usize },
    /// The model lacks a capability.
    NotSupported { feature: String },
}

} // verus!
