//! Settings and capability answers of the media encoder.

use vstd::prelude::*;
use vstd::string::*;
use vstd::utf8::*;
use crate::cstr::{nul_free, text_or};
use crate::multimodal::bitmap::{check_text, is_text_verdict};
use crate::multimodal::chunks::ChunkType;
use crate::multimodal::error::MultimodalError;

verus! {

/// Settings for creating a multimodal context.
#[derive(Debug, Clone)]
pub struct MtmdContextParams {
    /// Whether the encoder runs on the GPU.
    pub use_gpu: bool,
    /// Whether the encoder prints timings.
    pub print_timings: bool,
    /// Number of threads the encoder uses.
    pub n_threads: i32,
    /// Verbosity of the encoder's log; see [`MtmdContextParams::log_level`].
    pub verbosity: i32,
    /// The marker that stands for a medium in the text; the encoder's own
    /// default when absent.
    pub media_marker: Option<String>,
}

/// `verbosity` limited to the log levels the encoder knows, 0 to 3.
pub open spec fn spec_log_level(verbosity: i32) -> i32 {
    if verbosity < 0 {
        0
    } else if verbosity > 3 {
        3
    } else {
        verbosity
    }
}

impl MtmdContextParams {
    /// The log level handed to the encoder.
    pub fn log_level(&self) -> (level: i32)
        ensures
            level == spec_log_level(self.verbosity),
    {
        if self.verbosity < 0 {
            0
        } else if self.verbosity > 3 {
            3
        } else {
            self.verbosity
        }
    }

    /// Checks that the projector path and the media marker can be handed
    /// to the encoder: neither holds a zero byte. The path is checked first.
    pub fn check(&self, mmproj_path: &str) -> (r: Result<(), MultimodalError>)
        ensures
            !nul_free(mmproj_path.spec_bytes()) ==> is_text_verdict(mmproj_path.spec_bytes(), r),
            nul_free(mmproj_path.spec_bytes()) ==> match self.media_marker {
                Some(marker) => is_text_verdict(encode_utf8(marker@), r),
                None => r is Ok,
            },
    {
        match check_text(mmproj_path) {
            Err(e) => Err(e),
            Ok(_) => match &self.media_marker {
                None => Ok(()),
                Some(marker) => check_text(marker.as_str()),
            },
        }
    }
}

impl Default for MtmdContextParams {
    fn default() -> (params: MtmdContextParams)
        ensures
            params.use_gpu,
            !params.print_timings,
            params.n_threads == 4,
            params.verbosity == 0,
            params.media_marker is None,
    {
        MtmdContextParams {
            use_gpu: true,
            print_timings: false,
            n_threads: 4,
            verbosity: 0,
            media_marker: None,
        }
    }
}

/// The kinds of media a model takes besides text.
#[derive(Debug, Clone, Copy, PartialEq, Eq, Structural)]
pub enum Modalities {
    TextOnly,
    Vision,
    Audio,
    VisionAndAudio,
}

/// What a multimodal context can do, asked once when it is created.
#[derive(Debug, Clone, Copy, PartialEq, Eq, Structural)]
pub struct Capabilities {
    /// The media the model takes.
    pub modalities: Modalities,
    /// Whether the tokens of a medium share one temporal position.
    pub use_mrope: bool,
    /// Whether media are decoded without the causal mask.
    pub use_non_causal: bool,
    /// The audio sample rate in Hz, where the model takes audio.
    pub audio_bitrate: Option<i32>,
}

/// Whether a model with `modalities` takes chunks of kind `kind`.
pub open spec fn takes(modalities: Modalities, kind: ChunkType) -> bool {
    match kind {
        ChunkType::Text => true,
        ChunkType::Image => modalities == Modalities::Vision || modalities
            == Modalities::VisionAndAudio,
        ChunkType::Audio => modalities == Modalities::Audio || modalities
            == Modalities::VisionAndAudio,
    }
}

impl Capabilities {
    /// Collects the encoder's answers.
    pub fn from_answers(
        supports_vision: bool,
        supports_audio: bool,
        use_mrope: bool,
        use_non_causal: bool,
        raw_audio_bitrate: i32,
    ) -> (caps: Capabilities)
        ensures
            caps.use_mrope == use_mrope,
            caps.use_non_causal == use_non_causal,
            caps.audio_bitrate == if raw_audio_bitrate >= 0 {
                Some(raw_audio_bitrate)
            } else {
                None::<i32>
            },
            takes(caps.modalities, ChunkType::Image) == supports_vision,
            takes(caps.modalities, ChunkType::Audio) == supports_audio,
    {
        let modalities = if supports_vision && supports_audio {
            Modalities::VisionAndAudio
        } else if supports_vision {
            Modalities::Vision
        } else if supports_audio {
            Modalities::Audio
        } else {
            Modalities::TextOnly
        };
        Capabilities {
            modalities,
            use_mrope,
            use_non_causal,
            audio_bitrate: audio_bitrate(raw_audio_bitrate),
        }
    }

    /// Whether the model takes chunks of kind `kind`.
    pub fn supports(&self, kind: ChunkType) -> (b: bool)
        ensures
            b == takes(self.modalities, kind),
    {
        match kind {
            ChunkType::Text => true,
            ChunkType::Image => match self.modalities {
                Modalities::Vision => true,
                Modalities::VisionAndAudio => true,
                _ => false,
            },
            ChunkType::Audio => match self.modalities {
                Modalities::Audio => true,
                Modalities::VisionAndAudio => true,
                _ => false,
            },
        }
    }

    /// Refuses a chunk of a kind the model does not take, naming the
    /// missing capability: `vision` or `audio`.
    pub fn check_chunk(&self, kind: ChunkType) -> (r: Result<(), MultimodalError>)
        ensures
            r is Ok <==> takes(self.modalities, kind),
            r is Err && kind == ChunkType::Image ==> (r matches Err(
                MultimodalError::NotSupported { feature },
            ) && feature@ == "vision"@),
            r is Err && kind == ChunkType::Audio ==> (r matches Err(
                MultimodalError::NotSupported { feature },
            ) && feature@ == "audio"@),
    {
        if self.supports(kind) {
            Ok(())
        } else {
            match kind {
                ChunkType::Audio => Err(
                    MultimodalError::NotSupported { feature: "audio".to_owned() },
                ),
                _ => Err(MultimodalError::NotSupported { feature: "vision".to_owned() }),
            }
        }
    }
}

/// The audio sample rate in Hz that the encoder reported; a negative
/// answer means the model takes no audio.
pub fn audio_bitrate(raw: i32) -> (rate: Option<i32>)
    ensures
        rate == if raw >= 0 {
            Some(raw)
        } else {
            None::<i32>
        },
{
    if raw >= 0 {
        Some(raw)
    } else {
        None
    }
}

/// The marker that stands for a medium in a text when none was configured.
pub fn default_marker(raw: &[u8]) -> (marker: String)
    ensures
        marker@ == if valid_utf8(raw@) {
            decode_utf8(raw@)
        } else {
            "<__media__>"@
        },
{
    text_or(raw, "<__media__>")
}

} // verus!
