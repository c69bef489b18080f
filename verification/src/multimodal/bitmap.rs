//! Images and audio clips on their way to the media encoder.

use vstd::prelude::*;
use vstd::string::*;
use crate::cstr::{first_nul, is_first_nul, nul_free};
use crate::multimodal::error::MultimodalError;

verus! {

/// What a bitmap holds.
#[derive(Debug, Clone, Copy, PartialEq, Eq, Structural)]
pub enum BitmapType {
    /// RGB pixels, three bytes each.
    Image,
    /// PCM samples.
    Audio,
}

impl BitmapType {
    /// The kind of a bitmap, given whether the encoder calls it audio.
    pub fn from_audio_flag(is_audio: bool) -> (kind: BitmapType)
        ensures
            kind == if is_audio {
                BitmapType::Audio
            } else {
                BitmapType::Image
            },
    {
        if is_audio {
            BitmapType::Audio
        } else {
            BitmapType::Image
        }
    }
}

/// Checks that `data_len` bytes are exactly the RGB pixels of a
/// `width` by `height` image.
pub fn check_image_data(width: u32, height: u32, data_len: usize) -> (r: Result<(), MultimodalError>)
    ensures
        r is Ok <==> data_len == width * height * 3,
        r is Err ==> r->Err_0 == (MultimodalError::InvalidImageDimensions { width, height }),
{
    assert(width * height <= 0xffff_ffff * 0xffff_ffff) by (nonlinear_arith)
        requires
            0 <= width <= 0xffff_ffff,
            0 <= height <= 0xffff_ffff,
    ;
    let pixels: u64 = (width as u64) * (height as u64);
    let expected: u128 = (pixels as u128) * 3;
    if data_len as u128 == expected {
        Ok(())
    } else {
        Err(MultimodalError::InvalidImageDimensions { width, height })
    }
}

/// Checks that an audio clip holds at least one sample.
pub fn check_audio_samples(count: usize) -> (r: Result<(), MultimodalError>)
    ensures
        r is Ok <==> count > 0,
        r is Err ==> r->Err_0 == (MultimodalError::InvalidAudioSamples { count: 0 }),
{
    if count == 0 {
        Err(MultimodalError::InvalidAudioSamples { count: 0 })
    } else {
        Ok(())
    }
}

/// Whether `r` is the verdict on handing `bytes` to the engine as a text:
/// success when they hold no zero byte, else the place of the first one.
pub open spec fn is_text_verdict(bytes: Seq<u8>, r: Result<(), MultimodalError>) -> bool {
    if nul_free(bytes) {
        r is Ok
    } else {
        r matches Err(MultimodalError::StringConversion { position }) && is_first_nul(
            bytes,
            position as int,
        )
    }
}

/// Checks that `text` can be handed to the engine: it holds no zero byte.
pub fn check_text(text: &str) -> (r: Result<(), MultimodalError>)
    ensures
        is_text_verdict(text.spec_bytes(), r),
{
    match first_nul(text.as_bytes()) {
        None => Ok(()),
        Some(position) => Err(MultimodalError::StringConversion { position }),
    }
}

/// Collects the options of a bitmap before it is built.
#[derive(Debug, Clone)]
pub struct BitmapBuilder {
    id: Option<String>,
}

impl BitmapBuilder {
    /// The identifier chosen so far.
    pub closed spec fn spec_id(&self) -> Option<Seq<char>> {
        match self.id {
            Some(id) => Some(id@),
            None => None,
        }
    }

    /// A builder with no identifier.
    pub fn new() -> (builder: BitmapBuilder)
        ensures
            builder.spec_id() is None,
    {
        BitmapBuilder { id: None }
    }

    /// Chooses the identifier under which the bitmap is tracked.
    pub fn with_id(self, id: &str) -> (builder: BitmapBuilder)
        ensures
            builder.spec_id() == Some(id@),
    {
        let mut builder = self;
        builder.id = Some(id.to_owned());
        builder
    }

    /// The identifier chosen so far.
    pub fn id(&self) -> (id: Option<&String>)
        ensures
            id is Some <==> self.spec_id() is Some,
            id matches Some(text) ==> self.spec_id() == Some(text@),
    {
        self.id.as_ref()
    }

    /// Checks everything an image bitmap needs before the encoder is
    /// called: the size of the pixel data first, then the identifier.
    pub fn check_image(&self, width: u32, height: u32, data_len: usize) -> (r: Result<
        (),
        MultimodalError,
    >)
        ensures
            data_len != width * height * 3 ==> r is Err && r->Err_0 == (
            MultimodalError::InvalidImageDimensions { width, height }),
            data_len == width * height * 3 ==> match self.spec_id() {
                Some(id) => is_text_verdict(vstd::utf8::encode_utf8(id), r),
                None => r is Ok,
            },
    {
        match check_image_data(width, height, data_len) {
            Err(e) => Err(e),
            Ok(_) => match &self.id {
                None => Ok(()),
                Some(id) => check_text(id.as_str()),
            },
        }
    }

    /// Checks everything an audio bitmap needs before the encoder is
    /// called: the number of samples first, then the identifier.
    pub fn check_audio(&self, count: usize) -> (r: Result<(), MultimodalError>)
        ensures
            count == 0 ==> r is Err && r->Err_0 == (MultimodalError::InvalidAudioSamples {
                count: 0,
            }),
            count > 0 ==> match self.spec_id() {
                Some(id) => is_text_verdict(vstd::utf8::encode_utf8(id), r),
                None => r is Ok,
            },
    {
        match check_audio_samples(count) {
            Err(e) => Err(e),
            Ok(_) => match &self.id {
                None => Ok(()),
                Some(id) => check_text(id.as_str()),
            },
        }
    }
}

impl Default for BitmapBuilder {
    fn default() -> (builder: BitmapBuilder)
        ensures
            builder.spec_id() is None,
    {
        BitmapBuilder::new()
    }
}

} // verus!
