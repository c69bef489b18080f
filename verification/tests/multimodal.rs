use llama_cpp_4::batch::{CapacityExceeded, TokenBatch};
use llama_cpp_4::multimodal::bitmap::{
    check_audio_samples, check_image_data, check_text, BitmapBuilder, BitmapType,
};
use llama_cpp_4::multimodal::chunks::{
    assemble, text_tokens, tokenize_outcome, Chunk, ChunkType, InputText, Placement,
};
use llama_cpp_4::multimodal::context::{
    audio_bitrate, default_marker, Capabilities, Modalities, MtmdContextParams,
};
use llama_cpp_4::multimodal::error::MultimodalError;
use llama_cpp_4::token::LlamaToken;

fn text(first: i32, len: usize) -> Chunk {
    Chunk::Text { tokens: (0..len).map(|i| LlamaToken(first + i as i32)).collect() }
}

#[test]
fn image_data_must_be_three_bytes_per_pixel() {
    assert!(check_image_data(2, 3, 18).is_ok());
    assert!(check_image_data(0, 7, 0).is_ok());
    assert!(matches!(
        check_image_data(2, 3, 17),
        Err(MultimodalError::InvalidImageDimensions { width: 2, height: 3 })
    ));
    assert!(matches!(
        check_image_data(65536, 65536, 0),
        Err(MultimodalError::InvalidImageDimensions { width: 65536, height: 65536 })
    ));
}

#[test]
fn audio_needs_a_sample() {
    assert!(check_audio_samples(1).is_ok());
    assert!(matches!(
        check_audio_samples(0),
        Err(MultimodalError::InvalidAudioSamples { count: 0 })
    ));
}

#[test]
fn text_with_a_zero_byte_cannot_be_handed_over() {
    assert!(check_text("image-1").is_ok());
    assert!(matches!(
        check_text("ab\0cd\0"),
        Err(MultimodalError::StringConversion { position: 2 })
    ));
}

#[test]
fn bitmap_type_follows_the_audio_flag() {
    assert_eq!(BitmapType::from_audio_flag(true), BitmapType::Audio);
    assert_eq!(BitmapType::from_audio_flag(false), BitmapType::Image);
}

#[test]
fn builder_keeps_the_identifier() {
    assert_eq!(BitmapBuilder::new().id(), None);
    assert_eq!(BitmapBuilder::default().id(), None);
    let builder = BitmapBuilder::new().with_id("first").with_id("second");
    assert_eq!(builder.id(), Some(&String::from("second")));
}

#[test]
fn builder_checks_data_before_identifier() {
    let builder = BitmapBuilder::new().with_id("bad\0id");
    assert!(matches!(
        builder.check_image(1, 1, 2),
        Err(MultimodalError::InvalidImageDimensions { width: 1, height: 1 })
    ));
    assert!(matches!(
        builder.check_image(1, 1, 3),
        Err(MultimodalError::StringConversion { position: 3 })
    ));
    assert!(matches!(
        builder.check_audio(0),
        Err(MultimodalError::InvalidAudioSamples { count: 0 })
    ));
    assert!(matches!(
        builder.check_audio(5),
        Err(MultimodalError::StringConversion { position: 3 })
    ));
    assert!(BitmapBuilder::new().check_image(1, 1, 3).is_ok());
    assert!(BitmapBuilder::new().with_id("ok").check_audio(5).is_ok());
}

#[test]
fn input_text_defaults_and_builders() {
    let input = InputText::new("Describe: <__media__>");
    assert_eq!(input.text, "Describe: <__media__>");
    assert!(input.add_special);
    assert!(input.parse_special);
    let input = input.with_add_special(false);
    assert!(!input.add_special);
    assert!(input.parse_special);
    let input = input.with_parse_special(false).with_add_special(true);
    assert!(input.add_special);
    assert!(!input.parse_special);
    assert_eq!(input.text, "Describe: <__media__>");
    assert!(input.check().is_ok());
    assert!(matches!(
        InputText::new("\0").check(),
        Err(MultimodalError::StringConversion { position: 0 })
    ));
}

#[test]
fn chunk_type_from_the_encoder_code() {
    assert_eq!(ChunkType::from_code(0), ChunkType::Text);
    assert_eq!(ChunkType::from_code(1), ChunkType::Image);
    assert_eq!(ChunkType::from_code(2), ChunkType::Audio);
    assert_eq!(ChunkType::from_code(3), ChunkType::Text);
    assert_eq!(ChunkType::from_code(u32::MAX), ChunkType::Text);
}

#[test]
fn only_a_text_chunk_with_tokens_has_text_tokens() {
    assert_eq!(
        text_tokens(ChunkType::Text, &[5, 6, 7]),
        Some(vec![LlamaToken(5), LlamaToken(6), LlamaToken(7)])
    );
    assert_eq!(text_tokens(ChunkType::Text, &[]), None);
    assert_eq!(text_tokens(ChunkType::Image, &[5, 6, 7]), None);
    assert_eq!(text_tokens(ChunkType::Audio, &[5]), None);
}

#[test]
fn tokenizer_status_codes() {
    assert!(tokenize_outcome(0, 2).is_ok());
    assert!(matches!(
        tokenize_outcome(1, 2),
        Err(MultimodalError::BitmapCountMismatch { provided: 2, expected: 0 })
    ));
    assert!(matches!(tokenize_outcome(2, 2), Err(MultimodalError::PreprocessingFailed)));
    match tokenize_outcome(7, 2) {
        Err(MultimodalError::TokenizationFailed { reason }) => {
            assert_eq!(reason, "Unknown error code: 7")
        }
        other => panic!("unexpected outcome: {:?}", other),
    }
    match tokenize_outcome(-1, 0) {
        Err(MultimodalError::TokenizationFailed { reason }) => {
            assert_eq!(reason, "Unknown error code: -1")
        }
        other => panic!("unexpected outcome: {:?}", other),
    }
}

#[test]
fn context_params_defaults_and_log_level() {
    let params = MtmdContextParams::default();
    assert!(params.use_gpu);
    assert!(!params.print_timings);
    assert_eq!(params.n_threads, 4);
    assert_eq!(params.verbosity, 0);
    assert_eq!(params.media_marker, None);
    assert_eq!(params.log_level(), 0);
    for (verbosity, level) in [(-5, 0), (0, 0), (1, 1), (3, 3), (4, 3), (i32::MAX, 3), (i32::MIN, 0)] {
        let params = MtmdContextParams { verbosity, ..MtmdContextParams::default() };
        assert_eq!(params.log_level(), level);
    }
}

#[test]
fn context_params_check_path_then_marker() {
    let params = MtmdContextParams {
        media_marker: Some(String::from("<\0>")),
        ..MtmdContextParams::default()
    };
    assert!(matches!(
        params.check("mm\0proj.gguf"),
        Err(MultimodalError::StringConversion { position: 2 })
    ));
    assert!(matches!(
        params.check("mmproj.gguf"),
        Err(MultimodalError::StringConversion { position: 1 })
    ));
    assert!(MtmdContextParams::default().check("mmproj.gguf").is_ok());
}

#[test]
fn audio_bitrate_is_absent_when_negative() {
    assert_eq!(audio_bitrate(16000), Some(16000));
    assert_eq!(audio_bitrate(0), Some(0));
    assert_eq!(audio_bitrate(-1), None);
}

#[test]
fn default_marker_falls_back() {
    assert_eq!(default_marker(b"<__image__>"), "<__image__>");
    assert_eq!(default_marker(&[0xff]), "<__media__>");
}

#[test]
fn linear_positions_count_every_media_token() {
    let chunks = vec![
        text(10, 3),
        Chunk::Image { n_tokens: 4, n_pos: 4 },
        text(20, 2),
        Chunk::Audio { n_tokens: 5, n_pos: 5 },
        text(30, 1),
    ];
    let mut batch = TokenBatch::new(16, 1);
    let placements = assemble(&mut batch, &chunks, false, 0, 0).unwrap();
    assert_eq!(
        placements,
        vec![
            Placement { first_position: 0, n_tokens: 3, shared_position: false },
            Placement { first_position: 3, n_tokens: 4, shared_position: false },
            Placement { first_position: 7, n_tokens: 2, shared_position: false },
            Placement { first_position: 9, n_tokens: 5, shared_position: false },
            Placement { first_position: 14, n_tokens: 1, shared_position: false },
        ]
    );
    assert_eq!(batch.len(), 6);
    let expected = [(10, 0), (11, 1), (12, 2), (20, 7), (21, 8), (30, 14)];
    for (i, (token, position)) in expected.iter().enumerate() {
        let entry = batch.entry(i);
        assert_eq!(entry.token, LlamaToken(*token));
        assert_eq!(entry.position, *position);
        assert_eq!(entry.sequence_ids, vec![0]);
        assert!(!entry.wants_logits);
    }
}

#[test]
fn grouped_positions_share_one_position_per_medium() {
    let chunks = vec![text(10, 3), Chunk::Image { n_tokens: 64, n_pos: 1 }, text(20, 2)];
    let mut batch = TokenBatch::new(16, 1);
    let placements = assemble(&mut batch, &chunks, true, 2, 5).unwrap();
    assert_eq!(
        placements,
        vec![
            Placement { first_position: 5, n_tokens: 3, shared_position: false },
            Placement { first_position: 8, n_tokens: 64, shared_position: true },
            Placement { first_position: 9, n_tokens: 2, shared_position: false },
        ]
    );
    assert_eq!(batch.len(), 5);
    assert_eq!(batch.entry(2).position, 7);
    assert_eq!(batch.entry(3).position, 9);
    assert_eq!(batch.entry(4).position, 10);
    assert_eq!(batch.entry(3).sequence_ids, vec![2]);
}

#[test]
fn assemble_fails_atomically_when_text_does_not_fit() {
    let chunks = vec![text(10, 3), Chunk::Image { n_tokens: 4, n_pos: 4 }, text(20, 2)];
    let mut batch = TokenBatch::new(5, 1);
    batch.add(LlamaToken(1), 0, &[0], false).unwrap();
    assert_eq!(
        assemble(&mut batch, &chunks, false, 0, 1),
        Err(CapacityExceeded::Slots { free: 4, requested: 5 })
    );
    assert_eq!(batch.len(), 1);
    assert_eq!(batch.entry(0).token, LlamaToken(1));
}

#[test]
fn assemble_refuses_positions_out_of_range() {
    let chunks = vec![
        text(10, 1),
        Chunk::Image { n_tokens: usize::MAX, n_pos: 1 },
        text(20, 1),
    ];
    let mut batch = TokenBatch::new(8, 1);
    assert_eq!(
        assemble(&mut batch, &chunks, false, 0, 0),
        Err(CapacityExceeded::Positions { chunk: 1 })
    );
    assert_eq!(batch.len(), 0);
    assert!(assemble(&mut batch, &chunks, true, 0, 0).is_ok());
    assert_eq!(batch.len(), 2);
    assert_eq!(batch.entry(1).position, 2);
    let mut late = TokenBatch::new(8, 1);
    assert_eq!(
        assemble(&mut late, &[text(1, 2)], false, 0, i32::MAX - 1),
        Err(CapacityExceeded::Positions { chunk: 0 })
    );
    assert!(assemble(&mut late, &[text(1, 1)], false, 0, i32::MAX - 1).is_ok());
    assert_eq!(late.entry(0).position, i32::MAX - 1);
}

#[test]
fn chunk_reports_kind_and_token_count() {
    assert_eq!(text(1, 3).chunk_type(), ChunkType::Text);
    assert_eq!(text(1, 3).n_tokens(), 3);
    let image = Chunk::Image { n_tokens: 9, n_pos: 1 };
    assert_eq!(image.chunk_type(), ChunkType::Image);
    assert_eq!(image.n_tokens(), 9);
    let audio = Chunk::Audio { n_tokens: 7, n_pos: 7 };
    assert_eq!(audio.chunk_type(), ChunkType::Audio);
    assert_eq!(audio.n_tokens(), 7);
}

#[test]
fn capabilities_collect_the_answers() {
    let caps = Capabilities::from_answers(true, false, true, false, -1);
    assert_eq!(caps.modalities, Modalities::Vision);
    assert!(caps.use_mrope);
    assert!(!caps.use_non_causal);
    assert_eq!(caps.audio_bitrate, None);
    let caps = Capabilities::from_answers(true, true, false, true, 16000);
    assert_eq!(caps.modalities, Modalities::VisionAndAudio);
    assert!(!caps.use_mrope);
    assert!(caps.use_non_causal);
    assert_eq!(caps.audio_bitrate, Some(16000));
    assert_eq!(Capabilities::from_answers(false, true, false, false, 0).modalities, Modalities::Audio);
    assert_eq!(
        Capabilities::from_answers(false, false, false, false, -1).modalities,
        Modalities::TextOnly
    );
}

#[test]
fn chunks_of_a_missing_modality_are_refused() {
    let vision = Capabilities::from_answers(true, false, false, false, -1);
    assert!(vision.supports(ChunkType::Text));
    assert!(vision.supports(ChunkType::Image));
    assert!(!vision.supports(ChunkType::Audio));
    assert!(vision.check_chunk(ChunkType::Text).is_ok());
    assert!(vision.check_chunk(ChunkType::Image).is_ok());
    match vision.check_chunk(ChunkType::Audio) {
        Err(MultimodalError::NotSupported { feature }) => assert_eq!(feature, "audio"),
        other => panic!("unexpected outcome: {:?}", other),
    }
    let text_only = Capabilities::from_answers(false, false, false, false, -1);
    assert!(text_only.check_chunk(ChunkType::Text).is_ok());
    match text_only.check_chunk(ChunkType::Image) {
        Err(MultimodalError::NotSupported { feature }) => assert_eq!(feature, "vision"),
        other => panic!("unexpected outcome: {:?}", other),
    }
}
