use llama_cpp_4::embedding::{
    similarity_rule, EmbeddingError, EmbeddingExtractor, EmbeddingSource, PoolingMode,
    SimilarityRule,
};
use llama_cpp_4::token::LlamaToken;

fn line(first: i32, len: usize) -> Vec<LlamaToken> {
    (0..len).map(|i| LlamaToken(first + i as i32)).collect()
}

#[test]
fn three_prompts_in_two_flush_cycles() {
    let prompts = vec![line(100, 4), line(200, 3), line(300, 4)];
    let mut extractor = EmbeddingExtractor::new(prompts.clone(), 2048, 8).unwrap();
    let mut flushes = 0;
    let mut outputs: Vec<(usize, EmbeddingSource)> = Vec::new();
    while extractor.next_batch() {
        flushes += 1;
        let first = extractor.first();
        for (s, source) in extractor.sources(PoolingMode::Unpooled).into_iter().enumerate() {
            outputs.push((first + s, source));
        }
    }
    assert_eq!(flushes, 2);
    assert_eq!(
        outputs,
        vec![
            (0, EmbeddingSource::Token { index: 3 }),
            (1, EmbeddingSource::Token { index: 6 }),
            (2, EmbeddingSource::Token { index: 3 }),
        ]
    );
    assert_eq!(extractor.batch().len(), 0);
    assert!(!extractor.next_batch());
}

#[test]
fn batch_of_a_group_restarts_sequence_ids_and_positions() {
    let prompts = vec![line(100, 4), line(200, 3), line(300, 4)];
    let mut extractor = EmbeddingExtractor::new(prompts, 2048, 8).unwrap();
    assert!(extractor.next_batch());
    assert_eq!(extractor.first(), 0);
    assert_eq!(extractor.group_len(), 2);
    let batch = extractor.batch();
    assert_eq!(batch.len(), 7);
    assert_eq!(batch.sequence_count(), 2);
    for i in 0..7 {
        let entry = batch.entry(i);
        let (sequence, position) = if i < 4 { (0, i) } else { (1, i - 4) };
        assert_eq!(entry.sequence_ids, vec![sequence]);
        assert_eq!(entry.position, position as i32);
        assert!(!entry.wants_logits);
    }
    assert_eq!(batch.entry(4).token, LlamaToken(200));
    assert!(extractor.next_batch());
    assert_eq!(extractor.first(), 2);
    assert_eq!(extractor.group_len(), 1);
    let batch = extractor.batch();
    assert_eq!(batch.len(), 4);
    assert_eq!(batch.entry(0).sequence_ids, vec![0]);
    assert_eq!(batch.entry(0).position, 0);
    assert_eq!(batch.entry(0).token, LlamaToken(300));
}

#[test]
fn pooled_modes_read_by_sequence_id() {
    let prompts = vec![line(1, 2), line(10, 2)];
    let mut extractor = EmbeddingExtractor::new(prompts, 16, 16).unwrap();
    assert!(extractor.next_batch());
    for pooling in [
        PoolingMode::Unspecified,
        PoolingMode::Mean,
        PoolingMode::Cls,
        PoolingMode::Last,
        PoolingMode::Rank,
    ] {
        assert_eq!(
            extractor.sources(pooling),
            vec![
                EmbeddingSource::Sequence { sequence_id: 0 },
                EmbeddingSource::Sequence { sequence_id: 1 },
            ]
        );
    }
}

#[test]
fn sequence_without_tokens_has_no_token_vector() {
    let prompts = vec![line(1, 2), Vec::new(), line(10, 1)];
    let mut extractor = EmbeddingExtractor::new(prompts, 16, 16).unwrap();
    assert!(extractor.next_batch());
    assert_eq!(
        extractor.sources(PoolingMode::Unpooled),
        vec![
            EmbeddingSource::Token { index: 1 },
            EmbeddingSource::Absent,
            EmbeddingSource::Token { index: 2 },
        ]
    );
}

#[test]
fn sequence_longer_than_the_context_is_refused() {
    let prompts = vec![line(1, 2), line(10, 9), line(20, 12)];
    let result = EmbeddingExtractor::new(prompts, 8, 32);
    assert_eq!(
        result.err(),
        Some(EmbeddingError::SequenceExceedsContext { index: 1, len: 9, limit: 8 })
    );
}

#[test]
fn sequence_longer_than_a_batch_is_refused() {
    let prompts = vec![line(1, 5)];
    let result = EmbeddingExtractor::new(prompts, 2048, 4);
    assert_eq!(
        result.err(),
        Some(EmbeddingError::SequenceExceedsContext { index: 0, len: 5, limit: 4 })
    );
}

#[test]
fn sequence_that_fills_a_batch_exactly_is_taken() {
    let prompts = vec![line(1, 4), line(10, 4)];
    let mut extractor = EmbeddingExtractor::new(prompts, 4, 4).unwrap();
    let mut flushes = 0;
    while extractor.next_batch() {
        assert_eq!(extractor.batch().len(), 4);
        assert!(extractor.batch().is_full());
        flushes += 1;
    }
    assert_eq!(flushes, 2);
}

#[test]
fn no_input_means_no_batch() {
    let mut extractor = EmbeddingExtractor::new(Vec::new(), 16, 16).unwrap();
    assert!(!extractor.next_batch());
    assert_eq!(extractor.group_len(), 0);
    assert_eq!(extractor.sources(PoolingMode::Mean), vec![]);
}

#[test]
fn similarity_rule_for_zero_vectors() {
    assert_eq!(similarity_rule(true, true), SimilarityRule::Identical);
    assert_eq!(similarity_rule(true, false), SimilarityRule::Unrelated);
    assert_eq!(similarity_rule(false, true), SimilarityRule::Unrelated);
    assert_eq!(similarity_rule(false, false), SimilarityRule::Cosine);
}

#[test]
fn similarity_rule_is_symmetric() {
    for a in [false, true] {
        for b in [false, true] {
            assert_eq!(similarity_rule(a, b), similarity_rule(b, a));
        }
    }
}
