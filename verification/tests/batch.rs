use llama_cpp_4::batch::{CapacityExceeded, TokenBatch};
use llama_cpp_4::token::LlamaToken;

#[test]
fn new_batch_is_empty() {
    let batch = TokenBatch::new(512, 1);
    assert_eq!(batch.len(), 0);
    assert!(batch.is_empty());
    assert_eq!(batch.capacity(), 512);
    assert_eq!(batch.max_seqs(), 1);
    assert!(!batch.is_full());
    assert_eq!(batch.sequence_count(), 0);
}

#[test]
fn len_counts_successful_adds() {
    let mut batch = TokenBatch::new(4, 2);
    let mut successes = 0;
    for i in 0..6 {
        if batch.add(LlamaToken(100 + i), i, &[0], false).is_ok() {
            successes += 1;
        }
        assert_eq!(batch.len(), successes);
    }
    assert_eq!(successes, 4);
    assert_eq!(batch.len(), 4);
}

#[test]
fn add_stores_the_entry_as_given() {
    let mut batch = TokenBatch::new(3, 2);
    assert_eq!(batch.add(LlamaToken(7), 5, &[1, 0], true), Ok(()));
    let entry = batch.entry(0);
    assert_eq!(entry.token, LlamaToken(7));
    assert_eq!(entry.position, 5);
    assert_eq!(entry.sequence_ids, vec![1, 0]);
    assert!(entry.wants_logits);
    assert_eq!(batch.sequence_count(), 2);
}

#[test]
fn add_beyond_capacity_changes_nothing() {
    let mut batch = TokenBatch::new(2, 1);
    assert_eq!(batch.add(LlamaToken(1), 0, &[0], false), Ok(()));
    assert_eq!(batch.add(LlamaToken(2), 1, &[0], true), Ok(()));
    assert_eq!(
        batch.add(LlamaToken(3), 2, &[0], true),
        Err(CapacityExceeded::Slots { free: 0, requested: 1 })
    );
    assert_eq!(batch.len(), 2);
    assert_eq!(batch.capacity(), 2);
    assert_eq!(batch.entry(0).token, LlamaToken(1));
    assert_eq!(batch.entry(1).token, LlamaToken(2));
    assert_eq!(batch.entry(1).position, 1);
    assert_eq!(batch.sequence_count(), 1);
}

#[test]
fn add_with_too_many_sequence_ids_is_refused() {
    let mut batch = TokenBatch::new(4, 2);
    assert_eq!(
        batch.add(LlamaToken(1), 0, &[0, 1, 2], false),
        Err(CapacityExceeded::SequenceIds { max: 2, requested: 3 })
    );
    assert_eq!(batch.len(), 0);
    assert_eq!(batch.sequence_count(), 0);
}

#[test]
fn full_batch_refuses_before_looking_at_sequence_ids() {
    let mut batch = TokenBatch::new(1, 1);
    assert_eq!(batch.add(LlamaToken(1), 0, &[0], false), Ok(()));
    assert_eq!(
        batch.add(LlamaToken(2), 1, &[0, 1], false),
        Err(CapacityExceeded::Slots { free: 0, requested: 1 })
    );
}

#[test]
fn clear_resets_len_and_keeps_capacity() {
    let mut batch = TokenBatch::new(3, 1);
    batch.add(LlamaToken(1), 0, &[0], false).unwrap();
    batch.add(LlamaToken(2), 1, &[0], false).unwrap();
    batch.clear();
    assert_eq!(batch.len(), 0);
    assert_eq!(batch.capacity(), 3);
    assert_eq!(batch.max_seqs(), 1);
    assert_eq!(batch.sequence_count(), 0);
    for i in 0..3 {
        assert_eq!(batch.add(LlamaToken(i), i, &[0], false), Ok(()));
    }
    assert_eq!(batch.len(), 3);
}

#[test]
fn zero_capacity_batch_refuses_every_add() {
    let mut batch = TokenBatch::new(0, 1);
    assert!(batch.is_full());
    assert_eq!(
        batch.add(LlamaToken(1), 0, &[0], false),
        Err(CapacityExceeded::Slots { free: 0, requested: 1 })
    );
    assert_eq!(batch.add_sequence(&[], 0, false), Ok(()));
    assert_eq!(batch.len(), 0);
}

#[test]
fn is_full_when_slots_or_sequences_are_used_up() {
    let mut by_slots = TokenBatch::new(2, 8);
    by_slots.add(LlamaToken(1), 0, &[0], false).unwrap();
    assert!(!by_slots.is_full());
    by_slots.add(LlamaToken(2), 1, &[0], false).unwrap();
    assert!(by_slots.is_full());

    let mut by_sequences = TokenBatch::new(16, 2);
    by_sequences.add(LlamaToken(1), 0, &[0], false).unwrap();
    by_sequences.add(LlamaToken(2), 1, &[0], false).unwrap();
    assert!(!by_sequences.is_full());
    by_sequences.add(LlamaToken(3), 0, &[1], false).unwrap();
    assert_eq!(by_sequences.sequence_count(), 2);
    assert!(by_sequences.is_full());
}

#[test]
fn add_sequence_numbers_positions_from_zero() {
    let mut batch = TokenBatch::new(8, 1);
    let tokens = [LlamaToken(10), LlamaToken(11), LlamaToken(12)];
    assert_eq!(batch.add_sequence(&tokens, 3, true), Ok(()));
    assert_eq!(batch.len(), 3);
    for i in 0..3 {
        let entry = batch.entry(i);
        assert_eq!(entry.token, tokens[i]);
        assert_eq!(entry.position, i as i32);
        assert_eq!(entry.sequence_ids, vec![3]);
        assert_eq!(entry.wants_logits, i == 2);
    }
}

#[test]
fn add_sequence_without_logits_requests_none() {
    let mut batch = TokenBatch::new(8, 1);
    batch.add_sequence(&[LlamaToken(1), LlamaToken(2)], 0, false).unwrap();
    assert!(!batch.entry(0).wants_logits);
    assert!(!batch.entry(1).wants_logits);
}

#[test]
fn add_sequence_fails_atomically() {
    let mut batch = TokenBatch::new(4, 1);
    batch.add_sequence(&[LlamaToken(1), LlamaToken(2), LlamaToken(3)], 0, false).unwrap();
    assert_eq!(
        batch.add_sequence(&[LlamaToken(4), LlamaToken(5)], 1, false),
        Err(CapacityExceeded::Slots { free: 1, requested: 2 })
    );
    assert_eq!(batch.len(), 3);
    assert_eq!(batch.sequence_count(), 1);
    assert_eq!(batch.add_sequence(&[LlamaToken(4)], 1, false), Ok(()));
    assert_eq!(batch.len(), 4);
    assert_eq!(batch.entry(3).position, 0);
    assert_eq!(batch.entry(3).sequence_ids, vec![1]);
}

#[test]
fn add_sequence_needs_room_for_one_sequence_id() {
    let mut batch = TokenBatch::new(4, 0);
    assert_eq!(
        batch.add_sequence(&[LlamaToken(1)], 0, false),
        Err(CapacityExceeded::SequenceIds { max: 0, requested: 1 })
    );
    assert_eq!(batch.len(), 0);
}
