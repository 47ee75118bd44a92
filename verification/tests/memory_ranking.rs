//! Similarity, decay and retrieval ranking on concrete values.

use persona_forge::memory::{cosine_similarity, decay, Embedding, EmbeddingStore, MemoryChunk};
use persona_forge::SCALE;

fn emb(components: Vec<i64>) -> Embedding {
    Embedding::new(components).expect("components within bounds")
}

fn chunk(conversation_id: i64, text: &str, components: Vec<i64>, created_at: u64) -> MemoryChunk {
    MemoryChunk {
        conversation_id,
        text: text.to_string(),
        embedding: emb(components),
        created_at,
        importance: SCALE,
    }
}

#[test]
fn cosine_identical_vectors_is_one_unit() {
    let a = emb(vec![1_000_000, 0]);
    let b = emb(vec![1_000_000, 0]);
    assert_eq!(cosine_similarity(&a, &b), SCALE as i128);
}

#[test]
fn cosine_orthogonal_vectors_is_zero() {
    let a = emb(vec![1_000_000, 0]);
    let b = emb(vec![0, 1_000_000]);
    assert_eq!(cosine_similarity(&a, &b), 0);
}

#[test]
fn cosine_opposite_vectors_is_negative() {
    let a = emb(vec![1_000_000]);
    let b = emb(vec![-1_000_000]);
    assert_eq!(cosine_similarity(&a, &b), -(SCALE as i128));
}

#[test]
fn cosine_exact_value() {
    let a = emb(vec![300_000, 400_000]);
    let b = emb(vec![400_000, 300_000]);
    // dot = 2.4e11, both norms 500_000, so 2.4e11 * 1e6 / 2.5e11 = 960_000
    assert_eq!(cosine_similarity(&a, &b), 960_000);
}

#[test]
fn cosine_tiny_vector_is_exactly_one_unit() {
    // the norm product is 4, its root exactly 2, the dot exactly 2
    let a = emb(vec![1, 1]);
    let b = emb(vec![1, 1]);
    assert_eq!(cosine_similarity(&a, &b), SCALE as i128);
    let c = emb(vec![1, 1, 1]);
    let d = emb(vec![1, 1, 1]);
    assert_eq!(cosine_similarity(&c, &d), SCALE as i128);
}

#[test]
fn cosine_never_leaves_the_unit_range() {
    let vectors = vec![
        vec![1],
        vec![1, 1],
        vec![1, 0],
        vec![2, 3],
        vec![-1, 1, 2],
        vec![1_000_000, -1_000_000],
        vec![7, 0, 0, 5],
    ];
    for x in &vectors {
        for y in &vectors {
            if x.len() == y.len() {
                let s = cosine_similarity(&emb(x.clone()), &emb(y.clone()));
                assert!(-(SCALE as i128) <= s && s <= SCALE as i128, "{:?} vs {:?}", x, y);
            }
        }
    }
}

#[test]
fn cosine_is_symmetric() {
    let a = emb(vec![123_456, -654, 999_999]);
    let b = emb(vec![-456, 77_777, 5]);
    assert_eq!(cosine_similarity(&a, &b), cosine_similarity(&b, &a));
}

#[test]
fn cosine_mismatched_lengths_yield_zero() {
    let a = emb(vec![1_000_000, 1]);
    let b = emb(vec![1_000_000]);
    assert_eq!(cosine_similarity(&a, &b), 0);
    assert_eq!(cosine_similarity(&b, &a), 0);
}

#[test]
fn cosine_empty_vectors_yield_zero() {
    let a = emb(vec![]);
    let b = emb(vec![]);
    assert_eq!(cosine_similarity(&a, &b), 0);
}

#[test]
fn embedding_rejects_out_of_range_components() {
    assert!(Embedding::new(vec![1_000_001]).is_none());
    assert!(Embedding::new(vec![-1_000_001]).is_none());
    assert!(Embedding::new(vec![1_000_000, -1_000_000]).is_some());
}

#[test]
fn embedding_rejects_oversized_dimension() {
    assert!(Embedding::new(vec![0; 4096]).is_some());
    assert!(Embedding::new(vec![0; 4097]).is_none());
}

#[test]
fn decay_at_age_zero_is_one_unit() {
    assert_eq!(decay(500_000, 0), SCALE);
    assert_eq!(decay(0, 0), SCALE);
}

#[test]
fn decay_halves_each_hour_at_half_unit() {
    assert_eq!(decay(500_000, 1), 500_000);
    assert_eq!(decay(500_000, 2), 250_000);
    assert_eq!(decay(500_000, 3), 125_000);
}

#[test]
fn decay_strictly_decreases_while_positive() {
    let q = 999_000;
    let mut prev = decay(q, 0);
    for h in 1..20u64 {
        let d = decay(q, h);
        assert!(d < prev, "hour {} did not decay", h);
        prev = d;
    }
}

#[test]
fn decay_disabled_at_one_unit() {
    assert_eq!(decay(SCALE, 0), SCALE);
    assert_eq!(decay(SCALE, 1000), SCALE);
}

#[test]
fn decay_zero_factor_drops_to_zero_after_one_hour() {
    assert_eq!(decay(0, 1), 0);
    assert_eq!(decay(0, 500), 0);
}

#[test]
fn retrieval_ranks_by_similarity() {
    let mut store = EmbeddingStore::new();
    store.store(chunk(1, "about cats", vec![1_000_000, 0], 0));
    store.store(chunk(1, "about dogs", vec![0, 1_000_000], 0));
    store.store(chunk(1, "about lynxes", vec![900_000, 100_000], 0));
    let query = emb(vec![1_000_000, 0]);
    // decay disabled, so similarity alone ranks
    let texts = store.retrieve(1, &query, 2, 0, SCALE);
    assert_eq!(texts, vec!["about cats".to_string(), "about lynxes".to_string()]);
}

#[test]
fn retrieval_ignores_other_conversations() {
    let mut store = EmbeddingStore::new();
    store.store(chunk(1, "mine", vec![1_000_000], 0));
    store.store(chunk(2, "theirs", vec![1_000_000], 0));
    let query = emb(vec![1_000_000]);
    let texts = store.retrieve(1, &query, 10, 0, SCALE);
    assert_eq!(texts, vec!["mine".to_string()]);
}

#[test]
fn retrieval_breaks_ties_by_storage_order() {
    let mut store = EmbeddingStore::new();
    store.store(chunk(1, "first", vec![1_000_000], 0));
    store.store(chunk(1, "second", vec![1_000_000], 0));
    store.store(chunk(1, "third", vec![1_000_000], 0));
    let query = emb(vec![1_000_000]);
    let texts = store.retrieve(1, &query, 3, 0, SCALE);
    assert_eq!(
        texts,
        vec!["first".to_string(), "second".to_string(), "third".to_string()]
    );
}

#[test]
fn retrieval_decay_prefers_recent_on_equal_similarity() {
    let mut store = EmbeddingStore::new();
    let hour = 3600u64;
    store.store(chunk(1, "old", vec![1_000_000], 0));
    store.store(chunk(1, "new", vec![1_000_000], 10 * hour));
    let query = emb(vec![1_000_000]);
    // a fast decay: the ten-hour-old chunk scores lower
    let texts = store.retrieve(1, &query, 2, 10 * hour, 500_000);
    assert_eq!(texts, vec!["new".to_string(), "old".to_string()]);
}

#[test]
fn retrieval_importance_outweighs_mild_decay() {
    let mut store = EmbeddingStore::new();
    let hour = 3600u64;
    let mut weighty = chunk(1, "weighty", vec![1_000_000], 0);
    weighty.importance = 4 * SCALE;
    store.store(weighty);
    store.store(chunk(1, "plain", vec![1_000_000], hour));
    let query = emb(vec![1_000_000]);
    // one hour at half decay halves the older chunk, but its importance
    // of four units still wins: 4 * 1/2 > 1 * 1
    let texts = store.retrieve(1, &query, 2, hour, 500_000);
    assert_eq!(texts, vec!["weighty".to_string(), "plain".to_string()]);
}

#[test]
fn retrieval_empty_store_yields_nothing() {
    let store = EmbeddingStore::new();
    let query = emb(vec![1_000_000]);
    let texts = store.retrieve(1, &query, 3, 0, SCALE);
    assert!(texts.is_empty());
}

#[test]
fn retention_drops_oldest_of_the_conversation_only() {
    let mut store = EmbeddingStore::new();
    store.store(chunk(1, "a", vec![1_000_000], 0));
    store.store(chunk(2, "other", vec![1_000_000], 1));
    store.store(chunk(1, "b", vec![1_000_000], 2));
    store.store(chunk(1, "c", vec![1_000_000], 3));
    store.cleanup_old_memories(1, 2);
    assert_eq!(store.len(), 3);
    let query = emb(vec![1_000_000]);
    let kept = store.retrieve(1, &query, 10, 0, SCALE);
    assert_eq!(kept, vec!["b".to_string(), "c".to_string()]);
    let other = store.retrieve(2, &query, 10, 0, SCALE);
    assert_eq!(other, vec!["other".to_string()]);
}

#[test]
fn retention_under_cap_changes_nothing() {
    let mut store = EmbeddingStore::new();
    store.store(chunk(1, "a", vec![1_000_000], 0));
    store.cleanup_old_memories(1, 5);
    assert_eq!(store.len(), 1);
}

#[test]
fn importance_update_changes_ranking() {
    let mut store = EmbeddingStore::new();
    store.store(chunk(1, "first", vec![1_000_000], 0));
    store.store(chunk(1, "second", vec![1_000_000], 0));
    // raise the second chunk's weight: it overtakes the tie
    store.update_chunk_importance(1, 2 * SCALE);
    let query = emb(vec![1_000_000]);
    let texts = store.retrieve(1, &query, 2, 0, SCALE);
    assert_eq!(texts, vec!["second".to_string(), "first".to_string()]);
}
