use bsmcp::vector::{blob_to_embedding, embedding_to_blob, search_embeddings, RankedHit};

fn key_of(score: f32) -> i64 {
    let bits = score.to_bits() as i32;
    if bits < 0 {
        i64::from(bits ^ i32::MAX)
    } else {
        i64::from(bits)
    }
}

fn hit(chunk_id: i64, page_id: i64, score: f32) -> RankedHit {
    RankedHit { chunk_id, page_id, key: key_of(score) }
}

#[test]
fn test_blob_roundtrip() {
    let embedding = vec![1.0f32, -2.5, 0.0, std::f32::consts::PI, f32::MAX, f32::MIN];
    let bits: Vec<u32> = embedding.iter().map(|c| c.to_bits()).collect();
    let blob = embedding_to_blob(&bits);
    assert_eq!(blob[0..4], 1.0f32.to_le_bytes());
    let recovered: Vec<f32> = blob_to_embedding(&blob).into_iter().map(f32::from_bits).collect();
    assert_eq!(embedding, recovered);
}

#[test]
fn test_search_ordering_and_threshold() {
    let hits = vec![
        hit(1, 10, 1.0),
        hit(2, 20, 0.70710677),
        hit(3, 30, 0.0),
        hit(4, 40, 0.99388373),
    ];
    let results = search_embeddings(&hits, 10, key_of(0.5));
    assert_eq!(results.len(), 3);
    assert_eq!(results[0].chunk_id, 1);
    assert_eq!(results[1].chunk_id, 4);
    assert_eq!(results[2].chunk_id, 2);
}

#[test]
fn the_limit_cuts_the_worst_off() {
    let hits = vec![hit(1, 10, 0.6), hit(2, 20, 0.9), hit(3, 30, 0.9), hit(4, 40, 0.7)];
    let results = search_embeddings(&hits, 3, key_of(0.5));
    let ids: Vec<i64> = results.iter().map(|h| h.chunk_id).collect();
    assert_eq!(ids, vec![2, 3, 4]);
}

#[test]
fn equal_hits_keep_their_order() {
    let hits: Vec<RankedHit> = [(1, 5), (2, 9), (3, 5), (4, 9), (5, 5)]
        .into_iter()
        .map(|(chunk_id, key)| RankedHit { chunk_id, page_id: 0, key })
        .collect();
    let ids: Vec<i64> = search_embeddings(&hits, 9, 0).iter().map(|h| h.chunk_id).collect();
    assert_eq!(ids, vec![2, 4, 1, 3, 5]);
}

#[test]
fn a_broken_blob_loses_its_rest() {
    assert_eq!(blob_to_embedding(&[1, 0, 0, 0, 9]), vec![1]);
}
