use spine::embed::search::{EmbeddingEntry, EmbeddingIndex, SearchParams};

fn keys(index: &EmbeddingIndex<Vec<u8>>) -> Vec<(String, String, Vec<u8>)> {
    (0..index.len())
        .map(|i| {
            let e = index.entry(i);
            (e.entity_type.clone(), e.entity_key.clone(), e.vector.clone())
        })
        .collect()
}

fn entry(t: &str, k: &str, v: u8) -> (String, String, Vec<u8>) {
    (t.to_string(), k.to_string(), vec![v])
}

#[test]
fn upsert_appends_then_replaces() {
    let mut index: EmbeddingIndex<Vec<u8>> = EmbeddingIndex::new();
    index.upsert("service", "a", vec![1]);
    index.upsert("table", "a", vec![2]);
    index.upsert("service", "b", vec![3]);
    index.upsert("service", "a", vec![4]);
    assert_eq!(keys(&index), vec![entry("service", "a", 4), entry("table", "a", 2), entry("service", "b", 3)]);
}

#[test]
fn remove_drops_only_that_entity() {
    let mut index: EmbeddingIndex<Vec<u8>> = EmbeddingIndex::from_entries(vec![
        EmbeddingEntry { entity_type: "service".to_string(), entity_key: "a".to_string(), vector: vec![1] },
        EmbeddingEntry { entity_type: "table".to_string(), entity_key: "a".to_string(), vector: vec![2] },
        EmbeddingEntry { entity_type: "service".to_string(), entity_key: "a".to_string(), vector: vec![3] },
        EmbeddingEntry { entity_type: "queue".to_string(), entity_key: "q".to_string(), vector: vec![4] },
    ]);
    index.remove("service", "a");
    assert_eq!(keys(&index), vec![entry("table", "a", 2), entry("queue", "q", 4)]);
    index.remove("service", "missing");
    assert_eq!(index.len(), 2);
}

#[test]
fn candidates_follow_the_type_filter() {
    let mut index: EmbeddingIndex<Vec<u8>> = EmbeddingIndex::new();
    index.upsert("service", "svc-a", vec![1]);
    index.upsert("table", "tbl-a", vec![1]);
    index.upsert("queue", "q-a", vec![1]);
    index.upsert("table", "tbl-b", vec![1]);
    assert_eq!(index.candidates(None), vec![0, 1, 2, 3]);
    assert_eq!(index.candidates(Some("table")), vec![1, 3]);
    assert_eq!(index.candidates(Some("proto")), Vec::<usize>::new());
    let empty: EmbeddingIndex<Vec<u8>> = EmbeddingIndex::new();
    assert!(empty.candidates(None).is_empty());
}

#[test]
fn search_limit_defaults() {
    let p = SearchParams { q: "users".to_string(), type_filter: None, limit: None };
    assert_eq!(p.limit_or(20), 20);
    let p = SearchParams { q: "users".to_string(), type_filter: None, limit: Some(3) };
    assert_eq!(p.limit_or(20), 3);
}
