use vox::chunk::ChunkRecord;
use vox::language::Language;
use vox::vector_store::MemoryVectorStore;

fn chunk(id: &str) -> ChunkRecord {
    ChunkRecord {
        document_id: id.to_owned(),
        chunk_id: format!("{id}#0000"),
        chunk_index: 0,
        text: format!("text of {id}"),
        language: Language::En,
        chunking_strategy: "fixed".to_owned(),
        source: "test".to_owned(),
    }
}

#[test]
fn memory_store_should_dedupe_by_chunk_id() {
    let mut store: MemoryVectorStore<Vec<f32>> = MemoryVectorStore::new();
    store.upsert(vec![(chunk("a"), vec![1.0, 0.0])]);
    store.upsert(vec![(chunk("a"), vec![0.0, 1.0])]);
    assert_eq!(store.count(), 1);
    assert_eq!(store.entries()[0].0, vec![0.0, 1.0]);
}

#[test]
fn memory_store_should_upsert_and_count() {
    let mut store: MemoryVectorStore<Vec<f32>> = MemoryVectorStore::new();
    assert_eq!(store.name(), "memory");
    assert_eq!(store.count(), 0);
    store.upsert(vec![(chunk("a"), vec![1.0, 0.0, 0.0]), (chunk("b"), vec![0.0, 1.0, 0.0])]);
    assert_eq!(store.count(), 2);
    let ids: Vec<&str> = store.entries().iter().map(|(_, c)| c.chunk_id.as_str()).collect();
    assert_eq!(ids, vec!["a#0000", "b#0000"]);
}

#[test]
fn rewriting_an_entry_should_keep_its_position_and_take_the_last_write() {
    let mut store: MemoryVectorStore<u32> = MemoryVectorStore::new();
    store.upsert(vec![(chunk("a"), 1), (chunk("b"), 2), (chunk("a"), 3), (chunk("c"), 4)]);
    let view: Vec<(String, u32)> = store
        .entries()
        .iter()
        .map(|(v, c)| (c.chunk_id.clone(), *v))
        .collect();
    assert_eq!(
        view,
        vec![("a#0000".to_owned(), 3), ("b#0000".to_owned(), 2), ("c#0000".to_owned(), 4)]
    );
}

#[test]
fn count_should_be_the_number_of_distinct_chunk_ids_after_many_upserts() {
    let mut store: MemoryVectorStore<u32> = MemoryVectorStore::new();
    store.upsert(vec![(chunk("a"), 1), (chunk("b"), 2)]);
    store.upsert(vec![(chunk("b"), 3), (chunk("c"), 4), (chunk("a"), 5)]);
    store.upsert(vec![]);
    store.upsert(vec![(chunk("c"), 6), (chunk("c"), 7)]);
    assert_eq!(store.count(), 3);
}
