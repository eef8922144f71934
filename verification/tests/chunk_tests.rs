use vox::chunk::{
    chunk_id, Chunker, ChunkingStrategy, FixedChunker, SentenceChunker, SlidingChunker,
};
use vox::language::Language;
use vox::preprocess::{preprocess, PreprocessedDocument, RawDocument};

fn document(text: &str) -> PreprocessedDocument {
    PreprocessedDocument {
        id: "doc-1".to_owned(),
        text: text.to_owned(),
        language: Language::En,
        source: "sample".to_owned(),
    }
}

#[test]
fn fixed_chunker_should_respect_size_and_overlap() {
    let chunker = FixedChunker::new(10, 3);
    let chunks = chunker.split("abcdefghij klmnopqrst uvwxyz");
    assert!(chunks.len() >= 3);
    for chunk in &chunks[..chunks.len() - 1] {
        assert!(chunk.chars().count() <= 10);
    }
    let tail: String = chunks[0]
        .chars()
        .skip(chunks[0].chars().count() - 3)
        .collect();
    let head: String = chunks[1].chars().take(3).collect();
    assert_eq!(tail, head);
}

#[test]
fn fixed_chunker_should_return_single_chunk_for_short_text() {
    let chunker = FixedChunker::new(100, 10);
    assert_eq!(chunker.split("short text"), vec!["short text".to_owned()]);
    assert!(chunker.split("").is_empty());
}

#[test]
fn sentence_chunker_should_split_on_danda_and_periods() {
    let chunker = SentenceChunker::new(60, 10);
    let text = "GST is an indirect tax. It replaced VAT! क्या यह सही है? जीएसटी एक कर है। tail";
    let chunks = chunker.split(text);
    assert!(chunks.len() >= 2);
    let joined = chunks.join(" ");
    for word in ["indirect", "VAT", "जीएसटी", "tail"] {
        assert!(joined.contains(word), "missing {word}");
    }
}

#[test]
fn sentence_chunker_should_pack_under_max_chars() {
    let chunker = SentenceChunker::new(50, 5);
    let text = "First sentence here. Second sentence follows it. Third one arrives now.";
    let chunks = chunker.split(text);
    for chunk in &chunks {
        assert!(chunk.chars().count() <= 120, "oversized chunk: {chunk}");
    }
    assert!(chunks.len() >= 2 && chunks.len() <= 3);
}

#[test]
fn sliding_chunker_should_overlap_by_window_minus_stride() {
    let chunker = SlidingChunker::new(8, 4);
    let chunks = chunker.split("abcdefghijklmnop");
    assert_eq!(chunks.len(), 3);
    assert_eq!(chunks[0], "abcdefgh");
    assert_eq!(chunks[1], "efghijkl");
    assert_eq!(chunks[2], "ijklmnop");
}

#[test]
fn chunk_document_should_preserve_full_metadata() {
    let doc = document("Sentence one ends here. Sentence two ends there.");
    let records = SentenceChunker::new(40, 5).chunk_document(&doc);
    assert!(!records.is_empty());
    for (index, record) in records.iter().enumerate() {
        assert_eq!(record.document_id, "doc-1");
        assert_eq!(record.chunk_id, format!("doc-1#{index:04}"));
        assert_eq!(record.chunk_index, index);
        assert_eq!(record.language, Language::En);
        assert_eq!(record.chunking_strategy, "sentence");
        assert_eq!(record.source, "sample");
    }
}

#[test]
fn strategy_factory_should_build_matching_chunkers() {
    let strategies = [
        ChunkingStrategy::Fixed { size: 32, overlap: 8 },
        ChunkingStrategy::Sentence { max_chars: 64, min_chars: 8 },
        ChunkingStrategy::Sliding { window: 16, stride: 8 },
    ];
    for strategy in strategies {
        let built = strategy.build();
        assert_eq!(built.name(), strategy.name());
    }
}

#[test]
fn chunk_ids_should_be_unique_per_document() {
    let docs = vec![
        PreprocessedDocument {
            id: "a".into(),
            text: "One two three four five.".into(),
            language: Language::En,
            source: "s".into(),
        },
        PreprocessedDocument {
            id: "b".into(),
            text: "Six seven eight nine ten.".into(),
            language: Language::En,
            source: "s".into(),
        },
    ];
    let chunker = SentenceChunker::new(12, 4);
    let mut ids = Vec::new();
    for doc in &docs {
        ids.extend(chunker.chunk_document(doc).into_iter().map(|c| c.chunk_id));
    }
    let unique: std::collections::HashSet<&String> = ids.iter().collect();
    assert_eq!(unique.len(), ids.len());
}

#[test]
fn raw_documents_flow_through_chunking_metadata() {
    let raw = RawDocument {
        id: "hi-1".into(),
        text: "जीएसटी एक अप्रत्यक्ष कर है भारत में पूरी तरह".into(),
        source: "msmarco-xi".into(),
    };
    let (docs, _) = preprocess(&[raw], &[Language::Hi]).expect("preprocess");
    let records = SentenceChunker::new(30, 5).chunk_document(&docs[0]);
    assert_eq!(records[0].language, Language::Hi);
    assert_eq!(records[0].source, "msmarco-xi");
    assert_eq!(records[0].document_id, "hi-1");
}

#[test]
fn chunk_ids_should_pad_to_four_digits_and_grow_beyond() {
    assert_eq!(chunk_id("d", 0), "d#0000");
    assert_eq!(chunk_id("d", 42), "d#0042");
    assert_eq!(chunk_id("d", 12345), "d#12345");
}

#[test]
fn sentence_chunker_should_keep_every_word_and_never_return_nothing_for_text() {
    let chunker = SentenceChunker::new(20, 5);
    let text = "Alpha beta.  Gamma!\n\nDelta epsilon zeta eta theta iota kappa. Mu";
    let chunks = chunker.split(text);
    let kept: String = chunks.concat().chars().filter(|c| !c.is_whitespace()).collect();
    let original: String = text.chars().filter(|c| !c.is_whitespace()).collect();
    assert_eq!(kept, original);
    // Non-empty input never gives an empty result, even white space only.
    assert_eq!(chunker.split("   \n  "), vec!["   \n  ".to_owned()]);
    assert!(chunker.split("").is_empty());
}

#[test]
fn zero_sizes_should_not_wedge_chunking() {
    assert_eq!(FixedChunker::new(0, 5).split("abc"), vec!["abc".to_owned()]);
    assert_eq!(
        SlidingChunker::new(0, 0).split("abc"),
        vec!["a".to_owned(), "b".to_owned(), "c".to_owned()]
    );
    assert_eq!(
        FixedChunker::new(2, 5).split("abcd"),
        vec!["ab".to_owned(), "bc".to_owned(), "cd".to_owned()]
    );
}

#[test]
fn sliding_chunker_with_a_stride_beyond_the_window_skips_text() {
    assert_eq!(
        SlidingChunker::new(2, 5).split("abcdefgh"),
        vec!["ab".to_owned(), "fg".to_owned()]
    );
}
