use vox::chunk::ChunkingStrategy;
use vox::embed::{fnv1a, qdrant_point_id, HashedEmbedder};
use vox::language::Language;
use vox::oreo_config::{parse_chunking, OreoConfig, OreoError, VectorStoreKind};
use vox::preprocess::{clean, detect_language, normalize, preprocess, RawDocument};
use vox::rerank::{LexicalOverlapReranker, NoopReranker, RerankerKind};
use unicode_normalization::UnicodeNormalization;

fn source_from(pairs: &[(&str, &str)]) -> Vec<(String, String)> {
    pairs
        .iter()
        .map(|(k, v)| ((*k).to_owned(), (*v).to_owned()))
        .collect()
}

#[test]
fn defaults_should_validate() {
    assert!(OreoConfig::default().validate().is_ok());
}

#[test]
fn defaults_should_cover_primary_languages() {
    let config = OreoConfig::default();
    assert_eq!(
        config.languages,
        vec![Language::En, Language::Hi, Language::Ta]
    );
    assert_eq!(config.candidate_top, 20);
    assert_eq!(config.final_top, 5);
}

#[test]
fn from_source_should_parse_language_list_and_pools() {
    let config = OreoConfig::from_source(&source_from(&[
        ("VOX_OREO_LANGUAGES", "en, ta"),
        ("VOX_OREO_CANDIDATE_TOP", "40"),
        ("VOX_OREO_FINAL_TOP", "10"),
        ("VOX_OREO_RRF_K", "30"),
        ("VOX_OREO_EMBEDDING_DIM", "128"),
    ]))
    .expect("config parses");
    assert_eq!(config.languages, vec![Language::En, Language::Ta]);
    assert_eq!(config.candidate_top, 40);
    assert_eq!(config.final_top, 10);
    assert_eq!(config.rrf_k, 30);
    assert_eq!(config.embedding_dim, 128);
}

#[test]
fn from_source_should_reject_unknown_languages() {
    let err = OreoConfig::from_source(&source_from(&[("VOX_OREO_LANGUAGES", "xx")]))
        .expect_err("unsupported language rejected");
    assert!(matches!(err, OreoError::Config(_)));
}

#[test]
fn from_source_should_parse_chunking_variants() {
    let fixed = OreoConfig::from_source(&source_from(&[("VOX_OREO_CHUNKING", "fixed:512:64")]))
        .expect("fixed");
    assert_eq!(
        fixed.chunking,
        ChunkingStrategy::Fixed {
            size: 512,
            overlap: 64
        }
    );
    let sliding =
        OreoConfig::from_source(&source_from(&[("VOX_OREO_CHUNKING", "sliding:400:100")]))
            .expect("sliding");
    assert_eq!(
        sliding.chunking,
        ChunkingStrategy::Sliding {
            window: 400,
            stride: 100
        }
    );
}

#[test]
fn validate_should_require_qdrant_url_for_qdrant_kind() {
    let config = OreoConfig {
        vector_store: VectorStoreKind::Qdrant,
        qdrant_url: String::new(),
        ..OreoConfig::default()
    };
    assert!(matches!(
        config.validate(),
        Err(OreoError::Config(message)) if message.contains("qdrant_url")
    ));
}

#[test]
fn validate_should_reject_final_top_above_candidate_pool() {
    let config = OreoConfig {
        candidate_top: 5,
        final_top: 10,
        ..OreoConfig::default()
    };
    assert!(config.validate().is_err());
}

#[test]
fn chunking_should_default_missing_parameters_and_reject_bad_ones() {
    assert_eq!(
        parse_chunking(" sentence "),
        Ok(ChunkingStrategy::Sentence { max_chars: 700, min_chars: 80 })
    );
    assert_eq!(
        parse_chunking("fixed:256"),
        Ok(ChunkingStrategy::Fixed { size: 256, overlap: 120 })
    );
    assert_eq!(
        parse_chunking("sliding: 10 : 5 :ignored"),
        Ok(ChunkingStrategy::Sliding { window: 10, stride: 5 })
    );
    assert_eq!(
        parse_chunking("paragraph"),
        Err(OreoError::Config("unknown chunking strategy: paragraph".to_owned()))
    );
    assert!(matches!(
        parse_chunking("fixed:ten"),
        Err(OreoError::Config(m)) if m.starts_with("chunking parameter: ")
    ));
}

#[test]
fn from_source_should_normalize_urls_and_reject_unknown_kinds() {
    let config = OreoConfig::from_source(&source_from(&[
        ("VOX_OREO_VECTOR_STORE", "qdrant"),
        ("VOX_OREO_QDRANT_URL", " http://q:6333// "),
        ("VOX_OREO_RERANKER", "noop"),
        ("VOX_OREO_COLLECTION", "  docs "),
    ]))
    .expect("parses");
    assert_eq!(config.vector_store, VectorStoreKind::Qdrant);
    assert_eq!(config.qdrant_url, "http://q:6333");
    assert_eq!(config.reranker, RerankerKind::Noop);
    assert_eq!(config.qdrant_collection, "docs");
    assert_eq!(
        OreoConfig::from_source(&source_from(&[("VOX_OREO_VECTOR_STORE", "faiss")])).unwrap_err(),
        OreoError::Config("unknown VOX_OREO_VECTOR_STORE value: faiss".to_owned())
    );
    assert_eq!(
        OreoConfig::from_source(&source_from(&[("VOX_OREO_FINAL_TOP", "0")])).unwrap_err(),
        OreoError::Config("candidate_top and final_top must be > 0".to_owned())
    );
    assert!(matches!(
        OreoConfig::from_source(&source_from(&[("VOX_OREO_RRF_K", "-1")])),
        Err(OreoError::Config(m)) if m.starts_with("VOX_OREO_RRF_K: ")
    ));
}

#[test]
fn empty_language_lists_should_keep_the_defaults() {
    let config = OreoConfig::from_source(&source_from(&[("VOX_OREO_LANGUAGES", " , ")]))
        .expect("parses");
    assert_eq!(
        config.languages,
        vec![Language::En, Language::Hi, Language::Ta]
    );
}

#[test]
fn tokenizer_should_lowercase_and_split_on_punctuation() {
    assert_eq!(
        HashedEmbedder::tokenize("Hello, GST-World!"),
        vec!["hello".to_owned(), "gst".to_owned(), "world".to_owned()]
    );
}

#[test]
fn trigrams_should_cover_indic_scripts() {
    let trigrams = HashedEmbedder::char_trigrams("जीएसटी");
    assert!(!trigrams.is_empty());
    assert!(trigrams.iter().all(|t| t.chars().count() == 3));
}

#[test]
fn trigrams_should_skip_white_space_and_lowercase() {
    assert_eq!(
        HashedEmbedder::char_trigrams("Ab c D"),
        vec!["abc".to_owned(), "bcd".to_owned()]
    );
    assert!(HashedEmbedder::char_trigrams("a b").is_empty());
}

#[test]
fn point_ids_should_be_stable_across_calls() {
    assert_eq!(qdrant_point_id("doc#0000"), qdrant_point_id("doc#0000"));
    assert_ne!(qdrant_point_id("doc#0000"), qdrant_point_id("doc#0001"));
}

#[test]
fn fnv1a_should_match_the_published_test_vectors() {
    assert_eq!(fnv1a(b""), 0xcbf2_9ce4_8422_2325);
    assert_eq!(fnv1a(b"a"), 0xaf63_dc4c_8601_ec8c);
    assert_eq!(fnv1a(b"foobar"), 0x8594_4171_f739_67e8);
}

#[test]
fn feature_slots_should_stay_in_range() {
    let embedder = HashedEmbedder::new(64);
    assert_eq!(embedder.dim(), 64);
    let (index, _) = embedder.feature_slot("gst").expect("slot");
    assert!(index < 64);
    assert_eq!(HashedEmbedder::new(0).feature_slot("gst"), None);
}

#[test]
fn clean_should_strip_controls_and_collapse_whitespace() {
    assert_eq!(clean("a\u{0000}b\t c \n d"), "ab c d");
    assert_eq!(clean("  multiple   spaces  "), "multiple spaces");
}

#[test]
fn normalize_should_apply_nfc() {
    let decomposed = "\u{0928}\u{093F}";
    let expected: String = "\u{0928}\u{093F}".chars().nfc().collect();
    assert_eq!(normalize(decomposed), expected);
}

#[test]
fn normalize_should_compose_latin_accents() {
    assert_eq!(normalize("e\u{0301}"), "\u{00E9}");
}

#[test]
fn detection_should_cover_english_hindi_tamil() {
    assert_eq!(
        detect_language("Goods and Services Tax"),
        Some(Language::En)
    );
    assert_eq!(detect_language("जीएसटी एक कर है"), Some(Language::Hi));
    assert_eq!(detect_language("பொருள் சேவை வரி"), Some(Language::Ta));
    assert_eq!(detect_language("12345 !!!"), None);
}

#[test]
fn hindi_with_latin_loanwords_should_stay_hindi() {
    assert_eq!(detect_language("GST पंजीकरण अनिवार्य है"), Some(Language::Hi));
}

#[test]
fn preprocess_should_filter_by_configured_languages() {
    let docs = vec![
        RawDocument {
            id: "1".into(),
            text: "Goods and Services Tax explained fully here".into(),
            source: "t".into(),
        },
        RawDocument {
            id: "2".into(),
            text: "जीएसटी एक अप्रत्यक्ष कर है भारत में".into(),
            source: "t".into(),
        },
        RawDocument {
            id: "3".into(),
            text: "ஜிஎஸ்டி ஒரு மறைமுக வரி ஆகும்".into(),
            source: "t".into(),
        },
        RawDocument {
            id: "4".into(),
            text: "هذا نص عربي يستخدم للتجربة فقط".into(),
            source: "t".into(),
        },
        RawDocument {
            id: "5".into(),
            text: "short".into(),
            source: "t".into(),
        },
    ];
    let (docs, stats) = preprocess(&docs, &[Language::En, Language::Hi]).expect("preprocess");
    assert_eq!(stats.kept, 2);
    assert_eq!(stats.skipped_unsupported_language, 2);
    assert_eq!(stats.skipped_too_short, 1);
    assert_eq!(docs[0].language, Language::En);
    assert_eq!(docs[1].language, Language::Hi);
}

#[test]
fn preprocess_should_preserve_ids_and_sources() {
    let docs = vec![RawDocument {
        id: "en-gst-001".into(),
        text: "Goods and Services Tax explained fully here".into(),
        source: "sample-docs".into(),
    }];
    let (docs, _) = preprocess(&docs, &[Language::En]).expect("preprocess");
    assert_eq!(docs[0].id, "en-gst-001");
    assert_eq!(docs[0].source, "sample-docs");
}

#[test]
fn preprocess_should_account_for_every_record() {
    let raws: Vec<RawDocument> = ["tiny", "Goods and Services Tax explained fully here", "!!!!!!!!!!!!!!!!!!!!!!!!"]
        .iter()
        .enumerate()
        .map(|(i, t)| RawDocument {
            id: i.to_string(),
            text: (*t).to_owned(),
            source: "s".to_owned(),
        })
        .collect();
    let (docs, stats) = preprocess(&raws, &[Language::En]).expect("preprocess");
    assert_eq!(docs.len(), 1);
    assert_eq!(
        stats.kept + stats.skipped_too_short + stats.skipped_unsupported_language,
        raws.len()
    );
    assert_eq!(docs[0].text, "Goods and Services Tax explained fully here");
}

#[test]
fn factory_should_build_each_kind() {
    assert_eq!(RerankerKind::Noop.name(), "noop");
    assert_eq!(RerankerKind::LexicalOverlap.name(), "lexical_overlap");
    assert_eq!(NoopReranker.name(), "noop");
    assert_eq!(LexicalOverlapReranker::new().name(), "lexical_overlap");
}

#[test]
fn slot_weights_should_sum_signed_feature_weights_per_slot() {
    let text = "Goods and Services Tax, goods tax";
    let embedder = HashedEmbedder::new(16);
    let mut weights: std::collections::HashMap<String, i128> = std::collections::HashMap::new();
    for token in HashedEmbedder::tokenize(text) {
        *weights.entry(token).or_insert(0) += 2;
    }
    for gram in HashedEmbedder::char_trigrams(text) {
        *weights.entry(gram).or_insert(0) += 1;
    }
    let mut expected = vec![0i128; 16];
    for (feature, weight) in &weights {
        let hash = fnv1a(feature.as_bytes());
        let slot = (hash % 16) as usize;
        if hash >= 0x8000_0000_0000_0000 {
            expected[slot] += weight;
        } else {
            expected[slot] -= weight;
        }
    }
    assert_eq!(embedder.slot_weights(text), expected);
}

#[test]
fn slot_weights_should_count_a_token_that_is_also_a_trigram_once() {
    // "gst" is both the only token (two halves) and the only trigram (one).
    let embedder = HashedEmbedder::new(1);
    let w = embedder.slot_weights("gst");
    assert_eq!(w.len(), 1);
    assert_eq!(w[0].abs(), 3);
    assert!(HashedEmbedder::new(0).slot_weights("gst").is_empty());
    assert_eq!(embedder.slot_weights("   "), vec![0]);
}
