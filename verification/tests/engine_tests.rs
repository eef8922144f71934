use vox::bench::{aggregate_tallies, LanguageTally, StageFailures};
use vox::chunk::{ChunkingStrategy, Chunker};
use vox::engine::{chunk_documents, final_count, prepare_index, rank_of};
use vox::language::Language;
use vox::oreo_config::OreoConfig;
use vox::preprocess::{PreprocessedDocument, RawDocument};
use vox::rerank::LexicalOverlapReranker;

fn raw(id: &str, text: &str) -> RawDocument {
    RawDocument {
        id: id.to_owned(),
        text: text.to_owned(),
        source: "unit".to_owned(),
    }
}

#[test]
fn prepare_index_should_count_every_stage() {
    let config = OreoConfig::default();
    let records = vec![
        raw("gst", "Goods and Services Tax is an indirect tax on supplies."),
        raw("tiny", "too short"),
        raw("digits", "12345 67890 12345 67890 !!!"),
    ];
    let (chunks, report) = prepare_index(&records, &config).expect("never fails");
    assert_eq!(report.raw_documents, 3);
    assert_eq!(report.documents, 1);
    assert_eq!(report.stats.kept, 1);
    assert_eq!(report.stats.skipped_too_short, 1);
    assert_eq!(report.stats.skipped_unsupported_language, 1);
    assert_eq!(report.chunks, chunks.len());
    assert_eq!(chunks.len(), 1);
    assert_eq!(chunks[0].chunk_id, "gst#0000");
    assert_eq!(chunks[0].document_id, "gst");
    assert_eq!(chunks[0].language, Language::En);
    assert_eq!(chunks[0].chunking_strategy, "sentence");
    assert_eq!(chunks[0].text, "Goods and Services Tax is an indirect tax on supplies.");
    // Every raw record is accounted for exactly once.
    assert_eq!(
        report.documents + report.stats.skipped_too_short + report.stats.skipped_unsupported_language,
        report.raw_documents
    );
}

#[test]
fn prepare_index_should_keep_only_configured_languages() {
    let mut config = OreoConfig::default();
    config.languages = vec![Language::Hi];
    let records = vec![raw("en", "Goods and Services Tax is an indirect tax on supplies.")];
    let (chunks, report) = prepare_index(&records, &config).expect("never fails");
    assert!(chunks.is_empty());
    assert_eq!(report.documents, 0);
    assert_eq!(report.stats.skipped_unsupported_language, 1);
}

#[test]
fn chunk_documents_should_concatenate_in_document_order() {
    let docs = vec![
        PreprocessedDocument {
            id: "a".to_owned(),
            text: "abcdefghij".to_owned(),
            language: Language::En,
            source: "s".to_owned(),
        },
        PreprocessedDocument {
            id: "b".to_owned(),
            text: "klmnop".to_owned(),
            language: Language::Hi,
            source: "s".to_owned(),
        },
    ];
    let chunker = ChunkingStrategy::Fixed { size: 4, overlap: 0 }.build();
    let chunks = chunk_documents(&docs, &chunker);
    let ids: Vec<&str> = chunks.iter().map(|c| c.chunk_id.as_str()).collect();
    assert_eq!(ids, vec!["a#0000", "a#0001", "a#0002", "b#0000", "b#0001"]);
    let texts: Vec<&str> = chunks.iter().map(|c| c.text.as_str()).collect();
    assert_eq!(texts, vec!["abcd", "efgh", "ij", "klmn", "op"]);
    assert_eq!(chunks[4].language, Language::Hi);
    assert_eq!(chunks.len(), chunker.split("abcdefghij").len() + chunker.split("klmnop").len());
}

#[test]
fn final_count_should_cap_the_request_by_the_configuration() {
    assert_eq!(final_count(3, 5), 3);
    assert_eq!(final_count(10, 5), 5);
    assert_eq!(final_count(5, 5), 5);
}

#[test]
fn ranks_should_start_at_one_and_saturate() {
    assert_eq!(rank_of(0), 1);
    assert_eq!(rank_of(4), 5);
    assert_eq!(rank_of(usize::MAX), u32::MAX);
}

#[test]
fn overlap_should_weigh_tokens_and_trigrams() {
    // Query features: tokens gst, tax (4 quarters each) and trigrams gst,
    // stt, tta, tax (1 quarter each); the chunk shares gst and tax fully.
    assert_eq!(LexicalOverlapReranker::overlap("gst tax", "gst is a tax"), (10, 12));
    assert_eq!(LexicalOverlapReranker::overlap("gst tax", "nothing related"), (0, 12));
    assert_eq!(LexicalOverlapReranker::overlap("", "anything"), (0, 0));
}

#[test]
fn overlap_should_never_exceed_the_query_weight() {
    let (shared, total) = LexicalOverlapReranker::overlap("tax tax", "tax tax tax tax");
    assert!(shared <= total);
    // Two token occurrences and the trigrams tax, axt, xta, tax.
    assert_eq!(total, 4 * 2 + 4);
}

#[test]
fn group_tallies_should_sum_counts_and_merge_failures() {
    let en = LanguageTally {
        language: Language::En,
        queries_count: 3,
        latency_samples: 15,
        failures: StageFailures {
            total_queries: 3,
            stt: 1,
            lid: 0,
            retrieval: 2,
            grounding: 0,
            generation: 0,
            total_failures: 3,
        },
    };
    let hi = LanguageTally {
        language: Language::Hi,
        queries_count: 2,
        latency_samples: 10,
        failures: StageFailures {
            total_queries: 2,
            stt: 0,
            lid: 1,
            retrieval: 0,
            grounding: 1,
            generation: 1,
            total_failures: 3,
        },
    };
    let group = aggregate_tallies(&[en, hi]);
    assert_eq!(group.languages, vec!["en".to_owned(), "hi".to_owned()]);
    assert_eq!(group.queries_count, 5);
    assert_eq!(group.latency_samples, 25);
    assert_eq!(
        group.failures,
        StageFailures {
            total_queries: 5,
            stt: 1,
            lid: 1,
            retrieval: 2,
            grounding: 1,
            generation: 1,
            total_failures: 6,
        }
    );
    assert_eq!(
        group.failures.total_failures,
        group.failures.stt
            + group.failures.lid
            + group.failures.retrieval
            + group.failures.grounding
            + group.failures.generation
    );
}

#[test]
fn empty_group_should_have_zero_tallies() {
    let group = aggregate_tallies(&[]);
    assert!(group.languages.is_empty());
    assert_eq!(group.queries_count, 0);
    assert_eq!(group.failures, StageFailures::zero());
}
