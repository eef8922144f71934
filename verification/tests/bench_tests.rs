use vox::bench::{
    civil_from_days, first_relevant_index, iso_utc_date, record_query, relevant_hits,
    untested_languages, EngineConfigSummary, QueryOutcome, RetrievalMode, StageFailures,
};
use vox::language::Language;
use vox::oreo_config::OreoConfig;
use vox::types::Answerability;

fn ids(values: &[&str]) -> Vec<String> {
    values.iter().map(|v| (*v).to_owned()).collect()
}

#[test]
fn epoch_zero_should_render_as_1970_01_01() {
    assert_eq!(iso_utc_date(0), "1970-01-01");
}

#[test]
fn known_timestamp_should_render_correctly() {
    assert_eq!(iso_utc_date(1_787_270_400), "2026-08-21");
}

#[test]
fn leap_days_and_year_ends_should_render_correctly() {
    assert_eq!(iso_utc_date(951_782_400), "2000-02-29");
    assert_eq!(iso_utc_date(1_709_164_800), "2024-02-29");
    assert_eq!(iso_utc_date(1_704_067_199), "2023-12-31");
    assert_eq!(iso_utc_date(86_399), "1970-01-01");
    assert_eq!(civil_from_days(-1), (1969, 12, 31));
    assert_eq!(civil_from_days(-719_468), (0, 3, 1));
}

#[test]
fn merge_should_add_every_count() {
    let a = StageFailures {
        total_queries: 3,
        stt: 1,
        lid: 0,
        retrieval: 2,
        grounding: 1,
        generation: 0,
        total_failures: 4,
    };
    let b = StageFailures {
        total_queries: 2,
        stt: 0,
        lid: 1,
        retrieval: 0,
        grounding: 0,
        generation: 1,
        total_failures: 2,
    };
    let m = a.merge(b);
    assert_eq!(m, b.merge(a));
    assert_eq!(m.total_queries, 5);
    assert_eq!(m.total_failures, 6);
    assert_eq!(m.total_failures, m.stt + m.lid + m.retrieval + m.grounding + m.generation);
    assert_eq!(a.merge(StageFailures::zero()), a);
}

#[test]
fn recording_should_count_each_failed_stage() {
    let start = StageFailures {
        total_queries: 1,
        ..StageFailures::zero()
    };
    let stt_failed = record_query(
        start,
        QueryOutcome {
            stt_ok: false,
            lid_ok: false,
            retrieval_failed: true,
            recall_is_zero: true,
            grounded: false,
            generation_ok: false,
        },
    );
    assert_eq!(stt_failed.stt, 1);
    assert_eq!(stt_failed.total_failures, 1);
    assert_eq!(stt_failed.retrieval, 0);
    let retrieval_failed = record_query(
        start,
        QueryOutcome {
            stt_ok: true,
            lid_ok: true,
            retrieval_failed: true,
            recall_is_zero: true,
            grounded: false,
            generation_ok: true,
        },
    );
    // A failed call leaves no relevant document: one retrieval failure.
    assert_eq!(retrieval_failed.retrieval, 1);
    assert_eq!(retrieval_failed.grounding, 1);
    assert_eq!(retrieval_failed.total_failures, 2);
}

#[test]
fn ablation_modes_should_have_stable_names_in_order() {
    let names: Vec<&str> = RetrievalMode::all().iter().map(|m| m.name()).collect();
    assert_eq!(
        names,
        vec![
            "dense_only",
            "bm25_only",
            "dense+bm25_score_sum",
            "dense+bm25_rrf",
            "dense+bm25_rrf+rerank"
        ]
    );
}

#[test]
fn untested_languages_should_exclude_the_evaluated_ones() {
    let tested = [Language::En, Language::Hi, Language::Ta, Language::Te, Language::Kn];
    let untested = untested_languages(&tested);
    let codes: Vec<&str> = untested.iter().map(|u| u.code).collect();
    assert_eq!(codes, vec!["as", "bn", "gu", "ml", "mr", "or", "pa", "ur"]);
    assert!(untested.iter().all(|u| !u.tested));
    assert_eq!(untested[0].name, "Assamese");
    assert_eq!(untested[0].status, "UNTESTED \u{2014} NO MULTILINGUAL CLAIM");
}

#[test]
fn engine_summary_should_echo_the_config() {
    let summary = EngineConfigSummary::of(&OreoConfig::default());
    assert_eq!(summary.chunking, "sentence");
    assert_eq!(summary.embedding_dim, 256);
    assert_eq!(summary.vector_store, "memory");
    assert_eq!(summary.reranker, "lexical_overlap");
    assert_eq!(summary.languages, vec!["en", "hi", "ta"]);
    assert_eq!((summary.candidate_top, summary.final_top, summary.rrf_k), (20, 5, 60));
}

#[test]
fn recall_should_count_relevant_hits_in_top_k() {
    let retrieved = ids(&["a", "b", "c", "d", "e"]);
    assert_eq!(relevant_hits(&retrieved, &ids(&["b", "d"]), 5), 2);
    assert_eq!(relevant_hits(&retrieved, &ids(&["e", "z"]), 4), 0);
    assert_eq!(relevant_hits(&retrieved, &ids(&["a", "z"]), 4), 1);
}

#[test]
fn mrr_should_invert_first_relevant_rank() {
    let retrieved = ids(&["a", "b", "c"]);
    assert_eq!(first_relevant_index(&retrieved, &ids(&["c", "b"])), Some(1));
    assert_eq!(first_relevant_index(&retrieved, &ids(&["z"])), None);
}

#[test]
fn empty_relevance_should_score_zero_not_panic() {
    assert_eq!(relevant_hits(&ids(&["a"]), &[], 5), 0);
    assert_eq!(first_relevant_index(&[], &ids(&["a"])), None);
}

#[test]
fn bench_config_should_override_only_the_index_dir_and_chunking() {
    let config = vox::bench::bench_config(
        "/tmp/bench-index".to_owned(),
        vox::chunk::ChunkingStrategy::Fixed { size: 400, overlap: 80 },
    );
    assert_eq!(config.tantivy_dir, "/tmp/bench-index");
    assert_eq!(config.chunking, vox::chunk::ChunkingStrategy::Fixed { size: 400, overlap: 80 });
    let defaults = OreoConfig::default();
    assert_eq!(config.languages, defaults.languages);
    assert_eq!(config.embedding_dim, defaults.embedding_dim);
    assert_eq!(config.candidate_top, 20);
    assert_eq!(config.final_top, 5);
    assert_eq!(config.rrf_k, 60);
    assert!(config.validate().is_ok());
}

#[test]
fn document_ids_should_drop_the_chunk_suffix() {
    assert_eq!(vox::bench::document_id_of("gst-001#0003"), "gst-001");
    assert_eq!(vox::bench::document_id_of("plain"), "plain");
    assert_eq!(vox::bench::document_id_of("#0001"), "");
    assert_eq!(vox::bench::document_id_of("a#b#c"), "a");
    assert_eq!(vox::bench::document_id_of(""), "");
}

#[test]
fn query_outcomes_should_follow_each_stage() {
    let retrieved = ids(&["gst-1", "aadhaar-2"]);
    let relevant = ids(&["aadhaar-2"]);
    let ok = vox::bench::query_outcome(
        "what is gst",
        Language::En,
        Some("what is gst"),
        Language::En,
        Language::En,
        false,
        &retrieved,
        &relevant,
        5,
        Answerability::Supported,
        Some((Some("GST is a tax."), false)),
    );
    assert_eq!(
        ok,
        QueryOutcome {
            stt_ok: true,
            lid_ok: true,
            retrieval_failed: false,
            recall_is_zero: false,
            grounded: true,
            generation_ok: true,
        }
    );
    let bad = vox::bench::query_outcome(
        "what is gst",
        Language::Hi,
        Some("what is GST"),
        Language::En,
        Language::Hi,
        true,
        &[],
        &relevant,
        5,
        Answerability::WeakEvidence,
        Some((Some("   "), false)),
    );
    assert_eq!(
        bad,
        QueryOutcome {
            stt_ok: false,
            lid_ok: false,
            retrieval_failed: true,
            recall_is_zero: true,
            grounded: false,
            generation_ok: false,
        }
    );
    // Outside the top 1 the relevant document does not count, and a refused
    // answer is a generation failure.
    let cut = vox::bench::query_outcome(
        "q",
        Language::Ta,
        None,
        Language::Ta,
        Language::Ta,
        false,
        &retrieved,
        &relevant,
        1,
        Answerability::NoEvidence,
        Some((Some("answer"), true)),
    );
    assert!(!cut.stt_ok && cut.lid_ok && cut.recall_is_zero && !cut.generation_ok);
}

#[test]
fn document_ids_should_round_trip_through_chunk_ids() {
    for (doc, index) in [("gst-001", 3usize), ("आधार", 0), ("x", 12345)] {
        let chunk = vox::chunk::chunk_id(doc, index);
        assert_eq!(vox::bench::document_id_of(&chunk), doc);
    }
}
