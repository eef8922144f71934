use vox::grounding::{assess, tokenize, verify_answer, GroundingConfig};
use vox::types::Answerability;

/// The evidence texts of scored documents, and whether the best score
/// reaches the configured minimum retrieval score (0.30).
fn evidence(docs: &[(f32, &str)]) -> (Vec<String>, bool) {
    let texts = docs.iter().map(|(_, t)| (*t).to_owned()).collect();
    let best = docs.iter().map(|(s, _)| *s).fold(f32::NEG_INFINITY, f32::max);
    (texts, best.is_finite() && best >= 0.30)
}

fn ratio(part: usize, whole: usize) -> f32 {
    if whole == 0 {
        0.0
    } else {
        part as f32 / whole as f32
    }
}

#[test]
fn tokenize_should_lowercase_split_and_drop_stopwords() {
    let tokens = tokenize("What is the GST slabs in India?");
    assert_eq!(tokens, vec!["gst", "slabs", "india"]);
}

#[test]
fn tokenize_should_handle_hindi_and_tamil_queries() {
    assert_eq!(tokenize("जीएसटी क्या है?"), vec!["जीएसटी"]);
    assert_eq!(tokenize("குங்குமப்பூ என்றால் என்ன?"), vec!["குங்குமப்பூ"]);
}

#[test]
fn tokenize_should_drop_single_character_tokens() {
    assert_eq!(tokenize("a b cd"), vec!["cd"]);
}

#[test]
fn assess_should_mark_corpus_evidence_as_supported() {
    let config = GroundingConfig::new();
    let (texts, score_ok) = evidence(&[
        (
            0.95,
            "GST is an indirect tax used in India on the supply of goods and services.",
        ),
        (
            0.90,
            "GST in India is a destination-based tax with slabs of 5%, 12%, 18% and 28%.",
        ),
    ]);
    let assessment = assess("what is gst tax in india", &texts, &config, score_ok);
    assert_eq!(assessment.answerability, Answerability::Supported);
    assert!(ratio(assessment.scores.best_hits, assessment.scores.query_terms) >= 0.5);
    let consistency = if assessment.scores.pairs == 0 {
        1.0
    } else {
        assessment.scores.agreeing as f32 / assessment.scores.pairs as f32
    };
    assert!(consistency >= 0.5);
}

#[test]
fn assess_should_report_no_evidence_when_nothing_was_retrieved() {
    let (texts, score_ok) = evidence(&[]);
    let assessment = assess("what is gst", &texts, &GroundingConfig::new(), score_ok);
    assert_eq!(assessment.answerability, Answerability::NoEvidence);
}

#[test]
fn assess_should_report_no_evidence_when_documents_share_no_query_terms() {
    let (texts, score_ok) = evidence(&[(0.95, "Sample reference material from the offline corpus.")]);
    let assessment = assess(
        "quantum chromodynamics explained",
        &texts,
        &GroundingConfig::new(),
        score_ok,
    );
    assert_eq!(assessment.answerability, Answerability::NoEvidence);
}

#[test]
fn assess_should_report_weak_evidence_for_partial_matches() {
    let config = GroundingConfig::new();
    let (texts, score_ok) = evidence(&[(0.95, "GST is a tax.")]);
    let assessment = assess(
        "gst tax slabs india returns filing process deadline",
        &texts,
        &config,
        score_ok,
    );
    assert_eq!(assessment.answerability, Answerability::WeakEvidence);
}

#[test]
fn assess_should_report_weak_evidence_when_scores_are_below_threshold() {
    let config = GroundingConfig::new();
    let (texts, score_ok) = evidence(&[(0.10, "GST is an indirect tax on goods and services in India.")]);
    let assessment = assess("gst tax india", &texts, &config, score_ok);
    assert_eq!(assessment.answerability, Answerability::WeakEvidence);
}

#[test]
fn assess_should_report_conflicting_evidence_when_relevant_docs_disagree() {
    let config = GroundingConfig::new();
    let (texts, score_ok) = evidence(&[
        (0.95, "GST is a tax applied to goods and services everywhere."),
        (0.90, "Bats navigate at night using echolocation sounds."),
    ]);
    let assessment = assess("gst tax bats echolocation night", &texts, &config, score_ok);
    assert_eq!(assessment.answerability, Answerability::ConflictingEvidence);
}

#[test]
fn assess_should_be_deterministic() {
    let config = GroundingConfig::new();
    let (texts, score_ok) = evidence(&[(0.9, "GST is a tax.")]);
    let first = assess("gst tax", &texts, &config, score_ok);
    let second = assess("gst tax", &texts, &config, score_ok);
    assert_eq!(first.answerability, second.answerability);
    assert_eq!(first.scores, second.scores);
}

#[test]
fn verify_answer_should_accept_an_extractive_copy() {
    let config = GroundingConfig::new();
    let texts = vec!["GST is an indirect tax used in India on goods and services.".to_owned()];
    let verification = verify_answer("GST is an indirect tax used in India.", &texts, &config);
    assert!(verification.supported);
    assert!((ratio(verification.found, verification.checked) - 1.0).abs() < 1e-6);
    assert!(verification.unsupported_numbers.is_empty());
}

#[test]
fn verify_answer_should_flag_invented_numbers() {
    let config = GroundingConfig::new();
    let texts = vec!["GST is an indirect tax used in India on goods and services.".to_owned()];
    let verification = verify_answer("GST rate is 42% for luxury cars.", &texts, &config);
    assert!(!verification.supported);
    assert_eq!(verification.unsupported_numbers, vec!["42"]);
}

#[test]
fn verify_answer_should_reject_answers_outside_the_evidence() {
    let config = GroundingConfig::new();
    let texts = vec!["GST is an indirect tax.".to_owned()];
    let verification = verify_answer(
        "Platypuses are monotremes native to Australia.",
        &texts,
        &config,
    );
    assert!(!verification.supported);
    assert!(ratio(verification.found, verification.checked) < 0.60);
}

#[test]
fn verify_answer_should_reject_empty_answers() {
    let texts = vec!["text".to_owned()];
    let verification = verify_answer("   ", &texts, &GroundingConfig::new());
    assert!(!verification.supported);
}

#[test]
fn grounding_config_defaults_should_be_the_documented_thresholds() {
    let config = GroundingConfig::new();
    assert_eq!(config.relevance_min, 500);
    assert_eq!(config.coverage_min, 500);
    assert_eq!(config.consistency_min, 500);
    assert_eq!(config.agreement_min, 100);
    assert_eq!(config.answer_support_min, 600);
}

#[test]
fn a_single_document_should_never_conflict_and_a_failed_score_check_never_supports() {
    let config = GroundingConfig::new();
    let texts = vec!["GST is an indirect tax used in India on goods and services.".to_owned()];
    let supported = assess("what is gst tax in india", &texts, &config, true);
    assert_eq!(supported.scores.relevant_docs, 1);
    assert_ne!(supported.answerability, Answerability::ConflictingEvidence);
    assert_eq!(supported.answerability, Answerability::Supported);
    let gated = assess("what is gst tax in india", &texts, &config, false);
    assert_ne!(gated.answerability, Answerability::Supported);
    assert_ne!(gated.answerability, Answerability::ConflictingEvidence);
}

#[test]
fn sufficiency_scores_should_stay_within_their_wholes() {
    let config = GroundingConfig::new();
    let texts = vec![
        "retrieval retrieval augmented augmented generation generation".to_owned(),
        "retrieval systems retrieval systems".to_owned(),
        "generation quality".to_owned(),
    ];
    let a = assess("retrieval augmented generation", &texts, &config, true);
    assert_eq!(a.scores.query_terms, 3);
    assert_eq!(a.scores.best_hits, 3);
    assert_eq!(a.scores.covered, 3);
    assert!(a.scores.best_hits <= a.scores.query_terms);
    assert!(a.scores.covered <= a.scores.query_terms);
    assert!(a.scores.agreeing <= a.scores.pairs);
    assert_eq!(a.scores.relevant_docs, 3);
    assert_eq!(a.scores.pairs, 3);
}
