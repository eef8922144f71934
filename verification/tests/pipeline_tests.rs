use vox::generation::{
    answer_language, final_refusal_reason, grounding_input, next_generation_step,
    refusal_message_fallback, GenerationOutcome, GenerationStep, MAX_GENERATION_ATTEMPTS,
};
use vox::guard::{refusal_message, REASON_UNSAFE_OUTPUT, REASON_UNSUPPORTED_CLAIM};
use vox::language::Language;
use vox::rag::{answer_fields, evaluate_answer, grounding_verdict, normalize_query, refusal_fields, GuardrailVerdict};
use vox::types::GuardrailDecision;

#[test]
fn answer_guard_should_refuse_blank_answers() {
    assert_eq!(
        evaluate_answer("   "),
        GuardrailVerdict::Refuse {
            reason: "empty_generation"
        }
    );
}

#[test]
fn answer_guard_should_allow_non_empty_answers() {
    assert_eq!(evaluate_answer("GST is a tax."), GuardrailVerdict::Allow);
}

/// Whether the best score meets the minimum, as the caller computes it.
fn meets(scores: &[f32], min_score: f32) -> bool {
    let best = scores.iter().copied().fold(f32::NEG_INFINITY, f32::max);
    best.is_finite() && best >= min_score
}

#[test]
fn grounding_should_allow_when_best_score_meets_threshold() {
    assert_eq!(grounding_verdict(meets(&[0.4, 0.9], 0.30)), GuardrailVerdict::Allow);
}

#[test]
fn grounding_should_refuse_when_all_scores_are_below_threshold() {
    assert_eq!(
        grounding_verdict(meets(&[0.1, 0.2], 0.30)),
        GuardrailVerdict::Refuse {
            reason: "insufficient_evidence"
        }
    );
}

#[test]
fn grounding_should_refuse_on_empty_evidence() {
    assert_eq!(
        grounding_verdict(meets(&[], 0.30)),
        GuardrailVerdict::Refuse {
            reason: "insufficient_evidence"
        }
    );
}

#[test]
fn grounding_should_refuse_non_finite_scores() {
    assert_eq!(
        grounding_verdict(meets(&[f32::NAN], 0.0)),
        GuardrailVerdict::Refuse {
            reason: "insufficient_evidence"
        }
    );
}

#[test]
fn answer_fields_should_trim_and_gate_generations() {
    let served = answer_fields("  GST is a tax.  ");
    assert_eq!(served.answer, "GST is a tax.");
    assert!(served.grounded);
    assert_eq!(served.refusal_reason, None);
    let refused = answer_fields(" \n ");
    assert_eq!(refused.answer, "");
    assert!(!refused.grounded);
    assert_eq!(refused.refusal_reason.as_deref(), Some("empty_generation"));
    let early = refusal_fields("insufficient_evidence");
    assert!(!early.grounded && early.answer.is_empty());
}

#[test]
fn query_normalization_should_collapse_white_space() {
    assert_eq!(normalize_query("  what   is\tGST \n"), "what is GST");
    assert_eq!(normalize_query("   "), "");
}

#[test]
fn unsupported_claims_should_regenerate_then_refuse() {
    let first = next_generation_step(
        1,
        GuardrailDecision::Regenerate {
            reason: REASON_UNSUPPORTED_CLAIM.to_owned(),
        },
        "GST is 42%.".to_owned(),
        Language::En,
    );
    assert!(matches!(first, GenerationStep::Regenerate { ref reason } if reason == REASON_UNSUPPORTED_CLAIM));
    let second = next_generation_step(
        MAX_GENERATION_ATTEMPTS,
        GuardrailDecision::Regenerate {
            reason: REASON_UNSUPPORTED_CLAIM.to_owned(),
        },
        "GST is 42%.".to_owned(),
        Language::En,
    );
    match second {
        GenerationStep::Finish(outcome) => {
            assert!(outcome.refused);
            assert_eq!(
                outcome.answer,
                Some(refusal_message(REASON_UNSUPPORTED_CLAIM, Language::En))
            );
            assert_eq!(
                final_refusal_reason(&outcome).as_deref(),
                Some(REASON_UNSUPPORTED_CLAIM)
            );
        }
        GenerationStep::Regenerate { .. } => panic!("must stop after the last attempt"),
    }
}

#[test]
fn allowed_answers_should_be_served_unchanged() {
    let step = next_generation_step(1, GuardrailDecision::Allow, "GST is a tax.".to_owned(), Language::Ta);
    match step {
        GenerationStep::Finish(outcome) => {
            assert!(!outcome.refused);
            assert_eq!(outcome.answer.as_deref(), Some("GST is a tax."));
            assert_eq!(final_refusal_reason(&outcome), None);
        }
        GenerationStep::Regenerate { .. } => panic!("allowed answers finish"),
    }
}

#[test]
fn output_refusals_should_serve_the_localized_message() {
    let step = next_generation_step(
        1,
        GuardrailDecision::Refuse {
            reason: REASON_UNSAFE_OUTPUT.to_owned(),
        },
        "x".to_owned(),
        Language::Hi,
    );
    match step {
        GenerationStep::Finish(outcome) => {
            assert!(outcome.refused);
            assert_eq!(outcome.reason.as_deref(), Some(REASON_UNSAFE_OUTPUT));
            assert_eq!(outcome.answer, Some("I can't help with that request.".to_owned()));
        }
        GenerationStep::Regenerate { .. } => panic!("refusals finish"),
    }
    let fallback = refusal_message_fallback("weak_evidence", Language::Ta);
    assert_eq!(fallback.answer, Some(refusal_message("weak_evidence", Language::Ta)));
    let bare = GenerationOutcome {
        answer: None,
        reason: None,
        refused: true,
    };
    assert_eq!(final_refusal_reason(&bare).as_deref(), Some(REASON_UNSUPPORTED_CLAIM));
}

#[test]
fn grounding_input_and_language_should_fall_back() {
    assert_eq!(grounding_input("Raw text", ""), "Raw text");
    assert_eq!(grounding_input("Raw text", "raw text"), "raw text");
    assert_eq!(answer_language(None), Language::En);
    assert_eq!(answer_language(Some(Language::Ta)), Language::Ta);
}
