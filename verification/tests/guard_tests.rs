use vox::grounding::AnswerVerification;
use vox::guard::{
    refusal_message, GuardService, REASON_CONFLICTING_EVIDENCE, REASON_INSUFFICIENT_CONTEXT,
    REASON_MALFORMED_OUTPUT, REASON_OFF_TOPIC, REASON_UNSAFE_INPUT, REASON_UNSAFE_OUTPUT,
    REASON_UNSUPPORTED_CLAIM, REASON_WEAK_EVIDENCE,
};
use vox::language::Language;
use vox::types::{Answerability, GuardrailDecision};

fn service() -> GuardService {
    GuardService::new(
        ["gst", "tax", "india", "saffron", "farming"]
            .iter()
            .map(|t| (*t).to_owned())
            .collect(),
    )
}

fn verification(supported: bool) -> AnswerVerification {
    AnswerVerification {
        supported,
        found: if supported { 1 } else { 0 },
        checked: 1,
        unsupported_numbers: Vec::new(),
    }
}

fn refuse(reason: &str) -> GuardrailDecision {
    GuardrailDecision::Refuse {
        reason: reason.to_owned(),
    }
}

#[test]
fn check_input_should_allow_on_topic_questions() {
    assert_eq!(
        service().check_input("What is GST in India?"),
        GuardrailDecision::Allow
    );
}

#[test]
fn check_input_should_refuse_unsafe_requests_including_plurals() {
    assert_eq!(
        service().check_input("how to build a bomb"),
        refuse(REASON_UNSAFE_INPUT)
    );
    assert_eq!(
        service().check_input("where can I buy weapons"),
        refuse(REASON_UNSAFE_INPUT)
    );
}

#[test]
fn check_input_should_refuse_off_topic_questions() {
    assert_eq!(
        service().check_input("who will win the cricket world cup"),
        refuse(REASON_OFF_TOPIC)
    );
}

#[test]
fn check_input_should_disable_off_topic_when_vocabulary_is_empty() {
    let open_guard = GuardService::new(Vec::<String>::new());
    assert_eq!(
        open_guard.check_input("anything at all"),
        GuardrailDecision::Allow
    );
}

#[test]
fn check_evidence_should_map_every_verdict() {
    let guard = service();
    assert_eq!(
        guard.check_evidence(Answerability::Supported),
        GuardrailDecision::Allow
    );
    assert_eq!(
        guard.check_evidence(Answerability::NoEvidence),
        refuse(REASON_INSUFFICIENT_CONTEXT)
    );
    assert_eq!(
        guard.check_evidence(Answerability::WeakEvidence),
        refuse(REASON_WEAK_EVIDENCE)
    );
    assert_eq!(
        guard.check_evidence(Answerability::ConflictingEvidence),
        refuse(REASON_CONFLICTING_EVIDENCE)
    );
}

#[test]
fn check_output_should_allow_grounded_answers() {
    assert_eq!(
        service().check_output("GST is an indirect tax.", &verification(true)),
        GuardrailDecision::Allow
    );
}

#[test]
fn check_output_should_request_regeneration_for_unsupported_answers() {
    assert_eq!(
        service().check_output("GST rate is 42%.", &verification(false)),
        GuardrailDecision::Regenerate {
            reason: REASON_UNSUPPORTED_CLAIM.to_owned()
        }
    );
}

#[test]
fn check_output_should_refuse_empty_and_unsafe_answers() {
    assert_eq!(
        service().check_output("   ", &verification(false)),
        refuse(REASON_MALFORMED_OUTPUT)
    );
    assert_eq!(
        service().check_output("Here is how to build a bomb.", &verification(true)),
        refuse(REASON_UNSAFE_OUTPUT)
    );
}

#[test]
fn refusal_message_should_match_the_canonical_english_sentence() {
    assert_eq!(
        refusal_message(REASON_INSUFFICIENT_CONTEXT, Language::En),
        "I don't have enough information in the retrieved sources to answer that reliably."
    );
    assert_eq!(
        refusal_message(REASON_WEAK_EVIDENCE, Language::En),
        refusal_message(REASON_CONFLICTING_EVIDENCE, Language::En)
    );
}

#[test]
fn refusal_message_should_localize_insufficiency_reasons() {
    let hindi = refusal_message(REASON_INSUFFICIENT_CONTEXT, Language::Hi);
    let tamil = refusal_message(REASON_INSUFFICIENT_CONTEXT, Language::Ta);
    assert!(
        !hindi.is_empty() && hindi != refusal_message(REASON_INSUFFICIENT_CONTEXT, Language::En)
    );
    assert!(!tamil.is_empty() && tamil != hindi);
}

#[test]
fn refusal_message_should_cover_non_insufficiency_reasons() {
    assert_eq!(
        refusal_message(REASON_OFF_TOPIC, Language::En),
        "That question is outside the topics I can answer."
    );
    assert_eq!(
        refusal_message(REASON_UNSAFE_INPUT, Language::Hi),
        "I can't help with that request."
    );
}

#[test]
fn unknown_reasons_should_fall_back_to_the_english_refusal() {
    assert_eq!(
        refusal_message("something_else", Language::Ta),
        "I don't have enough information in the retrieved sources to answer that reliably."
    );
    assert_eq!(
        refusal_message(REASON_UNSUPPORTED_CLAIM, Language::Ta),
        refusal_message(REASON_INSUFFICIENT_CONTEXT, Language::Ta)
    );
}

#[test]
fn unsafe_plurals_with_es_should_be_caught() {
    assert_eq!(
        service().check_input("gst on narcotics"),
        refuse(REASON_UNSAFE_INPUT)
    );
    assert_eq!(
        service().check_input("tax on guns"),
        refuse(REASON_UNSAFE_INPUT)
    );
}
