use vox::grounding::{assess_indexed, EvidenceIndex, GroundingConfig};
use vox::guard::GuardService;
use vox::language::Language;
use vox::pipeline::{after_generation, after_grounding_gate, text_step, AnswerAction, TextAction, TextEvent, TextRun, TextStage};
use vox::rag::grounding_verdict;
use vox::types::{Answerability, GuardrailDecision};

const CANONICAL_REFUSAL: &str =
    "I don't have enough information in the retrieved sources to answer that reliably.";

#[test]
fn unsafe_input_should_refuse_before_retrieval() {
    let guards = GuardService::new(Vec::new());
    let run = TextRun::start(Language::En);
    let (next, action) = text_step(run, TextEvent::InputChecked(guards.check_input("how to build a bomb")));
    assert_eq!(next.stage, TextStage::Done);
    let TextAction::Finish(outcome) = action else {
        panic!("expected a refusal");
    };
    assert_eq!(outcome.refusal_reason.as_deref(), Some("unsafe_input"));
    assert!(!outcome.evidence_kept);
    assert_eq!(outcome.answerability, Answerability::NoEvidence);
    assert!(!outcome.retrieval_ran);
    assert!(!outcome.llm_ran);
}

#[test]
fn empty_evidence_should_refuse_without_generating() {
    let guards = GuardService::new(Vec::new());
    let run = TextRun::start(Language::En);
    let (run, action) = text_step(run, TextEvent::InputChecked(guards.check_input("what is gst")));
    assert!(matches!(action, TextAction::Retrieve));
    let (run, action) = text_step(run, TextEvent::Retrieved);
    assert!(matches!(action, TextAction::AssessEvidence));
    let index = EvidenceIndex::new(&Vec::new());
    let assessment = assess_indexed("what is gst", &index, &GroundingConfig::new(), false);
    let (run, action) = text_step(
        run,
        TextEvent::EvidenceChecked {
            answerability: assessment.answerability,
            decision: guards.check_evidence(assessment.answerability),
        },
    );
    assert_eq!(run.stage, TextStage::Done);
    let TextAction::Finish(outcome) = action else {
        panic!("expected a refusal");
    };
    assert_eq!(outcome.answerability, Answerability::NoEvidence);
    assert_eq!(outcome.refusal_reason.as_deref(), Some("insufficient_context"));
    assert_eq!(outcome.answer.as_deref(), Some(CANONICAL_REFUSAL));
    assert!(outcome.retrieval_ran);
    assert!(!outcome.llm_ran);
}

#[test]
fn text_run_should_regenerate_once_then_refuse() {
    let run = TextRun::start(Language::En);
    let (run, _) = text_step(run, TextEvent::InputChecked(GuardrailDecision::Allow));
    let (run, _) = text_step(run, TextEvent::Retrieved);
    let (run, action) = text_step(
        run,
        TextEvent::EvidenceChecked { answerability: Answerability::Supported, decision: GuardrailDecision::Allow },
    );
    assert!(matches!(action, TextAction::Generate));
    let unsupported = || GuardrailDecision::Regenerate { reason: "unsupported_claim".to_owned() };
    let (run, action) = text_step(run, TextEvent::OutputChecked { decision: unsupported(), answer: "x".to_owned() });
    assert!(matches!(action, TextAction::Generate));
    assert_eq!(run.generations, 2);
    let (run, action) = text_step(run, TextEvent::OutputChecked { decision: unsupported(), answer: "x".to_owned() });
    assert_eq!(run.stage, TextStage::Done);
    let TextAction::Finish(outcome) = action else {
        panic!("expected a refusal");
    };
    assert_eq!(outcome.refusal_reason.as_deref(), Some("unsupported_claim"));
    assert_eq!(outcome.answer.as_deref(), Some(CANONICAL_REFUSAL));
    assert_eq!(outcome.answerability, Answerability::Supported);
    assert!(outcome.evidence_kept && outcome.retrieval_ran && outcome.llm_ran);
}

#[test]
fn text_run_should_serve_an_allowed_answer() {
    let run = TextRun::start(Language::Hi);
    let (run, _) = text_step(run, TextEvent::InputChecked(GuardrailDecision::Allow));
    let (run, _) = text_step(run, TextEvent::Retrieved);
    let (run, _) = text_step(
        run,
        TextEvent::EvidenceChecked { answerability: Answerability::Supported, decision: GuardrailDecision::Allow },
    );
    let (run, action) = text_step(
        run,
        TextEvent::OutputChecked { decision: GuardrailDecision::Allow, answer: "GST is a tax.".to_owned() },
    );
    assert_eq!(run.stage, TextStage::Done);
    let TextAction::Finish(outcome) = action else {
        panic!("expected an answer");
    };
    assert_eq!(outcome.answer.as_deref(), Some("GST is a tax."));
    assert!(outcome.refusal_reason.is_none());
}

#[test]
fn run_should_refuse_when_evidence_is_empty() {
    match after_grounding_gate(grounding_verdict(false)) {
        AnswerAction::Finish { fields, llm_ran } => {
            assert!(!fields.grounded);
            assert_eq!(fields.refusal_reason.as_deref(), Some("insufficient_evidence"));
            assert!(fields.answer.is_empty());
            assert!(!llm_ran, "llm must be skipped");
        }
        AnswerAction::Generate => panic!("the generator must not run"),
    }
    assert!(matches!(after_grounding_gate(grounding_verdict(true)), AnswerAction::Generate));
}

#[test]
fn run_should_refuse_empty_generations_via_guardrail() {
    let AnswerAction::Finish { fields, llm_ran } = after_generation("  \n ") else {
        panic!("generation always finishes");
    };
    assert!(!fields.grounded);
    assert_eq!(fields.refusal_reason.as_deref(), Some("empty_generation"));
    assert!(llm_ran);
    let AnswerAction::Finish { fields, .. } = after_generation("  GST is a tax. ") else {
        panic!("generation always finishes");
    };
    assert_eq!(fields.answer, "GST is a tax.");
    assert!(fields.grounded);
}
