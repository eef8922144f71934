use vox::language::Language;
use vox::llm::{
    build_prompt, first_sentences, truncate_chars, EvidenceBlock, ExtractiveLlmClient,
    ExtractiveProvider, LlmError, MAX_SNIPPET_CHARS,
};

fn block(id: &str, score: f32, text: &str) -> EvidenceBlock {
    EvidenceBlock {
        id: id.to_owned(),
        score_label: format!("{score:.2}"),
        text: text.to_owned(),
    }
}

#[test]
fn extractive_first_sentences_should_keep_two_terminated_sentences() {
    assert_eq!(
        first_sentences("GST is a tax. It has slabs! More detail here", 2),
        "GST is a tax. It has slabs!"
    );
}

#[test]
fn extractive_first_sentences_should_fall_back_to_full_text_without_terminators() {
    assert_eq!(
        first_sentences("no terminators at all", 2),
        "no terminators at all"
    );
}

#[test]
fn extractive_first_sentences_should_cut_on_char_boundaries() {
    let text = "अ".repeat(200);
    let out = first_sentences(&text, 1);
    assert!(out.len() <= MAX_SNIPPET_CHARS);
    assert!(out.chars().all(|c| c == 'अ'));
}

#[test]
fn llm_first_sentences_should_keep_two_terminated_sentences() {
    let text = "GST is a tax. It has slabs! More detail here";
    assert_eq!(first_sentences(text, 2), "GST is a tax. It has slabs!");
}

#[test]
fn llm_first_sentences_should_fall_back_to_full_text_without_terminators() {
    assert_eq!(first_sentences("no terminators at all", 2), "no terminators at all");
}

#[test]
fn llm_first_sentences_should_cut_on_char_boundaries() {
    let text = "अ".repeat(200);
    let out = first_sentences(&text, 1);
    assert!(out.len() <= MAX_SNIPPET_CHARS);
    assert!(out.chars().all(|c| c == 'अ'));
}

#[test]
fn first_sentences_should_stop_at_the_danda_and_cap_exactly() {
    assert_eq!(first_sentences("जीएसटी एक कर है। यह भारत में है। और", 1), "जीएसटी एक कर है।");
    let text = "a".repeat(300);
    assert_eq!(first_sentences(&text, 2).len(), 280);
    let mixed = format!("{}é", "a".repeat(279));
    assert_eq!(first_sentences(&mixed, 1), "a".repeat(279));
}

#[test]
fn extractive_should_answer_from_the_best_scoring_document() {
    let out = ExtractiveProvider.answer_from(Some("GST is a tax. It has slabs!"));
    assert_eq!(out.answer, "GST is a tax. It has slabs!");
    assert_eq!(out.model, None);
    assert_eq!(ExtractiveProvider.name(), "extractive");
}

#[test]
fn extractive_should_return_empty_output_without_evidence() {
    let out = ExtractiveProvider.answer_from(None);
    assert_eq!(out.answer, "");
    assert_eq!(ExtractiveLlmClient.answer_from(None).answer, "");
    assert_eq!(ExtractiveLlmClient.name(), "extractive-stub");
}

#[test]
fn truncate_should_cut_on_char_boundaries() {
    let text = "अ".repeat(50);
    let cut = truncate_chars(&text, 10);
    assert_eq!(cut.chars().count(), 10);
    assert!(cut.chars().all(|c| c == 'अ'));
}

#[test]
fn truncate_should_leave_short_text_untouched() {
    assert_eq!(truncate_chars("short", 10), "short");
}

#[test]
fn prompt_should_carry_all_four_grounding_instructions() {
    let prompt = build_prompt("What is GST?", Language::En, &[block("d1", 0.9, "GST is a tax.")]);
    assert!(prompt.system.contains("ONLY the supplied evidence"));
    assert!(prompt.system.contains("Never invent"));
    assert!(prompt.system.contains("not have enough information"));
    assert!(prompt.system.contains("English (en)"));
    assert!(prompt.user.contains("[1] (id: d1, score: 0.90)"));
    assert!(prompt.user.contains("GST is a tax."));
    assert!(prompt.user.contains("Question: What is GST?"));
}

#[test]
fn prompt_should_instruct_the_requested_language() {
    for (lang, expected) in [
        (Language::Hi, "Hindi (hi)"),
        (Language::Ta, "Tamil (ta)"),
        (Language::En, "English (en)"),
    ] {
        let prompt = build_prompt("q", lang, &[]);
        assert!(
            prompt.system.contains(expected),
            "missing language instruction for {expected}"
        );
    }
}

#[test]
fn prompt_should_handle_empty_evidence_explicitly() {
    let prompt = build_prompt("q", Language::En, &[]);
    assert!(prompt.user.contains("(no evidence was retrieved)"));
}

#[test]
fn prompt_should_be_deterministic() {
    let evidence = [block("d1", 0.5, "text")];
    assert_eq!(
        build_prompt("q", Language::Ta, &evidence),
        build_prompt("q", Language::Ta, &evidence)
    );
}

#[test]
fn prompt_user_message_should_number_evidence_and_trim_the_question() {
    let prompt = build_prompt(
        "  why?  ",
        Language::En,
        &[block("a", 0.25, "one"), block("b", 0.125, "two")],
    );
    assert_eq!(
        prompt.user,
        "Evidence:\n[1] (id: a, score: 0.25)\none\n\n[2] (id: b, score: 0.12)\ntwo\n\nQuestion: why?\nAnswer using only the evidence above. If it is not enough, say so."
    );
}

#[test]
fn retryability_should_follow_safe_transient_rules() {
    assert!(!LlmError::Backend("x".to_owned()).is_retryable());
    assert!(!LlmError::InvalidResponse("bad").is_retryable());
    assert!(!LlmError::HttpStatus { status: 400 }.is_retryable());
    assert!(LlmError::HttpStatus { status: 502 }.is_retryable());
    assert!(LlmError::HttpStatus { status: 429 }.is_retryable());
    assert!(LlmError::Timeout { timeout_ms: 1 }.is_retryable());
    assert!(LlmError::Network("reset".to_owned()).is_retryable());
}

#[test]
fn completions_should_yield_the_first_choice_content() {
    let response = vox::llm::interpret_completion(
        200,
        Some("जीएसटी एक कर है।".to_owned()),
        Some("test-model".to_owned()),
    )
    .expect("a well-formed completion");
    assert_eq!(response.answer, "जीएसटी एक कर है।");
    assert_eq!(response.model.as_deref(), Some("test-model"));
}

#[test]
fn completions_should_reject_failures_and_empty_answers() {
    assert_eq!(
        vox::llm::interpret_completion(401, Some("ok".to_owned()), None),
        Err(vox::llm::LlmError::HttpStatus { status: 401 })
    );
    assert_eq!(
        vox::llm::interpret_completion(200, Some("   ".to_owned()), None),
        Err(vox::llm::LlmError::InvalidResponse("missing answer content"))
    );
    assert_eq!(
        vox::llm::interpret_completion(200, None, Some("m".to_owned())),
        Err(vox::llm::LlmError::InvalidResponse("missing answer content"))
    );
    assert!(vox::llm::interpret_completion(502, None, None)
        .expect_err("server error")
        .is_retryable());
}
