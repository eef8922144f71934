use vox::analysis::{analyze, detect_intent, intent_of_lowercased, normalize};
use vox::language::{CoreError, Language};
use vox::types::{QueryIntent, RetrieveRequest, MAX_TOP_K};

fn request(query: &str, top_k: u8) -> RetrieveRequest {
    RetrieveRequest {
        query: query.to_owned(),
        language: Language::Ta,
        top_k,
    }
}

#[test]
fn normalize_should_collapse_whitespace_and_trim() {
    assert_eq!(normalize("  What   is \n GST?\t"), "What is GST?");
}

#[test]
fn normalize_should_collapse_repeated_punctuation() {
    assert_eq!(normalize("wait...."), "wait.");
    assert_eq!(normalize("really?!"), "really?!");
    assert_eq!(normalize("stop!!!  ok??"), "stop! ok?");
}

#[test]
fn normalize_should_map_typographic_variants() {
    assert_eq!(
        normalize("\u{201C}hi\u{201D} \u{2014} ok\u{00A0}now"),
        "\"hi\" - ok now"
    );
}

#[test]
fn normalize_should_preserve_tamil_text() {
    assert_eq!(normalize("  தமிழ்   வணக்கம்  "), "தமிழ் வணக்கம்");
}

#[test]
fn normalize_should_preserve_hindi_text() {
    assert_eq!(normalize(" नमस्ते   दुनिया "), "नमस्ते दुनिया");
}

#[test]
fn normalize_should_handle_empty_input() {
    assert_eq!(normalize("   "), "");
}

#[test]
fn intent_should_detect_definitions() {
    assert_eq!(
        detect_intent("what is artificial intelligence?"),
        QueryIntent::Definition
    );
    assert_eq!(detect_intent("gst क्या है"), QueryIntent::Definition);
}

#[test]
fn intent_should_detect_comparisons_before_definitions() {
    assert_eq!(
        detect_intent("what is the difference between tcp and udp"),
        QueryIntent::Comparison
    );
    assert_eq!(
        detect_intent("compare petrol vs diesel"),
        QueryIntent::Comparison
    );
}

#[test]
fn intent_should_detect_procedures() {
    assert_eq!(
        detect_intent("how to file itr online"),
        QueryIntent::Procedural
    );
    assert_eq!(detect_intent("அதை எப்படி செய்வது"), QueryIntent::Procedural);
}

#[test]
fn intent_should_detect_facts() {
    assert_eq!(
        detect_intent("who is the finance minister"),
        QueryIntent::Factual
    );
    assert_eq!(detect_intent("why is the sky blue"), QueryIntent::Factual);
}

#[test]
fn intent_should_default_to_unknown() {
    assert_eq!(detect_intent("tell me about cricket"), QueryIntent::Unknown);
}

#[test]
fn analyze_should_return_both_outputs() {
    let (normalized, intent) = analyze("  WHAT   IS  AI?? ");
    assert_eq!(normalized, "WHAT IS AI?");
    assert_eq!(intent, QueryIntent::Definition);
}

#[test]
fn parse_should_accept_known_codes_case_sensitively() {
    assert_eq!("ta".parse::<Language>(), Ok(Language::Ta));
    assert_eq!("hi".parse::<Language>(), Ok(Language::Hi));
}

#[test]
fn parse_should_reject_unknown_codes_with_the_offending_value() {
    assert_eq!(
        "xx".parse::<Language>(),
        Err(CoreError::UnsupportedLanguage("xx".to_owned()))
    );
}

#[test]
fn display_should_match_code() {
    assert_eq!(Language::Ur.to_string(), "ur");
}

#[test]
fn parse_should_be_case_sensitive_and_round_trip_every_code() {
    assert!(Language::parse("TA").is_err());
    for language in Language::all() {
        assert_eq!(Language::parse(language.code()), Ok(language));
    }
    assert_eq!(Language::all().len(), 13);
}

#[test]
fn validate_should_accept_a_well_formed_request() {
    assert_eq!(request("what is gst", 5).validate(), Ok(()));
}

#[test]
fn validate_should_reject_whitespace_only_queries() {
    assert_eq!(
        request("   \n\t", 5).validate(),
        Err(CoreError::EmptyQuery)
    );
}

#[test]
fn validate_should_reject_top_k_above_the_limit() {
    assert_eq!(
        request("q", MAX_TOP_K + 1).validate(),
        Err(CoreError::InvalidTopK(MAX_TOP_K + 1))
    );
}

#[test]
fn validate_should_reject_zero_top_k() {
    assert_eq!(request("q", 0).validate(), Err(CoreError::InvalidTopK(0)));
}

#[test]
fn validate_should_accept_the_boundaries_of_top_k() {
    assert_eq!(request("q", 1).validate(), Ok(()));
    assert_eq!(request("q", MAX_TOP_K).validate(), Ok(()));
    assert_eq!(request("   ", 0).validate(), Err(CoreError::EmptyQuery));
}

#[test]
fn core_error_messages_should_match_their_display_text() {
    assert_eq!(CoreError::EmptyQuery.message(), "query must be a non-empty string");
    assert_eq!(
        CoreError::InvalidTopK(21).message(),
        "top_k must be between 1 and 20, got 21"
    );
    assert_eq!(
        CoreError::UnsupportedLanguage("xx".to_owned()).message(),
        "unsupported language code: xx"
    );
}

#[test]
fn display_names_should_be_english() {
    assert_eq!(Language::Ta.display_name(), "Tamil");
    assert_eq!(Language::Hi.display_name(), "Hindi");
    assert_eq!(Language::En.display_name(), "English");
}

#[test]
fn normalize_should_be_idempotent() {
    for text in [
        "  What   is\tRAG??  ",
        "a? ?b",
        "\u{201C}quoted\u{201D} \u{2014} dash!!! ",
        "RAG क्या है ??",
        "",
        " . , ; ",
    ] {
        let once = normalize(text);
        assert_eq!(normalize(&once), once, "input {text:?}");
    }
}

#[test]
fn normalize_should_keep_every_content_char() {
    let kept = |s: &str| -> String {
        s.chars()
            .filter(|c| !c.is_whitespace() && !"!?,.;:".contains(*c))
            .collect()
    };
    let text = "\u{2018}Hi\u{2019}\u{00A0}there\u{2013}you?!  What's  up?? क्या";
    let mapped: String = text
        .chars()
        .map(|c| match c {
            '\u{2018}' | '\u{2019}' | '\u{201B}' => '\'',
            '\u{201C}' | '\u{201D}' => '"',
            '\u{2013}' | '\u{2014}' => '-',
            other => other,
        })
        .collect();
    assert_eq!(kept(&normalize(text)), kept(&mapped));
}

#[test]
fn intent_of_lowercased_should_match_markers_exactly() {
    assert_eq!(intent_of_lowercased("what is rag"), QueryIntent::Definition);
    assert_eq!(intent_of_lowercased("compare bm25 versus dense"), QueryIntent::Comparison);
    assert_eq!(intent_of_lowercased("WHAT IS RAG"), QueryIntent::Unknown);
    assert_eq!(detect_intent("WHAT IS RAG"), QueryIntent::Definition);
}
