use vox::language::CoreError;
use vox::retrieval::{EmbeddedOreoClient, MockRetrievalClient, RetrievalError, RetryPolicy, RetryStep};

#[test]
fn retrieve_should_return_deterministic_ranked_results() {
    let client = MockRetrievalClient::new(0);
    let first = client.documents("what is gst", "", 3).expect("first");
    let second = client.documents("what is gst", "", 3).expect("second");
    assert_eq!(first.len(), 3);
    assert_eq!(first[0].rank, 1);
    assert_eq!(first[2].id, "mock-0002");
    assert_eq!(first, second);
}

#[test]
fn retrieve_should_serve_corpus_passages_for_known_topics() {
    let client = MockRetrievalClient::new(0);
    let docs = client
        .documents("What is artificial intelligence?", "", 2)
        .expect("retrieve");
    assert_eq!(docs.len(), 2);
    assert!(docs[0].text.contains("simulation of human intelligence"));
}

#[test]
fn retrieve_should_fall_back_to_generic_documents() {
    let client = MockRetrievalClient::new(0);
    let docs = client.documents("obscure topic xyz", "", 2).expect("retrieve");
    assert!(docs[0].text.contains("Reference document 0"));
    assert!(docs[1].text.contains("Reference document 1"));
    assert_eq!(
        docs[1].text,
        "Reference document 1 containing curated information related to: obscure topic xyz"
    );
}

#[test]
fn retrieve_should_use_normalized_text_when_present() {
    let client = MockRetrievalClient::new(0);
    let docs = client
        .documents("  what   is GST?  ", "what is GST?", 1)
        .expect("retrieve");
    assert!(docs[0].text.contains("GST"));
}

#[test]
fn retrieve_should_reject_invalid_input_without_delay() {
    let client = MockRetrievalClient::new(60_000);
    let err = client.documents("   ", "", 3).expect_err("should reject");
    assert_eq!(err, CoreError::EmptyQuery);
    assert_eq!(client.documents("gst", "", 0), Err(CoreError::InvalidTopK(0)));
    assert_eq!(client.delay(), 60_000);
}

#[test]
fn retrieval_retryability_should_follow_transient_rules() {
    assert!(RetrievalError::Timeout { timeout_ms: 800 }.is_retryable());
    assert!(RetrievalError::Network("reset".to_owned()).is_retryable());
    assert!(RetrievalError::HttpStatus { status: 500 }.is_retryable());
    assert!(RetrievalError::HttpStatus { status: 429 }.is_retryable());
    assert!(!RetrievalError::HttpStatus { status: 404 }.is_retryable());
    assert!(!RetrievalError::Validation(CoreError::EmptyQuery).is_retryable());
    assert!(!RetrievalError::InvalidResponse("non-finite score").is_retryable());
}

#[test]
fn retry_policy_should_back_off_linearly_and_stop() {
    let policy = RetryPolicy { max_retries: 2, backoff_ms: 50 };
    assert_eq!(policy.next_step(0, true), RetryStep::Retry { attempt: 1, delay_ms: 50 });
    assert_eq!(policy.next_step(1, true), RetryStep::Retry { attempt: 2, delay_ms: 100 });
    assert_eq!(policy.next_step(2, true), RetryStep::GiveUp);
    assert_eq!(policy.next_step(0, false), RetryStep::GiveUp);
}

#[test]
fn persistent_500_should_fail_after_the_single_retry() {
    // The default policy retries a transient failure once: the first 500
    // is retried, the second is reported.
    let policy = RetryPolicy::default();
    assert_eq!(policy.max_retries, 1);
    assert_eq!(policy.backoff_ms, 50);
    let status_500 = RetrievalError::HttpStatus { status: 500 };
    assert_eq!(
        policy.next_step(0, status_500.is_retryable()),
        RetryStep::Retry { attempt: 1, delay_ms: 50 }
    );
    assert_eq!(policy.next_step(1, status_500.is_retryable()), RetryStep::GiveUp);
}

#[test]
fn embedded_client_should_wrap_its_engine() {
    let client = EmbeddedOreoClient::with_delay("engine", 25);
    assert_eq!(*client.engine(), "engine");
    assert_eq!(client.delay(), 25);
    assert_eq!(EmbeddedOreoClient::new(7u8).delay(), 0);
    assert_eq!(client.name(), "oreo-embedded");
}

#[test]
fn mock_scores_should_fall_by_five_hundredths_to_a_floor_of_ten() {
    let client = MockRetrievalClient::new(0);
    let docs = client.documents("obscure topic xyz", "", 20).expect("retrieve");
    let scores: Vec<u32> = docs.iter().map(|d| d.score_hundredths).collect();
    assert_eq!(
        scores,
        vec![95, 90, 85, 80, 75, 70, 65, 60, 55, 50, 45, 40, 35, 30, 25, 20, 15, 10, 10, 10]
    );
}
