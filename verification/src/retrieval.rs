//! The retrieval boundary: failure classification and bounded retries, the
//! deterministic in-memory backend, and the embedded-engine adapter.

use vstd::prelude::*;

use crate::language::{code_of, CoreError, Language};
use crate::numfmt::{padded, push_padded};
use crate::text::{chars_of, contains_chars, contains_seq, push_str, str_lowercase, str_to_lowercase, string_from, trim_seq, trim_str};
use crate::types::validation_outcome;

verus! {

/// Failures that can occur when talking to a retrieval backend.
#[derive(Debug, Clone, PartialEq, Eq)]
pub enum RetrievalError {
    /// The request violated input rules and was never sent upstream.
    Validation(CoreError),
    /// The upstream call exceeded its per-attempt timeout.
    Timeout {
        /// Configured timeout in milliseconds.
        timeout_ms: u64,
    },
    /// The upstream service answered with a non-success status.
    HttpStatus {
        /// Upstream status code.
        status: u16,
    },
    /// Connection, DNS, TLS, or body-transport failure.
    Network(String),
    /// The upstream answered 2xx but the body violates the contract.
    InvalidResponse(&'static str),
}

impl RetrievalError {
    /// Whether retrying the exact same request can plausibly succeed: only
    /// network failures, timeouts, upstream 5xx, and 429.
    pub fn is_retryable(&self) -> (r: bool)
        ensures
            r == match *self {
                RetrievalError::Network(_) | RetrievalError::Timeout { .. } => true,
                RetrievalError::HttpStatus { status } => crate::llm::is_transient_status(status),
                RetrievalError::Validation(_) | RetrievalError::InvalidResponse(_) => false,
            },
    {
        match self {
            RetrievalError::Network(_) | RetrievalError::Timeout { .. } => true,
            RetrievalError::HttpStatus { status } => (500 <= *status && *status <= 599) || *status
                == 429,
            RetrievalError::Validation(_) | RetrievalError::InvalidResponse(_) => false,
        }
    }
}

/// Bounded retry behavior for transient upstream failures.
#[derive(Debug, Clone, Copy, PartialEq, Eq, Structural)]
pub struct RetryPolicy {
    /// How many times to retry after a retryable failure (0 = single attempt).
    pub max_retries: u32,
    /// Base delay in milliseconds; the n-th retry waits `backoff_ms * n`
    /// (linear backoff).
    pub backoff_ms: u64,
}

impl Default for RetryPolicy {
    fn default() -> (p: Self)
        ensures
            p.max_retries == 1,
            p.backoff_ms == 50,
    {
        RetryPolicy { max_retries: 1, backoff_ms: 50 }
    }
}

/// What to do after a failed attempt.
#[derive(Debug, Clone, Copy, PartialEq, Eq, Structural)]
pub enum RetryStep {
    /// Wait `delay_ms`, then make retry number `attempt`.
    Retry {
        /// The retry about to be made (1 for the first).
        attempt: u32,
        /// How long to wait first, in milliseconds.
        delay_ms: u128,
    },
    /// Report the failure.
    GiveUp,
}

/// The step after a failure: retry while the failure is transient and
/// retries remain, waiting linearly longer each time.
pub open spec fn retry_spec(policy: RetryPolicy, retries_so_far: u32, retryable: bool) -> RetryStep {
    if retryable && retries_so_far < policy.max_retries {
        RetryStep::Retry {
            attempt: (retries_so_far + 1) as u32,
            delay_ms: (policy.backoff_ms * (retries_so_far + 1)) as u128,
        }
    } else {
        RetryStep::GiveUp
    }
}

impl RetryPolicy {
    /// Decides whether to retry after a failure, given how many retries
    /// were already made and whether the failure is retryable.
    pub fn next_step(&self, retries_so_far: u32, retryable: bool) -> (s: RetryStep)
        ensures
            s == retry_spec(*self, retries_so_far, retryable),
    {
        if retryable && retries_so_far < self.max_retries {
            let attempt = retries_so_far + 1;
            assert((self.backoff_ms as u128) * (attempt as u128) <= u128::MAX) by (nonlinear_arith)
                requires
                    self.backoff_ms <= u64::MAX,
                    attempt <= u32::MAX,
            ;
            let delay_ms = (self.backoff_ms as u128) * (attempt as u128);
            assert(delay_ms == self.backoff_ms * attempt) by (nonlinear_arith)
                requires
                    delay_ms == (self.backoff_ms as u128) * (attempt as u128),
                    self.backoff_ms <= u64::MAX,
                    attempt <= u32::MAX,
            ;
            RetryStep::Retry { attempt, delay_ms }
        } else {
            RetryStep::GiveUp
        }
    }
}

/// Retries are bounded: a retry's number never exceeds the policy's
/// maximum, each retry waits longer than the one before, and a
/// non-retryable failure is never retried.
pub proof fn lemma_retries_are_bounded(policy: RetryPolicy, retries_so_far: u32, retryable: bool)
    ensures
        retry_spec(policy, retries_so_far, retryable) matches RetryStep::Retry { attempt, .. }
            ==> attempt <= policy.max_retries && attempt == retries_so_far + 1,
        !retryable ==> retry_spec(policy, retries_so_far, retryable) == RetryStep::GiveUp,
        retries_so_far >= policy.max_retries ==> retry_spec(policy, retries_so_far, retryable)
            == RetryStep::GiveUp,
        retry_spec(policy, retries_so_far, retryable) matches RetryStep::Retry { delay_ms: d1, .. }
            ==> (retries_so_far > 0 ==> (retry_spec(policy, (retries_so_far - 1) as u32, retryable)
            matches RetryStep::Retry { delay_ms: d0, .. } && d0 <= d1)),
{
    let b = policy.backoff_ms as int;
    let r = retries_so_far as int;
    assert(0 <= b * r <= b * (r + 1) && b * (r + 1) <= u128::MAX) by (nonlinear_arith)
        requires
            0 <= b <= u64::MAX,
            0 <= r <= u32::MAX,
    ;
    if r > 0 {
        assert(((retries_so_far - 1) as u32 + 1) as int == r);
    }
}

/// Placeholder backend used until the real retrieval service is stable.
///
/// Returns deterministic sample evidence: a small curated corpus for
/// well-known topics, plus generic documents derived from the query for
/// everything else. An optional artificial delay supports timeout/retry
/// testing.
#[derive(Debug, Clone, Copy, PartialEq, Eq, Structural)]
pub struct MockRetrievalClient {
    delay_ms: u64,
}

/// One document served by the mock backend; its score follows from its
/// rank.
#[derive(Debug, Clone, PartialEq, Eq)]
pub struct MockDocument {
    /// Stable identifier (`mock-{index:04}`).
    pub id: String,
    /// Passage text.
    pub text: String,
    /// 1-based rank.
    pub rank: u32,
    /// Retrieval score in hundredths ([`mock_score`]).
    pub score_hundredths: u32,
}

/// The score, in hundredths, of the mock document at 0-based position `i`:
/// 0.95 for the first, 0.05 less for each later one, and never below 0.10.
pub open spec fn mock_score(i: nat) -> nat {
    if 5 * i <= 85 {
        (95 - 5 * i) as nat
    } else {
        10
    }
}

/// The trigger phrases of curated corpus entry `e`.
pub open spec fn corpus_triggers(e: int) -> Seq<Seq<char>> {
    if e == 0 {
        seq!["artificial intelligence"@, "ai"@, "machine learning"@]
    } else {
        seq!["gst"@, "goods and services tax"@, "tax"@]
    }
}

/// The passages of curated corpus entry `e`.
pub open spec fn corpus_passages(e: int) -> Seq<Seq<char>> {
    if e == 0 {
        seq![
            "Artificial intelligence (AI) is the simulation of human intelligence processes by computer systems. Machine learning is a subset of AI in which models learn patterns from data."@,
            "Modern AI systems are built on neural networks trained on large datasets. Applications include speech recognition, translation, and question answering."@,
        ]
    } else {
        seq![
            "Goods and Services Tax (GST) is an indirect tax used in India on the supply of goods and services. It replaced multiple cascading taxes levied by the central and state governments."@,
            "GST in India is a multi-stage, destination-based tax with slabs of 0%, 5%, 12%, 18%, and 28%. Returns are filed monthly or quarterly depending on turnover."@,
        ]
    }
}

/// Some trigger of entry `e` occurs in the lowercased query.
pub open spec fn entry_matches(lower: Seq<char>, e: int) -> bool {
    exists|k: int| 0 <= k < corpus_triggers(e).len() && contains_seq(lower, #[trigger] corpus_triggers(e)[k])
}

/// The curated passages served for the lowercased query.
pub open spec fn corpus_documents(lower: Seq<char>) -> Seq<Seq<char>> {
    (if entry_matches(lower, 0) {
        corpus_passages(0)
    } else {
        seq![]
    }) + (if entry_matches(lower, 1) {
        corpus_passages(1)
    } else {
        seq![]
    })
}

/// Generic filler document number `k` for the query text `q`.
pub open spec fn filler_text(k: nat, q: Seq<char>) -> Seq<char> {
    "Reference document "@ + padded(k, 10, 1) + " containing curated information related to: "@ + q
}

/// The passages served for query text `q` (already trimmed) with
/// `top_k` results: the curated passages, then fillers, `top_k` in all.
pub open spec fn mock_passages(q: Seq<char>, top_k: nat) -> Seq<Seq<char>> {
    let c = corpus_documents(str_lowercase(q));
    let fill: nat = if c.len() < top_k {
        (top_k - c.len()) as nat
    } else {
        0
    };
    (c + Seq::new(fill, |k: int| filler_text(k as nat, q))).take(top_k as int)
}

/// The text the mock backend matches: the trimmed normalized text, or the
/// trimmed raw text when normalization left nothing.
pub open spec fn mock_query_text(text: Seq<char>, normalized_text: Seq<char>) -> Seq<char> {
    if normalized_text.len() == 0 {
        trim_seq(text)
    } else {
        trim_seq(normalized_text)
    }
}

fn entry_matches_exec(lower: &[char], e: usize) -> (r: bool)
    requires
        e < 2,
    ensures
        r == entry_matches(lower@, e as int),
{
    let triggers: Vec<&str> = if e == 0 {
        vec!["artificial intelligence", "ai", "machine learning"]
    } else {
        vec!["gst", "goods and services tax", "tax"]
    };
    let ghost tv = corpus_triggers(e as int);
    assert(triggers@.len() == 3);
    assert(forall|k: int| 0 <= k < 3 ==> triggers@[k]@ == #[trigger] tv[k]);
    let mut k: usize = 0;
    while k < 3
        invariant
            k <= 3,
            triggers@.len() == 3,
            tv == corpus_triggers(e as int),
            forall|j: int| 0 <= j < 3 ==> triggers@[j]@ == #[trigger] tv[j],
            forall|j: int| 0 <= j < k ==> !contains_seq(lower@, #[trigger] tv[j]),
        decreases 3 - k,
    {
        let t = chars_of(triggers[k]);
        if contains_chars(lower, t.as_slice()) {
            assert(contains_seq(lower@, tv[k as int]));
            return true;
        }
        k += 1;
    }
    false
}

fn push_passages(out: &mut Vec<String>, e: usize)
    requires
        e < 2,
    ensures
        crate::text::views(final(out)@) == crate::text::views(old(out)@) + corpus_passages(e as int),
{
    let ghost before = crate::text::views(out@);
    if e == 0 {
        out.push("Artificial intelligence (AI) is the simulation of human intelligence processes by computer systems. Machine learning is a subset of AI in which models learn patterns from data.".to_owned());
        out.push("Modern AI systems are built on neural networks trained on large datasets. Applications include speech recognition, translation, and question answering.".to_owned());
    } else {
        out.push("Goods and Services Tax (GST) is an indirect tax used in India on the supply of goods and services. It replaced multiple cascading taxes levied by the central and state governments.".to_owned());
        out.push("GST in India is a multi-stage, destination-based tax with slabs of 0%, 5%, 12%, 18%, and 28%. Returns are filed monthly or quarterly depending on turnover.".to_owned());
    }
    assert(crate::text::views(out@) =~= before + corpus_passages(e as int));
}

impl MockRetrievalClient {
    /// Creates a mock backend that waits `delay_ms` before answering.
    pub fn new(delay_ms: u64) -> (c: MockRetrievalClient)
        ensures
            c.delay_ms() == delay_ms,
    {
        MockRetrievalClient { delay_ms }
    }

    /// The artificial delay in milliseconds.
    pub closed spec fn delay_ms(&self) -> u64 {
        self.delay_ms
    }

    /// The artificial delay the caller waits before answering.
    pub fn delay(&self) -> (d: u64)
        ensures
            d == self.delay_ms(),
    {
        self.delay_ms
    }

    /// Backend name used in logs and metrics.
    pub fn name(&self) -> (s: &'static str)
        ensures
            s@ == "mock"@,
    {
        "mock"
    }

    /// The documents served for a query: validation first (nothing is
    /// served, and no delay applies, for an invalid request), then up to
    /// `top_k` passages with ids `mock-0000`, `mock-0001`, ..., ranks from 1
    /// and scores from 0.95 down ([`mock_score`]).
    pub fn documents(&self, text: &str, normalized_text: &str, top_k: u8) -> (r: Result<
        Vec<MockDocument>,
        CoreError,
    >)
        ensures
            match validation_outcome(text@, top_k) {
                Err(e) => r == Err::<Vec<MockDocument>, CoreError>(e),
                Ok(()) => r matches Ok(docs) && {
                    let ps = mock_passages(mock_query_text(text@, normalized_text@), top_k as nat);
                    &&& docs@.len() == ps.len()
                    &&& forall|i: int|
                        0 <= i < docs@.len() ==> {
                            let d = #[trigger] docs@[i];
                            &&& d.text@ == ps[i]
                            &&& d.id@ == "mock-"@ + padded(i as nat, 10, 4)
                            &&& d.rank == i + 1
                            &&& d.score_hundredths == mock_score(i as nat)
                        }
                },
            },
    {
        let check = crate::types::RetrieveRequest {
            query: string_from(chars_of(text).as_slice()),
            language: Language::En,
            top_k,
        };
        match check.validate() {
            Err(e) => {
                return Err(e);
            },
            Ok(()) => {},
        }
        let q = if normalized_text.is_empty() {
            trim_str(text)
        } else {
            trim_str(normalized_text)
        };
        let lower = str_to_lowercase(q.as_str());
        let lc = chars_of(lower.as_str());
        let mut passages: Vec<String> = Vec::new();
        if entry_matches_exec(lc.as_slice(), 0) {
            push_passages(&mut passages, 0);
        }
        if entry_matches_exec(lc.as_slice(), 1) {
            push_passages(&mut passages, 1);
        }
        let ghost c = corpus_documents(str_lowercase(q@));
        assert(crate::text::views(passages@) =~= c);
        let k = top_k as usize;
        let mut filler: usize = 0;
        let base = passages.len();
        while passages.len() < k
            invariant
                base == c.len(),
                passages@.len() == base + filler,
                filler <= k,
                filler == 0 || base + filler <= k,
                crate::text::views(passages@) == c + Seq::new(filler as nat, |j: int| filler_text(j as nat, q@)),
            decreases k - passages@.len(),
        {
            let mut t = "Reference document ".to_owned();
            push_padded(&mut t, filler as u128, 10, 1);
            push_str(&mut t, " containing curated information related to: ");
            push_str(&mut t, q.as_str());
            assert(t@ == filler_text(filler as nat, q@));
            let ghost before = crate::text::views(passages@);
            passages.push(t);
            assert(crate::text::views(passages@) =~= before.push(filler_text(filler as nat, q@)));
            assert(Seq::new((filler + 1) as nat, |j: int| filler_text(j as nat, q@)) =~= Seq::new(
                filler as nat,
                |j: int| filler_text(j as nat, q@),
            ).push(filler_text(filler as nat, q@)));
            assert(crate::text::views(passages@) =~= c + Seq::new((filler + 1) as nat, |j: int| filler_text(j as nat, q@)));
            filler += 1;
        }
        let ghost all = c + Seq::new(filler as nat, |j: int| filler_text(j as nat, q@));
        assert(filler as nat == if c.len() < k { (k - c.len()) as nat } else { 0 });
        let n = if passages.len() < k {
            passages.len()
        } else {
            k
        };
        let mut docs: Vec<MockDocument> = Vec::new();
        let mut i: usize = 0;
        while i < n
            invariant
                n <= passages@.len(),
                n <= k,
                k <= 255,
                n == all.take(k as int).len(),
                crate::text::views(passages@) == all,
                i <= n,
                docs@.len() == i,
                forall|j: int|
                    0 <= j < i ==> {
                        let d = #[trigger] docs@[j];
                        &&& d.text@ == all[j]
                        &&& d.id@ == "mock-"@ + padded(j as nat, 10, 4)
                        &&& d.rank == j + 1
                        &&& d.score_hundredths == mock_score(j as nat)
                    },
            decreases n - i,
        {
            let mut id = "mock-".to_owned();
            push_padded(&mut id, i as u128, 10, 4);
            let text_i = string_from(chars_of(passages[i].as_str()).as_slice());
            assert(text_i@ == all[i as int]);
            let idx = i as u32;
            let score_hundredths = if idx <= 17 {
                95 - 5 * idx
            } else {
                10
            };
            docs.push(MockDocument { id, text: text_i, rank: idx + 1, score_hundredths });
            i += 1;
        }
        Ok(docs)
    }
}

/// In-process engine backend: runs the retrieval engine inside this
/// process, no network hop.
#[derive(Debug, Clone)]
pub struct EmbeddedOreoClient<E> {
    engine: E,
    delay_ms: u64,
}

impl<E> EmbeddedOreoClient<E> {
    /// Wraps an assembled engine.
    pub fn new(engine: E) -> (c: EmbeddedOreoClient<E>)
        ensures
            c.engine_spec() == engine,
            c.delay_spec() == 0,
    {
        EmbeddedOreoClient { engine, delay_ms: 0 }
    }

    /// Wraps an engine with a simulated per-call delay (testing only).
    pub fn with_delay(engine: E, delay_ms: u64) -> (c: EmbeddedOreoClient<E>)
        ensures
            c.engine_spec() == engine,
            c.delay_spec() == delay_ms,
    {
        EmbeddedOreoClient { engine, delay_ms }
    }

    /// The wrapped engine.
    pub closed spec fn engine_spec(&self) -> E {
        self.engine
    }

    /// The simulated delay in milliseconds.
    pub closed spec fn delay_spec(&self) -> u64 {
        self.delay_ms
    }

    /// The wrapped engine.
    pub fn engine(&self) -> (e: &E)
        ensures
            *e == self.engine_spec(),
    {
        &self.engine
    }

    /// The simulated delay in milliseconds.
    pub fn delay(&self) -> (d: u64)
        ensures
            d == self.delay_spec(),
    {
        self.delay_ms
    }

    /// Backend name used in logs and metrics.
    pub fn name(&self) -> (s: &'static str)
        ensures
            s@ == "oreo-embedded"@,
    {
        "oreo-embedded"
    }
}

} // verus!
