//! Answer generation: the deterministic extractive baseline, the grounding
//! prompt given to every provider, and the retry classification of backend
//! failures.
//!
//! Every provider receives the same system instructions: use only the
//! supplied evidence, never invent unsupported claims, say so explicitly
//! when the evidence is insufficient, and answer in the request language.

use vstd::prelude::*;

use crate::language::{code_of, display_name_of, Language};
use crate::numfmt::{padded, push_padded};
use crate::text::{
    chars_of, count_where, push_char, push_chars, push_str, string_from, trim_end_seq, trim_seq,
    trim_str, views,
};

verus! {

/// Maximum attempts per call: the initial try plus one retry.
pub const MAX_RETRIES: u32 = 1;

/// Cap on an extractive snippet, in UTF-8 bytes.
pub const MAX_SNIPPET_CHARS: usize = 280;

/// Maximum characters of evidence text included per document.
pub const MAX_DOC_CHARS: usize = 1200;

/// The number of UTF-8 bytes that encode `c` (`char::len_utf8`).
pub open spec fn utf8_len(c: char) -> nat {
    if (c as u32) < 0x80 {
        1
    } else if (c as u32) < 0x800 {
        2
    } else if (c as u32) < 0x10000 {
        3
    } else {
        4
    }
}

/// The UTF-8 length of `s`.
pub open spec fn byte_len(s: Seq<char>) -> nat
    decreases s.len(),
{
    if s.len() == 0 {
        0
    } else {
        byte_len(s.drop_last()) + utf8_len(s.last())
    }
}

fn utf8_len_exec(c: char) -> (n: u128)
    ensures
        n == utf8_len(c),
{
    let v = c as u32;
    if v < 0x80 {
        1
    } else if v < 0x800 {
        2
    } else if v < 0x10000 {
        3
    } else {
        4
    }
}

/// Sentence terminators recognized by the extractive snippet: `.`, `!`,
/// `?`, and the Devanagari danda.
pub open spec fn is_snippet_terminator(c: char) -> bool {
    c == '.' || c == '!' || c == '?' || c == '\u{0964}'
}

/// Scanning `s` for the end of its first `count` sentences: the char
/// position just after the last terminator taken, how many were taken, and
/// whether the count was reached.
pub open spec fn sentence_end_scan(s: Seq<char>, count: nat) -> (nat, nat, bool)
    decreases s.len(),
{
    if s.len() == 0 {
        (0, 0, false)
    } else {
        let (e, n, stop) = sentence_end_scan(s.drop_last(), count);
        if stop {
            (e, n, true)
        } else if is_snippet_terminator(s.last()) {
            (s.len(), n + 1, n + 1 == count)
        } else {
            (e, n, false)
        }
    }
}

/// The longest prefix of `p` whose UTF-8 length is at most `limit`.
pub open spec fn prefix_within(p: Seq<char>, limit: nat) -> Seq<char>
    decreases p.len(),
{
    if byte_len(p) <= limit || p.len() == 0 {
        p
    } else {
        prefix_within(p.drop_last(), limit)
    }
}

/// The extractive snippet of `text`: up to `count` sentences (the whole
/// text when it has fewer), cut to at most [`MAX_SNIPPET_CHARS`] bytes on a
/// char boundary, without trailing white space.
pub open spec fn first_sentences_spec(text: Seq<char>, count: nat) -> Seq<char> {
    let (e, n, _) = sentence_end_scan(text, count);
    let end = if e == 0 || n < count {
        text.len()
    } else {
        e
    };
    trim_end_seq(prefix_within(text.take(end as int), MAX_SNIPPET_CHARS as nat))
}

proof fn lemma_prefix_within(p: Seq<char>, limit: nat)
    ensures
        byte_len(prefix_within(p, limit)) <= limit || prefix_within(p, limit).len() == 0,
        prefix_within(p, limit).len() <= p.len(),
        prefix_within(p, limit) == p.take(prefix_within(p, limit).len() as int),
    decreases p.len(),
{
    if byte_len(p) <= limit || p.len() == 0 {
        assert(p.take(p.len() as int) =~= p);
    } else {
        lemma_prefix_within(p.drop_last(), limit);
        let q = prefix_within(p.drop_last(), limit);
        assert(p.drop_last().take(q.len() as int) =~= p.take(q.len() as int));
    }
}

proof fn lemma_trim_end_prefix(s: Seq<char>)
    ensures
        trim_end_seq(s) == s.take(trim_end_seq(s).len() as int),
        byte_len(trim_end_seq(s)) <= byte_len(s),
    decreases s.len(),
{
    crate::text::lemma_trim_end_empty(s);
    if s.len() > 0 && crate::text::is_white_space(s.last()) {
        lemma_trim_end_prefix(s.drop_last());
        let t = trim_end_seq(s.drop_last());
        assert(s.drop_last().take(t.len() as int) =~= s.take(t.len() as int));
    } else {
        assert(s.take(s.len() as int) =~= s);
    }
}

/// The snippet is a prefix of the text, never longer than
/// [`MAX_SNIPPET_CHARS`] bytes, so a cut never splits a character.
pub proof fn lemma_snippet_is_bounded_prefix(text: Seq<char>, count: nat)
    ensures
        byte_len(first_sentences_spec(text, count)) <= MAX_SNIPPET_CHARS,
        first_sentences_spec(text, count) == text.take(first_sentences_spec(text, count).len() as int),
{
    let (e, n, _) = sentence_end_scan(text, count);
    lemma_scan_bound(text, count);
    let end = if e == 0 || n < count {
        text.len()
    } else {
        e
    };
    let p = text.take(end as int);
    lemma_prefix_within(p, MAX_SNIPPET_CHARS as nat);
    let q = prefix_within(p, MAX_SNIPPET_CHARS as nat);
    lemma_trim_end_prefix(q);
    let r = trim_end_seq(q);
    assert(r == q.take(r.len() as int));
    assert(end <= text.len());
    assert(p.take(q.len() as int) =~= text.take(q.len() as int));
    assert(q =~= text.take(q.len() as int));
    crate::text::lemma_trim_end_empty(q);
    assert(q.take(r.len() as int) =~= text.take(r.len() as int));
    assert(r =~= text.take(r.len() as int));
    if q.len() == 0 {
        assert(byte_len(q) == 0);
    }
}

proof fn lemma_scan_bound(s: Seq<char>, count: nat)
    ensures
        sentence_end_scan(s, count).0 <= s.len(),
    decreases s.len(),
{
    if s.len() > 0 {
        lemma_scan_bound(s.drop_last(), count);
    }
}

/// The snippet terminators `.`, `!`, `?` and the danda U+0964.
spec fn stops_snippet(c: char) -> bool {
    c == '.' || c == '!' || c == '?' || c == '\u{0964}'
}

proof fn lemma_scan_below_count(s: Seq<char>, count: nat)
    requires
        count_where(s, |c: char| stops_snippet(c)) < count,
    ensures
        sentence_end_scan(s, count).1 == count_where(s, |c: char| stops_snippet(c)),
        !sentence_end_scan(s, count).2,
    decreases s.len(),
{
    if s.len() > 0 {
        lemma_scan_below_count(s.drop_last(), count);
    }
}

proof fn lemma_scan_stays_stopped(text: Seq<char>, k: int, j: int, count: nat)
    requires
        0 < k <= j <= text.len(),
        sentence_end_scan(text.take(k), count) == (k as nat, count, true),
    ensures
        sentence_end_scan(text.take(j), count) == (k as nat, count, true),
    decreases j - k,
{
    if j > k {
        lemma_scan_stays_stopped(text, k, j - 1, count);
        assert(text.take(j).drop_last() =~= text.take(j - 1));
    }
}

/// The snippet of `count` sentences ends exactly at the `count`-th
/// terminator (`.`, `!`, `?` or danda): when the first `k` chars of `text`
/// hold exactly `count` terminators, end with one, and fit in
/// [`MAX_SNIPPET_CHARS`] bytes, the snippet is those `k` chars.
pub proof fn lemma_snippet_ends_at_nth_terminator(text: Seq<char>, count: nat, k: int)
    requires
        count >= 1,
        0 < k <= text.len(),
        count_where(
            text.take(k),
            |c: char| c == '.' || c == '!' || c == '?' || c == '\u{0964}',
        ) == count,
        text[k - 1] == '.' || text[k - 1] == '!' || text[k - 1] == '?' || text[k - 1] == '\u{0964}',
        byte_len(text.take(k)) <= MAX_SNIPPET_CHARS,
    ensures
        first_sentences_spec(text, count) == text.take(k),
{
    let p = text.take(k);
    assert((|c: char| stops_snippet(c)) =~= (|c: char|
        c == '.' || c == '!' || c == '?' || c == '\u{0964}'));
    assert(p.drop_last() =~= text.take(k - 1));
    assert(p.last() == text[k - 1]);
    lemma_scan_below_count(p.drop_last(), count);
    assert(sentence_end_scan(p, count) == (k as nat, count, true));
    lemma_scan_stays_stopped(text, k, text.len() as int, count);
    assert(text.take(text.len() as int) =~= text);
    assert(prefix_within(p, MAX_SNIPPET_CHARS as nat) == p);
    assert(!crate::text::is_white_space(p.last()));
    assert(trim_end_seq(p) == p);
}

/// A text with fewer than `count` terminators (`.`, `!`, `?`, danda) is
/// served whole, without trailing white space, when it fits in
/// [`MAX_SNIPPET_CHARS`] bytes.
pub proof fn lemma_short_text_served_whole(text: Seq<char>, count: nat)
    requires
        count_where(text, |c: char| c == '.' || c == '!' || c == '?' || c == '\u{0964}') < count,
        byte_len(text) <= MAX_SNIPPET_CHARS,
    ensures
        first_sentences_spec(text, count) == trim_end_seq(text),
{
    assert((|c: char| stops_snippet(c)) =~= (|c: char|
        c == '.' || c == '!' || c == '?' || c == '\u{0964}'));
    lemma_scan_below_count(text, count);
    assert(text.take(text.len() as int) =~= text);
}

fn is_snippet_terminator_exec(c: char) -> (r: bool)
    ensures
        r == is_snippet_terminator(c),
{
    c == '.' || c == '!' || c == '?' || c == '\u{0964}'
}

fn trim_end_chars(s: &[char]) -> (out: Vec<char>)
    ensures
        out@ == trim_end_seq(s@),
{
    let mut end = s.len();
    assert(s@.subrange(0, end as int) =~= s@);
    while end > 0 && crate::text::char_is_whitespace(s[end - 1])
        invariant
            end <= s@.len(),
            trim_end_seq(s@.subrange(0, end as int)) == trim_end_seq(s@),
        decreases end,
    {
        assert(s@.subrange(0, end as int).drop_last() =~= s@.subrange(0, end - 1));
        end -= 1;
    }
    let mut out: Vec<char> = Vec::new();
    let mut k: usize = 0;
    while k < end
        invariant
            k <= end,
            end <= s@.len(),
            out@ == s@.subrange(0, k as int),
        decreases end - k,
    {
        out.push(s[k]);
        assert(s@.subrange(0, k + 1) =~= s@.subrange(0, k as int).push(s@[k as int]));
        k += 1;
    }
    out
}

/// Extracts up to `count` sentences, capped at [`MAX_SNIPPET_CHARS`] bytes
/// on a char boundary.
pub fn first_sentences(text: &str, count: usize) -> (out: String)
    ensures
        out@ == first_sentences_spec(text@, count as nat),
{
    let chars = chars_of(text);
    let n = chars.len();
    let mut end: usize = 0;
    let mut sentences: usize = 0;
    let mut stopped = false;
    let mut i: usize = 0;
    while i < n
        invariant
            n == chars@.len(),
            chars@ == text@,
            i <= n,
            sentences <= i,
            (end as nat, sentences as nat, stopped) == sentence_end_scan(text@.take(i as int), count as nat),
        decreases n - i,
    {
        let c = chars[i];
        assert(text@.take(i + 1).drop_last() =~= text@.take(i as int));
        assert(text@.take(i + 1).last() == c);
        if !stopped && is_snippet_terminator_exec(c) {
            end = i + 1;
            sentences += 1;
            if sentences == count {
                stopped = true;
            }
        }
        i += 1;
    }
    assert(text@.take(n as int) =~= text@);
    proof {
        lemma_scan_bound(text@, count as nat);
    }
    if end == 0 || sentences < count {
        end = n;
    }
    let mut prefix: Vec<char> = Vec::new();
    let mut bytes: u128 = 0;
    let mut k: usize = 0;
    while k < end
        invariant
            k <= end,
            end <= n,
            n == chars@.len(),
            chars@ == text@,
            prefix@ == text@.take(k as int),
            bytes == byte_len(prefix@),
            bytes <= 4 * k,
        decreases end - k,
    {
        let c = chars[k];
        prefix.push(c);
        bytes = bytes + utf8_len_exec(c);
        assert(text@.take(k + 1) =~= text@.take(k as int).push(c));
        assert(prefix@.drop_last() =~= text@.take(k as int));
        k += 1;
    }
    let ghost p = prefix@;
    while bytes > MAX_SNIPPET_CHARS as u128 && prefix.len() > 0
        invariant
            bytes == byte_len(prefix@),
            prefix_within(prefix@, MAX_SNIPPET_CHARS as nat) == prefix_within(p, MAX_SNIPPET_CHARS as nat),
        decreases prefix@.len(),
    {
        let ghost before = prefix@;
        let c = prefix.pop().unwrap();
        assert(prefix@ =~= before.drop_last());
        assert(c == before.last());
        bytes = bytes - utf8_len_exec(c);
    }
    let trimmed = trim_end_chars(prefix.as_slice());
    string_from(trimmed.as_slice())
}

/// The first `max` characters of `text` (all of it when shorter).
pub fn truncate_chars(text: &str, max: usize) -> (out: String)
    ensures
        out@ == if text@.len() > max {
            text@.take(max as int)
        } else {
            text@
        },
{
    let chars = chars_of(text);
    if chars.len() > max {
        let mut out: Vec<char> = Vec::new();
        let mut k: usize = 0;
        while k < max
            invariant
                k <= max,
                max < chars@.len(),
                chars@ == text@,
                out@ == text@.take(k as int),
            decreases max - k,
        {
            out.push(chars[k]);
            assert(text@.take(k + 1) =~= text@.take(k as int).push(text@[k as int]));
            k += 1;
        }
        string_from(out.as_slice())
    } else {
        string_from(chars.as_slice())
    }
}

/// Structured output of the generation stage.
#[derive(Debug, Clone, PartialEq, Eq)]
pub struct LlmResponse {
    /// Generated answer text. May be empty; callers treat that as a refusal
    /// signal.
    pub answer: String,
    /// Model identifier reported by the backend, when available.
    pub model: Option<String>,
}

/// Output of the pipeline's generation stage.
#[derive(Debug, Clone, PartialEq, Eq)]
pub struct LlmOutput {
    /// Raw generated answer text (may be empty; the guardrail decides).
    pub answer: String,
}

/// The extractive answer for the best-scoring evidence text, if any.
pub open spec fn extractive_answer(best: Option<Seq<char>>) -> Seq<char> {
    match best {
        Some(t) => first_sentences_spec(t, 2),
        None => seq![],
    }
}

/// Deterministic extractive provider used as the mock/default backend:
/// answers with the first two sentences of the best-scoring evidence.
#[derive(Debug, Clone, Copy, Default)]
pub struct ExtractiveProvider;

impl ExtractiveProvider {
    /// Backend name used in logs and metrics.
    pub fn name(&self) -> (s: &'static str)
        ensures
            s@ == "extractive"@,
    {
        "extractive"
    }

    /// The response for the best-scoring evidence text (`None` when no
    /// evidence was retrieved).
    pub fn answer_from(&self, best_text: Option<&str>) -> (r: LlmResponse)
        ensures
            r.answer@ == extractive_answer(match best_text {
                Some(t) => Some(t@),
                None => None,
            }),
            r.model is None,
    {
        let answer = match best_text {
            Some(t) => first_sentences(t, 2),
            None => String::new(),
        };
        LlmResponse { answer, model: None }
    }
}

/// Deterministic extractive client used by the pipeline until a real
/// provider is wired in.
#[derive(Debug, Clone, Copy, Default)]
pub struct ExtractiveLlmClient;

impl ExtractiveLlmClient {
    /// Backend name used in logs and metrics.
    pub fn name(&self) -> (s: &'static str)
        ensures
            s@ == "extractive-stub"@,
    {
        "extractive-stub"
    }

    /// The output for the best-scoring evidence text (`None` when no
    /// evidence was retrieved).
    pub fn answer_from(&self, best_text: Option<&str>) -> (r: LlmOutput)
        ensures
            r.answer@ == extractive_answer(match best_text {
                Some(t) => Some(t@),
                None => None,
            }),
    {
        let answer = match best_text {
            Some(t) => first_sentences(t, 2),
            None => String::new(),
        };
        LlmOutput { answer }
    }
}

/// Failures raised by an answer-generation backend.
#[derive(Debug, Clone, PartialEq, Eq)]
pub enum LlmError {
    /// The backend failed to produce any output.
    Backend(String),
    /// The backend call exceeded its timeout.
    Timeout {
        /// Configured timeout in milliseconds.
        timeout_ms: u64,
    },
    /// The backend answered with a non-success status.
    HttpStatus {
        /// Upstream status code.
        status: u16,
    },
    /// Connection, DNS, TLS, or body-transport failure.
    Network(String),
    /// The backend answered 2xx but the body violates the contract.
    InvalidResponse(&'static str),
}

/// A transient HTTP status: a server error or too many requests.
pub open spec fn is_transient_status(status: u16) -> bool {
    (500 <= status <= 599) || status == 429
}

impl LlmError {
    /// Whether retrying the exact same request can plausibly succeed: only
    /// network failures, timeouts, upstream 5xx, and 429.
    pub fn is_retryable(&self) -> (r: bool)
        ensures
            r == match *self {
                LlmError::Network(_) | LlmError::Timeout { .. } => true,
                LlmError::HttpStatus { status } => is_transient_status(status),
                LlmError::Backend(_) | LlmError::InvalidResponse(_) => false,
            },
    {
        match self {
            LlmError::Network(_) | LlmError::Timeout { .. } => true,
            LlmError::HttpStatus { status } => (500 <= *status && *status <= 599) || *status == 429,
            LlmError::Backend(_) | LlmError::InvalidResponse(_) => false,
        }
    }
}

/// What a chat-completions reply means, given its HTTP status and the
/// content and model it reported.
pub open spec fn completion_spec(
    status: u16,
    content: Option<Seq<char>>,
    model: Option<Seq<char>>,
) -> Result<(Seq<char>, Option<Seq<char>>), LlmError> {
    if !(200 <= status <= 299) {
        Err(LlmError::HttpStatus { status })
    } else {
        match content {
            Some(c) => if crate::text::all_white(c) {
                Err(LlmError::InvalidResponse("missing answer content"))
            } else {
                Ok((c, model))
            },
            None => Err(LlmError::InvalidResponse("missing answer content")),
        }
    }
}

/// Interprets one chat-completions reply: a non-success status is an HTTP
/// failure; a missing or blank first-choice content violates the contract;
/// otherwise the content is the answer, with the model the backend named.
pub fn interpret_completion(status: u16, content: Option<String>, model: Option<String>) -> (r: Result<
    LlmResponse,
    LlmError,
>)
    ensures
        match completion_spec(
            status,
            match content {
                Some(c) => Some(c@),
                None => None,
            },
            match model {
                Some(m) => Some(m@),
                None => None,
            },
        ) {
            Ok((answer, named)) => r matches Ok(resp) && resp.answer@ == answer && match resp.model {
                Some(m) => named == Some(m@),
                None => named is None,
            },
            Err(e) => r == Err::<LlmResponse, LlmError>(e),
        },
{
    if !(200 <= status && status <= 299) {
        return Err(LlmError::HttpStatus { status });
    }
    match content {
        Some(c) => {
            if crate::text::is_blank(c.as_str()) {
                Err(LlmError::InvalidResponse("missing answer content"))
            } else {
                Ok(LlmResponse { answer: c, model })
            }
        },
        None => Err(LlmError::InvalidResponse("missing answer content")),
    }
}

/// One evidence document as the prompt shows it; the score arrives already
/// rendered with two decimals.
#[derive(Debug, Clone)]
pub struct EvidenceBlock {
    /// Document identifier.
    pub id: String,
    /// Retrieval score, rendered as text.
    pub score_label: String,
    /// Evidence text.
    pub text: String,
}

/// A fully rendered prompt ready for a chat-style provider.
#[derive(Debug, Clone, PartialEq, Eq)]
pub struct Prompt {
    /// System message: grounding rules.
    pub system: String,
    /// User message: evidence blocks + the question.
    pub user: String,
}

/// The system message for answers in `language`.
pub open spec fn system_message(language: Language) -> Seq<char> {
    "You are a question-answering assistant for VOX. Follow these rules exactly:\n1. Use ONLY the supplied evidence to answer. Do not use outside knowledge.\n2. Never invent claims that are not supported by the evidence.\n3. If the evidence is insufficient or unrelated to the question, state explicitly that you do not have enough information instead of guessing.\n4. Write your entire answer in "@
        + display_name_of(language) + " ("@ + code_of(language) + ")."@
}

/// The block for evidence document number `i` (zero-based).
pub open spec fn evidence_text(i: nat, b: EvidenceBlock) -> Seq<char> {
    "["@ + padded(i + 1, 10, 1) + "] (id: "@ + b.id@ + ", score: "@ + b.score_label@ + ")\n"@
        + (if b.text@.len() > MAX_DOC_CHARS {
        b.text@.take(MAX_DOC_CHARS as int)
    } else {
        b.text@
    }) + "\n\n"@
}

/// The evidence section for the blocks `bs`, numbered from `start`.
pub open spec fn evidence_section(bs: Seq<EvidenceBlock>) -> Seq<char>
    decreases bs.len(),
{
    if bs.len() == 0 {
        seq![]
    } else {
        evidence_section(bs.drop_last()) + evidence_text((bs.len() - 1) as nat, bs.last())
    }
}

/// The user message for `question` over `evidence`.
pub open spec fn user_message(question: Seq<char>, evidence: Seq<EvidenceBlock>) -> Seq<char> {
    "Evidence:\n"@ + (if evidence.len() == 0 {
        "(no evidence was retrieved)\n"@
    } else {
        evidence_section(evidence)
    }) + "Question: "@ + trim_seq(question) + "\n"@
        + "Answer using only the evidence above. If it is not enough, say so."@
}

/// Renders the grounding prompt for `question` in `language` over
/// `evidence`. The output is deterministic: same request, same prompt.
pub fn build_prompt(question: &str, language: Language, evidence: &[EvidenceBlock]) -> (p: Prompt)
    ensures
        p.system@ == system_message(language),
        p.user@ == user_message(question@, evidence@),
{
    let mut system = "You are a question-answering assistant for VOX. Follow these rules exactly:\n1. Use ONLY the supplied evidence to answer. Do not use outside knowledge.\n2. Never invent claims that are not supported by the evidence.\n3. If the evidence is insufficient or unrelated to the question, state explicitly that you do not have enough information instead of guessing.\n4. Write your entire answer in ".to_owned();
    push_str(&mut system, language.display_name());
    push_str(&mut system, " (");
    push_str(&mut system, language.code());
    push_str(&mut system, ").");
    let mut user = "Evidence:\n".to_owned();
    if evidence.len() == 0 {
        push_str(&mut user, "(no evidence was retrieved)\n");
    } else {
        let n = evidence.len();
        let mut i: usize = 0;
        let ghost head = user@;
        while i < n
            invariant
                n == evidence@.len(),
                i <= n,
                user@ == head + evidence_section(evidence@.take(i as int)),
            decreases n - i,
        {
            let b = &evidence[i];
            let ghost before = user@;
            push_str(&mut user, "[");
            push_padded(&mut user, (i as u128) + 1, 10, 1);
            push_str(&mut user, "] (id: ");
            push_str(&mut user, b.id.as_str());
            push_str(&mut user, ", score: ");
            push_str(&mut user, b.score_label.as_str());
            push_str(&mut user, ")\n");
            let t = truncate_chars(b.text.as_str(), MAX_DOC_CHARS);
            push_str(&mut user, t.as_str());
            push_str(&mut user, "\n\n");
            assert(evidence@.take(i + 1).drop_last() =~= evidence@.take(i as int));
            assert(evidence@.take(i + 1).last() == *b);
            assert(user@ =~= before + evidence_text(i as nat, *b));
            i += 1;
        }
        assert(evidence@.take(n as int) =~= evidence@);
    }
    push_str(&mut user, "Question: ");
    let q = trim_str(question);
    push_str(&mut user, q.as_str());
    push_char(&mut user, '\n');
    push_str(&mut user, "Answer using only the evidence above. If it is not enough, say so.");
    proof {
        reveal_strlit("\n");
    }
    Prompt { system, user }
}

} // verus!
