//! Decisions of the user-facing RAG pipeline: query normalization, the
//! grounding and answer gates, and the fields of the final answer.
//!
//! The caller performs retrieval and generation; every decision about what
//! is served is made here.

use vstd::prelude::*;

use crate::text::{all_white, is_blank, squash, squash_spec, trim_seq, trim_str};

verus! {

/// Outcome of a guardrail check.
#[derive(Debug, Clone, PartialEq, Eq)]
pub enum GuardrailVerdict {
    /// Proceed: the content passes the check.
    Allow,
    /// Refuse: answer must not be served; carries a machine-readable reason.
    Refuse {
        /// Stable reason code surfaced to API consumers.
        reason: &'static str,
    },
}

/// Reason served when the evidence is too weak to ground an answer.
pub const REASON_INSUFFICIENT_EVIDENCE: &'static str = "insufficient_evidence";

/// Reason served when generation produced nothing usable.
pub const REASON_EMPTY_GENERATION: &'static str = "empty_generation";

/// `v` refuses with reason `r`.
pub open spec fn verdict_refuses(v: GuardrailVerdict, r: Seq<char>) -> bool {
    v matches GuardrailVerdict::Refuse { reason } && reason@ == r
}

/// The grounding gate, given whether the best evidence score is a finite
/// number at or above the configured minimum (no evidence has no best
/// score).
pub fn grounding_verdict(best_score_meets_minimum: bool) -> (v: GuardrailVerdict)
    ensures
        best_score_meets_minimum ==> v == GuardrailVerdict::Allow,
        !best_score_meets_minimum ==> verdict_refuses(v, "insufficient_evidence"@),
{
    if best_score_meets_minimum {
        GuardrailVerdict::Allow
    } else {
        GuardrailVerdict::Refuse { reason: REASON_INSUFFICIENT_EVIDENCE }
    }
}

/// Final pass over the generated answer before it is served: refuses empty
/// or white-space-only generations.
pub fn evaluate_answer(answer: &str) -> (v: GuardrailVerdict)
    ensures
        all_white(answer@) ==> verdict_refuses(v, "empty_generation"@),
        !all_white(answer@) ==> v == GuardrailVerdict::Allow,
{
    if is_blank(answer) {
        GuardrailVerdict::Refuse { reason: REASON_EMPTY_GENERATION }
    } else {
        GuardrailVerdict::Allow
    }
}

/// Normalizes white space in the query: words separated by single spaces,
/// no leading or trailing space.
pub fn normalize_query(query: &str) -> (normalized: String)
    ensures
        normalized@ == squash_spec(query@, false),
{
    squash(query, false)
}

/// The answer fields of a pipeline response.
#[derive(Debug, Clone, PartialEq, Eq)]
pub struct AnswerFields {
    /// Served answer text (empty on refusal).
    pub answer: String,
    /// Whether the answer is grounded in retrieved evidence.
    pub grounded: bool,
    /// Machine-readable refusal reason, when refused.
    pub refusal_reason: Option<String>,
}

/// The fields of a refusal for `reason`.
pub open spec fn refused_fields(f: AnswerFields, reason: Seq<char>) -> bool {
    &&& f.answer@.len() == 0
    &&& !f.grounded
    &&& f.refusal_reason matches Some(r) && r@ == reason
}

/// The fields served when the grounding gate refused for `reason`.
pub fn refusal_fields(reason: &str) -> (f: AnswerFields)
    ensures
        refused_fields(f, reason@),
{
    AnswerFields {
        answer: String::new(),
        grounded: false,
        refusal_reason: Some(trim_str_exact(reason)),
    }
}

fn trim_str_exact(s: &str) -> (t: String)
    ensures
        t@ == s@,
{
    crate::text::string_from(crate::text::chars_of(s).as_slice())
}

/// The fields served for a generated `raw_answer`: the trimmed answer when
/// the answer gate allows it, an empty-generation refusal otherwise.
pub fn answer_fields(raw_answer: &str) -> (f: AnswerFields)
    ensures
        trim_seq(raw_answer@).len() == 0 ==> refused_fields(f, "empty_generation"@),
        trim_seq(raw_answer@).len() > 0 ==> f.answer@ == trim_seq(raw_answer@) && f.grounded
            && f.refusal_reason is None,
{
    let answer = trim_str(raw_answer);
    proof {
        crate::text::lemma_trim_end_empty(crate::text::trim_start_seq(raw_answer@));
        let t = trim_seq(raw_answer@);
        if t.len() > 0 {
            assert(!crate::text::is_white_space(t[t.len() - 1]));
        }
    }
    match evaluate_answer(answer.as_str()) {
        GuardrailVerdict::Allow => AnswerFields { answer, grounded: true, refusal_reason: None },
        GuardrailVerdict::Refuse { reason } => refusal_fields(reason),
    }
}

/// A served answer is grounded exactly when it is non-empty, and a refusal
/// always carries its reason.
pub proof fn lemma_grounded_iff_answered(raw_answer: Seq<char>, f: AnswerFields)
    requires
        trim_seq(raw_answer).len() == 0 ==> refused_fields(f, "empty_generation"@),
        trim_seq(raw_answer).len() > 0 ==> f.answer@ == trim_seq(raw_answer) && f.grounded
            && f.refusal_reason is None,
    ensures
        f.grounded <==> f.answer@.len() > 0,
        f.grounded <==> f.refusal_reason is None,
{
}

} // verus!
