//! The decisions of the guarded generation stage: after each generated
//! answer the output guard's verdict says whether to serve it, generate once
//! more, or refuse with a localized grounded-refusal message.
//!
//! The caller runs the loop: it generates, verifies, asks the output guard,
//! and hands the verdict to [`next_generation_step`], which says what to do
//! next. Unsupported answers trigger exactly one regeneration; anything
//! still unsupported (or unsafe or malformed) refuses.

use vstd::prelude::*;

use crate::guard::{refusal_message, refusal_message_spec, REASON_UNSUPPORTED_CLAIM};
use crate::language::Language;
use crate::text::{chars_of, string_from};
use crate::types::GuardrailDecision;

verus! {

/// How many times generation may run per request (initial try plus one
/// regeneration when the output guard flags unsupported claims).
pub const MAX_GENERATION_ATTEMPTS: u32 = 2;

/// Result of the generation/output-guard loop.
#[derive(Debug, Clone)]
pub struct GenerationOutcome {
    /// The text served: the answer, or the localized refusal message.
    pub answer: Option<String>,
    /// The refusal reason, when the loop refused.
    pub reason: Option<String>,
    /// Whether the loop refused.
    pub refused: bool,
}

/// `o` serves `answer` as is.
pub open spec fn is_accepted(o: GenerationOutcome, answer: Seq<char>) -> bool {
    &&& !o.refused
    &&& o.reason is None
    &&& o.answer matches Some(a) && a@ == answer
}

/// `o` refuses for `reason`, serving the localized refusal message.
pub open spec fn is_refusal(o: GenerationOutcome, reason: Seq<char>, language: Language) -> bool {
    &&& o.refused
    &&& o.reason matches Some(r) && r@ == reason
    &&& o.answer matches Some(a) && a@ == refusal_message_spec(reason, language)
}

fn copy_str(s: &str) -> (t: String)
    ensures
        t@ == s@,
{
    string_from(chars_of(s).as_slice())
}

impl GenerationOutcome {
    /// An outcome that serves `answer`.
    pub fn accepted(answer: String) -> (o: GenerationOutcome)
        ensures
            is_accepted(o, answer@),
    {
        GenerationOutcome { answer: Some(answer), reason: None, refused: false }
    }
}

/// An outcome that refuses for `reason`, answering with the localized
/// refusal message.
pub fn refusal_message_fallback(reason: &str, language: Language) -> (o: GenerationOutcome)
    ensures
        is_refusal(o, reason@, language),
{
    GenerationOutcome {
        answer: Some(refusal_message(reason, language)),
        reason: Some(copy_str(reason)),
        refused: true,
    }
}

/// What the loop does after one generated answer was judged.
#[derive(Debug, Clone)]
pub enum GenerationStep {
    /// Generate again; carries the reason the last answer failed.
    Regenerate {
        /// Why the last answer was rejected.
        reason: String,
    },
    /// Stop with this outcome.
    Finish(GenerationOutcome),
}

/// The step after attempt number `attempts` produced `answer` and the output
/// guard decided `decision`.
pub open spec fn step_spec(
    attempts: u32,
    decision: GuardrailDecision,
    answer: Seq<char>,
    language: Language,
    s: GenerationStep,
) -> bool {
    match decision {
        GuardrailDecision::Allow => s matches GenerationStep::Finish(o) && is_accepted(o, answer),
        GuardrailDecision::Regenerate { reason } => if attempts < MAX_GENERATION_ATTEMPTS {
            s matches GenerationStep::Regenerate { reason: r } && r@ == reason@
        } else {
            s matches GenerationStep::Finish(o) && is_refusal(o, reason@, language)
        },
        GuardrailDecision::Refuse { reason } => s matches GenerationStep::Finish(o) && is_refusal(
            o,
            reason@,
            language,
        ),
    }
}

/// Decides the next step of the generation loop.
///
/// `attempts` counts the generations run so far, this one included.
pub fn next_generation_step(
    attempts: u32,
    decision: GuardrailDecision,
    answer: String,
    language: Language,
) -> (s: GenerationStep)
    ensures
        step_spec(attempts, decision, answer@, language, s),
{
    match decision {
        GuardrailDecision::Allow => GenerationStep::Finish(GenerationOutcome::accepted(answer)),
        GuardrailDecision::Regenerate { reason } => {
            if attempts < MAX_GENERATION_ATTEMPTS {
                GenerationStep::Regenerate { reason }
            } else {
                GenerationStep::Finish(refusal_message_fallback(reason.as_str(), language))
            }
        },
        GuardrailDecision::Refuse { reason } => GenerationStep::Finish(
            refusal_message_fallback(reason.as_str(), language),
        ),
    }
}

/// Generation runs at most [`MAX_GENERATION_ATTEMPTS`] times: once that many
/// attempts have run, every verdict ends the loop.
pub proof fn lemma_generation_is_bounded(
    attempts: u32,
    decision: GuardrailDecision,
    answer: Seq<char>,
    language: Language,
    s: GenerationStep,
)
    requires
        attempts >= MAX_GENERATION_ATTEMPTS,
        step_spec(attempts, decision, answer, language, s),
    ensures
        s is Finish,
{
}

/// Only an unsupported-claim verdict before the last attempt asks for
/// another generation; an allowed answer is served unchanged; every refusal
/// serves the localized refusal message for its reason.
pub proof fn lemma_generation_outcomes(
    attempts: u32,
    decision: GuardrailDecision,
    answer: Seq<char>,
    language: Language,
    s: GenerationStep,
)
    requires
        step_spec(attempts, decision, answer, language, s),
    ensures
        s is Regenerate ==> decision is Regenerate && attempts < MAX_GENERATION_ATTEMPTS,
        decision is Allow ==> (s matches GenerationStep::Finish(o) && is_accepted(o, answer)),
        (s matches GenerationStep::Finish(o) && o.refused) ==> (s matches GenerationStep::Finish(o)
            && o.reason matches Some(r) && o.answer matches Some(a) && a@ == refusal_message_spec(
            r@,
            language,
        )),
{
}

/// The reason recorded on the response: the loop's own reason when it
/// refused (an unsupported claim when it gave none), nothing otherwise.
pub fn final_refusal_reason(outcome: &GenerationOutcome) -> (r: Option<String>)
    ensures
        !outcome.refused ==> r is None,
        outcome.refused ==> (r matches Some(x) && x@ == match outcome.reason {
            Some(y) => y@,
            None => "unsupported_claim"@,
        }),
{
    if outcome.refused {
        match &outcome.reason {
            Some(y) => Some(copy_str(y.as_str())),
            None => Some(copy_str(REASON_UNSUPPORTED_CLAIM)),
        }
    } else {
        None
    }
}

/// The text graded for grounding: the normalized query, or the raw text
/// when normalization left nothing.
pub fn grounding_input(text: &str, normalized_text: &str) -> (r: String)
    ensures
        r@ == if normalized_text@.len() == 0 {
            text@
        } else {
            normalized_text@
        },
{
    if normalized_text.is_empty() {
        copy_str(text)
    } else {
        copy_str(normalized_text)
    }
}

/// The language answers are written in: the resolved one, English when
/// none was resolved.
pub fn answer_language(resolved: Option<Language>) -> (l: Language)
    ensures
        l == match resolved {
            Some(x) => x,
            None => Language::En,
        },
{
    match resolved {
        Some(x) => x,
        None => Language::En,
    }
}

} // verus!
