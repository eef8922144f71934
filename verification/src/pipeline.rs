//! The order of the answering stages, as steps from a run's state and the
//! result of the last stage to the next state and the next thing to do.
//!
//! The text flow checks the input, retrieves, assesses the evidence,
//! checks it, and generates under the output guard. A refusal at any guard
//! ends the run there: a refused input is never retrieved for, and refused
//! evidence is never generated from. The caller performs each action
//! (retrieval, grounding, generation, the guard checks) and hands its result
//! back; stage timings exist exactly for the stages the run performed.
//!
//! The answering pipeline of the HTTP service has one gate before the
//! generator (the retrieval-score check) and one after it (the empty-answer
//! check).

use vstd::prelude::*;

use crate::generation::{
    next_generation_step, step_spec, GenerationStep, MAX_GENERATION_ATTEMPTS,
};
use crate::guard::{refusal_message, refusal_message_spec};
use crate::language::Language;
use crate::rag::{answer_fields, refusal_fields, refused_fields, AnswerFields, GuardrailVerdict};
use crate::text::trim_seq;
use crate::types::{Answerability, GuardrailDecision};

verus! {

/// The stage a text run waits on.
#[derive(Debug, Clone, Copy, PartialEq, Eq, Structural)]
pub enum TextStage {
    /// The input guard's decision on the query.
    InputGuard,
    /// Query analysis and retrieval.
    Retrieval,
    /// The evidence guard's decision on the assessed evidence.
    EvidenceGuard,
    /// The output guard's decision on the last generated answer.
    Generation,
    /// Nothing: the run is over.
    Done,
}

/// The state of one text run.
#[derive(Debug, Clone, Copy)]
pub struct TextRun {
    /// The stage the run waits on.
    pub stage: TextStage,
    /// The language answers and refusals are written in.
    pub language: Language,
    /// The assessment of the evidence, once made.
    pub answerability: Answerability,
    /// Whether retrieval has run.
    pub retrieval_ran: bool,
    /// How many answers have been generated.
    pub generations: u32,
}

/// The result of the stage a run waited on.
#[derive(Debug, Clone)]
pub enum TextEvent {
    /// The input guard decided.
    InputChecked(GuardrailDecision),
    /// The query was analyzed and the evidence retrieved.
    Retrieved,
    /// The evidence was assessed and the evidence guard decided.
    EvidenceChecked {
        /// The assessment of the evidence.
        answerability: Answerability,
        /// The evidence guard's decision on it.
        decision: GuardrailDecision,
    },
    /// An answer was generated, verified and judged by the output guard.
    OutputChecked {
        /// The output guard's decision.
        decision: GuardrailDecision,
        /// The trimmed generated answer.
        answer: String,
    },
}

/// What a finished text run serves.
#[derive(Debug, Clone)]
pub struct TextOutcome {
    /// The assessment of the evidence (`NoEvidence` when none was assessed).
    pub answerability: Answerability,
    /// Whether the retrieved evidence is part of the response (an empty
    /// evidence list otherwise).
    pub evidence_kept: bool,
    /// The served answer, or the localized refusal message.
    pub answer: Option<String>,
    /// The refusal reason, when the run refused.
    pub refusal_reason: Option<String>,
    /// Whether retrieval ran (its timing is reported exactly then).
    pub retrieval_ran: bool,
    /// Whether the generator ran (its timing is reported exactly then).
    pub llm_ran: bool,
}

/// What the caller does next.
#[derive(Debug, Clone)]
pub enum TextAction {
    /// Analyze the query and retrieve evidence.
    Retrieve,
    /// Assess the evidence and ask the evidence guard.
    AssessEvidence,
    /// Generate an answer, verify it and ask the output guard.
    Generate,
    /// Serve this outcome.
    Finish(TextOutcome),
}

/// `e` is the result of the stage `stage` waits on.
pub open spec fn event_fits(stage: TextStage, e: TextEvent) -> bool {
    match stage {
        TextStage::InputGuard => e is InputChecked,
        TextStage::Retrieval => e is Retrieved,
        TextStage::EvidenceGuard => e is EvidenceChecked,
        TextStage::Generation => e is OutputChecked,
        TextStage::Done => false,
    }
}

/// The bookkeeping of a run agrees with its stage.
pub open spec fn run_wf(r: TextRun) -> bool {
    &&& r.generations <= MAX_GENERATION_ATTEMPTS
    &&& r.stage == TextStage::Generation ==> r.generations >= 1
    &&& (r.stage == TextStage::InputGuard || r.stage == TextStage::Retrieval) ==> !r.retrieval_ran
        && r.generations == 0
    &&& (r.stage == TextStage::EvidenceGuard || r.stage == TextStage::Generation)
        ==> r.retrieval_ran
}

/// `o` refuses for `reason` in `language`, with the given assessment and
/// record of what ran.
pub open spec fn refusal_outcome(
    o: TextOutcome,
    reason: Seq<char>,
    language: Language,
    answerability: Answerability,
    evidence_kept: bool,
    retrieval_ran: bool,
    llm_ran: bool,
) -> bool {
    &&& o.answerability == answerability
    &&& o.evidence_kept == evidence_kept
    &&& o.answer matches Some(a) && a@ == refusal_message_spec(reason, language)
    &&& o.refusal_reason matches Some(x) && x@ == reason
    &&& o.retrieval_ran == retrieval_ran
    &&& o.llm_ran == llm_ran
}

/// `o` serves the generated `answer` with the retrieved evidence.
pub open spec fn served_outcome(
    o: TextOutcome,
    answer: Seq<char>,
    answerability: Answerability,
    retrieval_ran: bool,
) -> bool {
    &&& o.answerability == answerability
    &&& o.evidence_kept
    &&& o.answer matches Some(a) && a@ == answer
    &&& o.refusal_reason is None
    &&& o.retrieval_ran == retrieval_ran
    &&& o.llm_ran
}

/// The next state `n` and action `a` of run `r` after event `e`.
pub open spec fn text_step_spec(r: TextRun, e: TextEvent, n: TextRun, a: TextAction) -> bool {
    match e {
        TextEvent::InputChecked(d) => match d {
            GuardrailDecision::Refuse { reason } => n == TextRun { stage: TextStage::Done, ..r } && (a matches TextAction::Finish(o) && refusal_outcome(
                o,
                reason@,
                r.language,
                Answerability::NoEvidence,
                false,
                false,
                false,
            )),
            _ => n == TextRun { stage: TextStage::Retrieval, ..r } && a is Retrieve,
        },
        TextEvent::Retrieved => n == TextRun {
            stage: TextStage::EvidenceGuard,
            retrieval_ran: true,
            ..r
        } && a is AssessEvidence,
        TextEvent::EvidenceChecked { answerability, decision } => match decision {
            GuardrailDecision::Refuse { reason } => n == TextRun { stage: TextStage::Done, ..r } && (a matches TextAction::Finish(o) && refusal_outcome(
                o,
                reason@,
                r.language,
                answerability,
                true,
                r.retrieval_ran,
                false,
            )),
            _ => n == TextRun {
                stage: TextStage::Generation,
                answerability,
                generations: 1,
                ..r
            } && a is Generate,
        },
        TextEvent::OutputChecked { decision, answer } => match decision {
            GuardrailDecision::Allow => n == TextRun { stage: TextStage::Done, ..r } && (a matches TextAction::Finish(o)
                && served_outcome(o, answer@, r.answerability, r.retrieval_ran)),
            GuardrailDecision::Regenerate { reason } => if r.generations < MAX_GENERATION_ATTEMPTS {
                n == TextRun { generations: (r.generations + 1) as u32, ..r } && a is Generate
            } else {
                n == TextRun { stage: TextStage::Done, ..r } && (a matches TextAction::Finish(o) && refusal_outcome(
                    o,
                    reason@,
                    r.language,
                    r.answerability,
                    true,
                    r.retrieval_ran,
                    true,
                ))
            },
            GuardrailDecision::Refuse { reason } => n == TextRun { stage: TextStage::Done, ..r } && (a matches TextAction::Finish(o) && refusal_outcome(
                o,
                reason@,
                r.language,
                r.answerability,
                true,
                r.retrieval_ran,
                true,
            )),
        },
    }
}

impl TextRun {
    /// A run that answers in `language`, waiting on the input guard.
    pub fn start(language: Language) -> (r: TextRun)
        ensures
            r.stage == TextStage::InputGuard,
            r.language == language,
            r.answerability == Answerability::NoEvidence,
            !r.retrieval_ran,
            r.generations == 0,
            run_wf(r),
    {
        TextRun {
            stage: TextStage::InputGuard,
            language,
            answerability: Answerability::NoEvidence,
            retrieval_ran: false,
            generations: 0,
        }
    }
}

fn refusal(
    reason: String,
    language: Language,
    answerability: Answerability,
    evidence_kept: bool,
    retrieval_ran: bool,
    llm_ran: bool,
) -> (o: TextOutcome)
    ensures
        refusal_outcome(o, reason@, language, answerability, evidence_kept, retrieval_ran, llm_ran),
{
    TextOutcome {
        answerability,
        evidence_kept,
        answer: Some(refusal_message(reason.as_str(), language)),
        refusal_reason: Some(reason),
        retrieval_ran,
        llm_ran,
    }
}

/// Decides what a text run does after the stage it waited on produced
/// `event`.
pub fn text_step(run: TextRun, event: TextEvent) -> (r: (TextRun, TextAction))
    requires
        run_wf(run),
        event_fits(run.stage, event),
    ensures
        text_step_spec(run, event, r.0, r.1),
        run_wf(r.0),
{
    let done = TextRun { stage: TextStage::Done, ..run };
    match event {
        TextEvent::InputChecked(decision) => match decision {
            GuardrailDecision::Refuse { reason } => (
                done,
                TextAction::Finish(
                    refusal(reason, run.language, Answerability::NoEvidence, false, false, false),
                ),
            ),
            _ => (TextRun { stage: TextStage::Retrieval, ..run }, TextAction::Retrieve),
        },
        TextEvent::Retrieved => (
            TextRun { stage: TextStage::EvidenceGuard, retrieval_ran: true, ..run },
            TextAction::AssessEvidence,
        ),
        TextEvent::EvidenceChecked { answerability, decision } => match decision {
            GuardrailDecision::Refuse { reason } => (
                done,
                TextAction::Finish(
                    refusal(reason, run.language, answerability, true, run.retrieval_ran, false),
                ),
            ),
            _ => (
                TextRun { stage: TextStage::Generation, answerability, generations: 1, ..run },
                TextAction::Generate,
            ),
        },
        TextEvent::OutputChecked { decision, answer } => {
            let ghost d = decision;
            let ghost ans = answer@;
            match next_generation_step(run.generations, decision, answer, run.language) {
                GenerationStep::Regenerate { .. } => (
                    TextRun { generations: run.generations + 1, ..run },
                    TextAction::Generate,
                ),
                GenerationStep::Finish(o) => {
                    proof {
                        assert(step_spec(
                            run.generations,
                            d,
                            ans,
                            run.language,
                            GenerationStep::Finish(o),
                        ));
                    }
                    (
                        done,
                        TextAction::Finish(
                            TextOutcome {
                                answerability: run.answerability,
                                evidence_kept: true,
                                answer: o.answer,
                                refusal_reason: o.reason,
                                retrieval_ran: run.retrieval_ran,
                                llm_ran: true,
                            },
                        ),
                    )
                },
            }
        },
    }
}

/// A refusal at a guard ends the run there: a refused input serves no
/// evidence, reports no evidence, and runs neither retrieval nor the
/// generator; refused evidence is never generated from.
pub proof fn lemma_refusals_skip_later_stages(r: TextRun, e: TextEvent, n: TextRun, a: TextAction)
    requires
        run_wf(r),
        event_fits(r.stage, e),
        text_step_spec(r, e, n, a),
    ensures
        (e matches TextEvent::InputChecked(d) && d is Refuse) ==> (a matches TextAction::Finish(o)
            && !o.evidence_kept && !o.retrieval_ran && !o.llm_ran && o.answerability
            == Answerability::NoEvidence && n.stage == TextStage::Done),
        (e matches TextEvent::EvidenceChecked { decision, .. } && decision is Refuse) ==> (
        a matches TextAction::Finish(o) && !o.llm_ran && n.stage == TextStage::Done),
        a is Generate ==> n.stage == TextStage::Generation && r.retrieval_ran,
        a is Retrieve ==> r.stage == TextStage::InputGuard && (e matches TextEvent::InputChecked(d)
            && !(d is Refuse)),
{
}

/// The generator runs at most [`MAX_GENERATION_ATTEMPTS`] times per run.
pub proof fn lemma_generations_bounded(r: TextRun, e: TextEvent, n: TextRun, a: TextAction)
    requires
        run_wf(r),
        event_fits(r.stage, e),
        text_step_spec(r, e, n, a),
    ensures
        a is Generate ==> n.generations <= MAX_GENERATION_ATTEMPTS,
        n.generations <= MAX_GENERATION_ATTEMPTS,
{
}

/// What the service pipeline does after one of its gates.
#[derive(Debug, Clone)]
pub enum AnswerAction {
    /// Run the generator.
    Generate,
    /// Serve these fields; `llm_ran` says whether the generator ran (its
    /// timing is reported exactly then).
    Finish {
        /// The answer fields served.
        fields: AnswerFields,
        /// Whether the generator ran.
        llm_ran: bool,
    },
}

/// After the retrieval-score gate: a refusal serves the empty, ungrounded
/// refusal fields without running the generator; otherwise generate.
pub fn after_grounding_gate(verdict: GuardrailVerdict) -> (a: AnswerAction)
    ensures
        match verdict {
            GuardrailVerdict::Allow => a is Generate,
            GuardrailVerdict::Refuse { reason } => a matches AnswerAction::Finish { fields, llm_ran }
                && refused_fields(fields, reason@) && !llm_ran,
        },
{
    match verdict {
        GuardrailVerdict::Allow => AnswerAction::Generate,
        GuardrailVerdict::Refuse { reason } => AnswerAction::Finish {
            fields: refusal_fields(reason),
            llm_ran: false,
        },
    }
}

/// After the generator answered `raw_answer`: serve the trimmed answer as
/// grounded, or refuse an empty one with `empty_generation`.
pub fn after_generation(raw_answer: &str) -> (a: AnswerAction)
    ensures
        a matches AnswerAction::Finish { fields, llm_ran } && llm_ran && (if trim_seq(
            raw_answer@,
        ).len() == 0 {
            refused_fields(fields, "empty_generation"@)
        } else {
            fields.answer@ == trim_seq(raw_answer@) && fields.grounded
                && fields.refusal_reason is None
        }),
{
    AnswerAction::Finish { fields: answer_fields(raw_answer), llm_ran: true }
}

} // verus!
