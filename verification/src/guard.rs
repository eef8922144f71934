//! Guardrails: input screening, evidence gating, and output checks.
//!
//! [`GuardService`] makes three decisions on the way through the pipeline:
//!
//! 1. **Input**: refuse off-topic or unsafe user text before any retrieval.
//! 2. **Evidence**: refuse to answer when the grounding verdict says the
//!    retrieved evidence is insufficient, weak, or conflicting.
//! 3. **Output**: check generated answers against their verification; ask
//!    for a regeneration when claims are unsupported and refuse when the
//!    answer is unsafe or unusable.
//!
//! Every refusal carries a stable machine-readable reason code, plus a
//! human-facing message via [`refusal_message`].

use vstd::prelude::*;

use crate::grounding::{tokenize, tokenize_spec, AnswerVerification};
use crate::language::Language;
use crate::text::{all_white, chars_eq, chars_of, is_blank, views};
use crate::types::{Answerability, GuardrailDecision};

verus! {

/// Input contained unsafe content.
pub const REASON_UNSAFE_INPUT: &'static str = "unsafe_input";

/// Query is outside the configured topic vocabulary.
pub const REASON_OFF_TOPIC: &'static str = "off_topic";

/// Nothing relevant was retrieved for the query.
pub const REASON_INSUFFICIENT_CONTEXT: &'static str = "insufficient_context";

/// Evidence only partially addresses the query.
pub const REASON_WEAK_EVIDENCE: &'static str = "weak_evidence";

/// Retrieved documents disagree with each other.
pub const REASON_CONFLICTING_EVIDENCE: &'static str = "conflicting_evidence";

/// Generated answer contains claims absent from the evidence.
pub const REASON_UNSUPPORTED_CLAIM: &'static str = "unsupported_claim";

/// Generated answer itself contains unsafe content.
pub const REASON_UNSAFE_OUTPUT: &'static str = "unsafe_output";

/// Generated answer is empty or otherwise unusable.
pub const REASON_MALFORMED_OUTPUT: &'static str = "malformed_output";

/// Canonical grounded-refusal message, served verbatim for English
/// insufficiency refusals.
pub open spec fn insufficient_en() -> Seq<char> {
    "I don't have enough information in the retrieved sources to answer that reliably."@
}

/// Hindi insufficiency refusal.
pub open spec fn insufficient_hi() -> Seq<char> {
    "मेरे पास इसका विश्वसनीय उत्तर देने के लिए पर्याप्त स्रोत नहीं हैं।"@
}

/// Tamil insufficiency refusal.
pub open spec fn insufficient_ta() -> Seq<char> {
    "நம்பகமான பதில் அளிக்க தேவையான ஆதாரங்கள் என்னிடம் இல்லை."@
}

/// Off-topic refusal.
pub open spec fn off_topic_message() -> Seq<char> {
    "That question is outside the topics I can answer."@
}

/// Safety refusal.
pub open spec fn unsafe_message() -> Seq<char> {
    "I can't help with that request."@
}

/// Reasons of the insufficiency family, answered with the localized
/// grounded-refusal message.
pub open spec fn is_insufficiency_reason(r: Seq<char>) -> bool {
    r == "insufficient_context"@ || r == "weak_evidence"@ || r == "conflicting_evidence"@ || r
        == "unsupported_claim"@
}

/// The human-facing message for reason `reason` in `language`.
pub open spec fn refusal_message_spec(reason: Seq<char>, language: Language) -> Seq<char> {
    if is_insufficiency_reason(reason) {
        match language {
            Language::Hi => insufficient_hi(),
            Language::Ta => insufficient_ta(),
            _ => insufficient_en(),
        }
    } else if reason == "off_topic"@ {
        off_topic_message()
    } else if reason == "unsafe_input"@ || reason == "unsafe_output"@ {
        unsafe_message()
    } else {
        insufficient_en()
    }
}

/// Every insufficiency reason (`insufficient_context`, `weak_evidence`,
/// `conflicting_evidence`, `unsupported_claim`) is answered with the same
/// grounded-refusal sentence in the request's language: the Hindi sentence
/// for Hindi, the Tamil sentence for Tamil, the English one otherwise.
pub proof fn lemma_insufficiency_refusals_are_localized(reason: Seq<char>, language: Language)
    requires
        reason == "insufficient_context"@ || reason == "weak_evidence"@ || reason
            == "conflicting_evidence"@ || reason == "unsupported_claim"@,
    ensures
        refusal_message_spec(reason, language) == refusal_message_spec(
            "insufficient_context"@,
            language,
        ),
        language == Language::Hi ==> refusal_message_spec(reason, language)
            == "मेरे पास इसका विश्वसनीय उत्तर देने के लिए पर्याप्त स्रोत नहीं हैं।"@,
        language == Language::Ta ==> refusal_message_spec(reason, language)
            == "நம்பகமான பதில் அளிக்க தேவையான ஆதாரங்கள் என்னிடம் இல்லை."@,
        (language != Language::Hi && language != Language::Ta) ==> refusal_message_spec(
            reason,
            language,
        ) == "I don't have enough information in the retrieved sources to answer that reliably."@,
{
}

/// The other reasons are answered in English whatever the language:
/// `off_topic` with the off-topic sentence, `unsafe_input` and
/// `unsafe_output` with the safety sentence, and any other reason with the
/// grounded-refusal sentence.
pub proof fn lemma_other_refusals(reason: Seq<char>, language: Language)
    ensures
        reason == "off_topic"@ ==> refusal_message_spec(reason, language)
            == "That question is outside the topics I can answer."@,
        (reason == "unsafe_input"@ || reason == "unsafe_output"@) ==> refusal_message_spec(
            reason,
            language,
        ) == "I can't help with that request."@,
        !(reason == "insufficient_context"@ || reason == "weak_evidence"@ || reason
            == "conflicting_evidence"@ || reason == "unsupported_claim"@ || reason == "off_topic"@
            || reason == "unsafe_input"@ || reason == "unsafe_output"@) ==> refusal_message_spec(
            reason,
            language,
        ) == "I don't have enough information in the retrieved sources to answer that reliably."@,
{
    reveal_strlit("insufficient_context");
    reveal_strlit("weak_evidence");
    reveal_strlit("conflicting_evidence");
    reveal_strlit("unsupported_claim");
    reveal_strlit("off_topic");
    reveal_strlit("unsafe_input");
    reveal_strlit("unsafe_output");
    if reason == "off_topic"@ || reason == "unsafe_input"@ || reason == "unsafe_output"@ {
        assert(!is_insufficiency_reason(reason)) by {
            if reason == "off_topic"@ {
                assert(reason[0] != "insufficient_context"@[0]);
                assert(reason[0] != "weak_evidence"@[0]);
                assert(reason[0] != "conflicting_evidence"@[0]);
                assert(reason.len() != "unsupported_claim"@.len());
            } else {
                assert(reason[0] != "insufficient_context"@[0]);
                assert(reason[0] != "weak_evidence"@[0]);
                assert(reason[0] != "conflicting_evidence"@[0]);
                assert(reason[3] != "unsupported_claim"@[3]);
            }
        }
        if reason != "off_topic"@ {
            assert(reason[0] != "off_topic"@[0]);
        }
    }
}

fn str_eq(a: &[char], b: &str) -> (r: bool)
    ensures
        r == (a@ == b@),
{
    let bc = chars_of(b);
    chars_eq(a, bc.as_slice())
}

/// Human-facing refusal message for a reason code, localized for the
/// insufficiency family of reasons.
pub fn refusal_message(reason: &str, language: Language) -> (m: String)
    ensures
        m@ == refusal_message_spec(reason@, language),
{
    let r = chars_of(reason);
    let insufficiency = str_eq(r.as_slice(), REASON_INSUFFICIENT_CONTEXT) || str_eq(
        r.as_slice(),
        REASON_WEAK_EVIDENCE,
    ) || str_eq(r.as_slice(), REASON_CONFLICTING_EVIDENCE) || str_eq(
        r.as_slice(),
        REASON_UNSUPPORTED_CLAIM,
    );
    if insufficiency {
        match language {
            Language::Hi => "मेरे पास इसका विश्वसनीय उत्तर देने के लिए पर्याप्त स्रोत नहीं हैं।".to_owned(),
            Language::Ta => "நம்பகமான பதில் அளிக்க தேவையான ஆதாரங்கள் என்னிடம் இல்லை.".to_owned(),
            _ => "I don't have enough information in the retrieved sources to answer that reliably.".to_owned(),
        }
    } else if str_eq(r.as_slice(), REASON_OFF_TOPIC) {
        "That question is outside the topics I can answer.".to_owned()
    } else if str_eq(r.as_slice(), REASON_UNSAFE_INPUT) || str_eq(
        r.as_slice(),
        REASON_UNSAFE_OUTPUT,
    ) {
        "I can't help with that request.".to_owned()
    } else {
        "I don't have enough information in the retrieved sources to answer that reliably.".to_owned()
    }
}

/// Terms that make an input (or generated answer) unsafe to process.
pub open spec fn unsafe_terms() -> Seq<Seq<char>> {
    seq![
        "bomb"@, "explosive"@, "grenade"@, "weapon"@, "gun"@, "rifle"@, "pistol"@, "ammo"@,
        "ammunition"@, "meth"@, "cocaine"@, "heroin"@, "narcotic"@,
    ]
}

/// `token` is an unsafe term or its simple plural (`s`/`es` suffix).
pub open spec fn is_unsafe_token(token: Seq<char>) -> bool {
    exists|k: int|
        0 <= k < unsafe_terms().len() && {
            let term = #[trigger] unsafe_terms()[k];
            token == term || token == term + "s"@ || token == term + "es"@
        }
}

/// Some token is unsafe.
pub open spec fn is_unsafe_spec(tokens: Seq<Seq<char>>) -> bool {
    exists|i: int| 0 <= i < tokens.len() && is_unsafe_token(#[trigger] tokens[i])
}

fn term(s: &str) -> (v: Vec<char>)
    ensures
        v@ == s@,
{
    chars_of(s)
}

fn unsafe_term_list() -> (v: Vec<Vec<char>>)
    ensures
        v@.map_values(|w: Vec<char>| w@) == unsafe_terms(),
{
    let v = vec![
        term("bomb"),
        term("explosive"),
        term("grenade"),
        term("weapon"),
        term("gun"),
        term("rifle"),
        term("pistol"),
        term("ammo"),
        term("ammunition"),
        term("meth"),
        term("cocaine"),
        term("heroin"),
        term("narcotic"),
    ];
    assert(v@.map_values(|w: Vec<char>| w@) =~= unsafe_terms());
    v
}

/// Whether `token` equals `term` followed by `suffix`.
fn is_term_with_suffix(token: &[char], term: &[char], suffix: &str) -> (r: bool)
    ensures
        r == (token@ == term@ + suffix@),
{
    let sfx = chars_of(suffix);
    if token.len() < term.len() || token.len() - term.len() != sfx.len() {
        assert(token@.len() != (term@ + suffix@).len());
        return false;
    }
    let t = term.len();
    let n = token.len();
    let mut i: usize = 0;
    while i < n
        invariant
            n == token@.len(),
            t == term@.len(),
            n == t + sfx@.len(),
            sfx@ == suffix@,
            i <= n,
            forall|k: int| 0 <= k < i ==> token@[k] == (term@ + suffix@)[k],
        decreases n - i,
    {
        let expected = if i < t {
            term[i]
        } else {
            sfx[i - t]
        };
        if token[i] != expected {
            assert(token@[i as int] != (term@ + suffix@)[i as int]);
            return false;
        }
        i += 1;
    }
    assert(token@ =~= term@ + suffix@);
    true
}

fn is_unsafe_token_exec(token: &String, terms: &Vec<Vec<char>>) -> (r: bool)
    requires
        terms@.map_values(|w: Vec<char>| w@) == unsafe_terms(),
    ensures
        r == is_unsafe_token(token@),
{
    let tc = chars_of(token.as_str());
    let n = terms.len();
    let mut k: usize = 0;
    while k < n
        invariant
            n == terms@.len(),
            terms@.map_values(|w: Vec<char>| w@) == unsafe_terms(),
            tc@ == token@,
            k <= n,
            forall|j: int|
                0 <= j < k ==> {
                    let term = #[trigger] unsafe_terms()[j];
                    !(token@ == term || token@ == term + "s"@ || token@ == term + "es"@)
                },
        decreases n - k,
    {
        let t = terms[k].as_slice();
        assert(t@ == unsafe_terms()[k as int]);
        if chars_eq(tc.as_slice(), t) || is_term_with_suffix(tc.as_slice(), t, "s")
            || is_term_with_suffix(tc.as_slice(), t, "es") {
            return true;
        }
        k += 1;
    }
    false
}

fn is_unsafe(tokens: &Vec<String>) -> (r: bool)
    ensures
        r == is_unsafe_spec(views(tokens@)),
{
    let terms = unsafe_term_list();
    let n = tokens.len();
    let mut i: usize = 0;
    while i < n
        invariant
            n == tokens@.len(),
            terms@.map_values(|w: Vec<char>| w@) == unsafe_terms(),
            i <= n,
            forall|j: int| 0 <= j < i ==> !is_unsafe_token(#[trigger] views(tokens@)[j]),
        decreases n - i,
    {
        if is_unsafe_token_exec(&tokens[i], &terms) {
            assert(is_unsafe_token(views(tokens@)[i as int]));
            return true;
        }
        i += 1;
    }
    false
}

/// `d` refuses with reason `r`.
pub open spec fn refuses(d: GuardrailDecision, r: Seq<char>) -> bool {
    d matches GuardrailDecision::Refuse { reason } && reason@ == r
}

/// `d` asks for a regeneration with reason `r`.
pub open spec fn regenerates(d: GuardrailDecision, r: Seq<char>) -> bool {
    d matches GuardrailDecision::Regenerate { reason } && reason@ == r
}

/// Some token of `tokens` is in the topic vocabulary `topics`.
pub open spec fn mentions_topic(tokens: Seq<Seq<char>>, topics: Seq<Seq<char>>) -> bool {
    exists|i: int| 0 <= i < tokens.len() && topics.contains(#[trigger] tokens[i])
}

/// The input decision for text with tokens `tokens`.
pub open spec fn input_decision(
    tokens: Seq<Seq<char>>,
    topics: Seq<Seq<char>>,
    d: GuardrailDecision,
) -> bool {
    if is_unsafe_spec(tokens) {
        refuses(d, "unsafe_input"@)
    } else if topics.len() > 0 && !mentions_topic(tokens, topics) {
        refuses(d, "off_topic"@)
    } else {
        d == GuardrailDecision::Allow
    }
}

/// The evidence decision for `a`.
pub open spec fn evidence_decision(a: Answerability, d: GuardrailDecision) -> bool {
    match a {
        Answerability::Supported => d == GuardrailDecision::Allow,
        Answerability::NoEvidence => refuses(d, "insufficient_context"@),
        Answerability::WeakEvidence => refuses(d, "weak_evidence"@),
        Answerability::ConflictingEvidence => refuses(d, "conflicting_evidence"@),
    }
}

/// The output decision for answer text `answer` with verification verdict
/// `supported`.
pub open spec fn output_decision(answer: Seq<char>, supported: bool, d: GuardrailDecision) -> bool {
    if all_white(answer) {
        refuses(d, "malformed_output"@)
    } else if is_unsafe_spec(tokenize_spec(answer)) {
        refuses(d, "unsafe_output"@)
    } else if !supported {
        regenerates(d, "unsupported_claim"@)
    } else {
        d == GuardrailDecision::Allow
    }
}

/// Stateful guardrail service shared by all requests.
///
/// `topic_tokens` is the allow-list of content words describing what may be
/// discussed; an empty list disables off-topic checking (used when running
/// against a retrieval backend whose domain is not known up front).
#[derive(Debug, Clone)]
pub struct GuardService {
    topic_tokens: Vec<String>,
}

/// `v` with later repeats removed.
fn dedup_topics(v: Vec<String>) -> (out: Vec<String>)
    ensures
        views(out@).no_duplicates(),
        forall|t: Seq<char>| views(out@).contains(t) <==> views(v@).contains(t),
{
    let n = v.len();
    let mut out: Vec<String> = Vec::new();
    let mut i: usize = 0;
    while i < n
        invariant
            n == v@.len(),
            i <= n,
            views(out@).no_duplicates(),
            forall|t: Seq<char>| views(out@).contains(t) <==> views(v@).take(i as int).contains(t),
        decreases n - i,
    {
        let ghost before = out@;
        let seen = topic_member(&out, &v[i]);
        if !seen {
            out.push(v[i].clone());
            assert(views(out@) =~= views(before).push(v@[i as int]@));
        }
        proof {
            let p = views(v@).take(i as int);
            let q = views(v@).take(i + 1);
            assert(q =~= p.push(v@[i as int]@));
            assert forall|t: Seq<char>| views(out@).contains(t) <==> q.contains(t) by {
                lemma_push_contains(p, v@[i as int]@, t);
                if !seen {
                    lemma_push_contains(views(before), v@[i as int]@, t);
                }
            }
        }
        i += 1;
    }
    assert(views(v@).take(n as int) =~= views(v@));
    out
}

/// Appending `x` adds exactly `x` to what a sequence contains.
proof fn lemma_push_contains<A>(s: Seq<A>, x: A, t: A)
    ensures
        s.push(x).contains(t) <==> (s.contains(t) || t == x),
{
    if s.contains(t) {
        let k = choose|k: int| 0 <= k < s.len() && s[k] == t;
        assert(s.push(x)[k] == t);
    }
    if t == x {
        assert(s.push(x)[s.len() as int] == x);
    }
    if s.push(x).contains(t) {
        let k = choose|k: int| 0 <= k < s.push(x).len() && s.push(x)[k] == t;
        if k < s.len() {
            assert(s[k] == t);
        }
    }
}

fn topic_member(v: &Vec<String>, t: &String) -> (r: bool)
    ensures
        r == views(v@).contains(t@),
{
    let n = v.len();
    let mut i: usize = 0;
    while i < n
        invariant
            n == v@.len(),
            i <= n,
            forall|k: int| 0 <= k < i ==> views(v@)[k] != t@,
        decreases n - i,
    {
        if v[i] == *t {
            assert(views(v@)[i as int] == t@);
            return true;
        }
        i += 1;
    }
    false
}

impl GuardService {
    /// The topic vocabulary.
    pub closed spec fn topics(&self) -> Seq<Seq<char>> {
        views(self.topic_tokens@)
    }

    /// Creates a guard service over the given topic vocabulary.
    pub fn new(topic_tokens: Vec<String>) -> (g: GuardService)
        ensures
            g.topics().no_duplicates(),
            forall|t: Seq<char>| g.topics().contains(t) <==> views(topic_tokens@).contains(t),
    {
        GuardService { topic_tokens: dedup_topics(topic_tokens) }
    }

    fn mentions(&self, tokens: &Vec<String>) -> (r: bool)
        ensures
            r == mentions_topic(views(tokens@), self.topics()),
    {
        let n = tokens.len();
        let mut i: usize = 0;
        while i < n
            invariant
                n == tokens@.len(),
                i <= n,
                forall|k: int| 0 <= k < i ==> !self.topics().contains(#[trigger] views(tokens@)[k]),
            decreases n - i,
        {
            if topic_member(&self.topic_tokens, &tokens[i]) {
                assert(self.topics().contains(views(tokens@)[i as int]));
                return true;
            }
            i += 1;
        }
        false
    }

    /// Screens raw user text before retrieval.
    pub fn check_input(&self, text: &str) -> (d: GuardrailDecision)
        ensures
            input_decision(tokenize_spec(text@), self.topics(), d),
    {
        let tokens = tokenize(text);
        if is_unsafe(&tokens) {
            return GuardrailDecision::Refuse { reason: REASON_UNSAFE_INPUT.to_owned() };
        }
        if self.topic_tokens.len() > 0 && !self.mentions(&tokens) {
            return GuardrailDecision::Refuse { reason: REASON_OFF_TOPIC.to_owned() };
        }
        GuardrailDecision::Allow
    }

    /// Gates answering on the grounding verdict for the retrieved evidence.
    pub fn check_evidence(&self, answerability: Answerability) -> (d: GuardrailDecision)
        ensures
            evidence_decision(answerability, d),
    {
        match answerability {
            Answerability::Supported => GuardrailDecision::Allow,
            Answerability::NoEvidence => GuardrailDecision::Refuse {
                reason: REASON_INSUFFICIENT_CONTEXT.to_owned(),
            },
            Answerability::WeakEvidence => GuardrailDecision::Refuse {
                reason: REASON_WEAK_EVIDENCE.to_owned(),
            },
            Answerability::ConflictingEvidence => GuardrailDecision::Refuse {
                reason: REASON_CONFLICTING_EVIDENCE.to_owned(),
            },
        }
    }

    /// Checks a generated answer against its verification result.
    ///
    /// Unsupported answers yield [`GuardrailDecision::Regenerate`]; unsafe
    /// content or unusable output refuses.
    pub fn check_output(&self, answer: &str, verification: &AnswerVerification) -> (d:
        GuardrailDecision)
        ensures
            output_decision(answer@, verification.supported, d),
    {
        if is_blank(answer) {
            return GuardrailDecision::Refuse { reason: REASON_MALFORMED_OUTPUT.to_owned() };
        }
        let tokens = tokenize(answer);
        if is_unsafe(&tokens) {
            return GuardrailDecision::Refuse { reason: REASON_UNSAFE_OUTPUT.to_owned() };
        }
        if !verification.supported {
            return GuardrailDecision::Regenerate { reason: REASON_UNSUPPORTED_CLAIM.to_owned() };
        }
        GuardrailDecision::Allow
    }
}

} // verus!
