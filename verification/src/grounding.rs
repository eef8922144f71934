//! Evidence-sufficiency assessment and answer verification.
//!
//! The grounding stage answers two questions with deterministic lexical
//! heuristics:
//!
//! 1. Is the retrieved evidence good enough to answer at all? [`assess`]
//!    counts *relevance* (best single document's coverage of the query
//!    terms), *coverage* (union coverage across all documents) and
//!    *consistency* (do the relevant documents agree?) and maps them onto
//!    [`Answerability`] with configurable thresholds.
//! 2. Is a generated answer supported by that evidence? [`verify_answer`]
//!    checks how much of the answer's content appears in the evidence and
//!    flags numbers that appear nowhere in it.
//!
//! Ratios are compared exactly: a threshold is a number of thousandths, and
//! `hits / total >= t / 1000` is decided as `hits * 1000 >= t * total`.

use vstd::prelude::*;

use crate::text::{
    char_is_alphanumeric, chars_of, chars_eq, list_contains, str_lowercase, str_to_lowercase,
    string_from, unicode_alphanumeric, views,
};
use crate::types::Answerability;

verus! {

/// Combining marks of the Devanagari and Tamil blocks that belong to a word
/// (vowel signs, virama, stress marks).
pub open spec fn is_indic_mark(c: char) -> bool {
    let v = c as u32;
    ||| 0x0900 <= v <= 0x0903
    ||| 0x093A <= v <= 0x094F
    ||| 0x0951 <= v <= 0x0957
    ||| 0x0962 <= v <= 0x0963
    ||| v == 0x0B82
    ||| v == 0x0B83
    ||| 0x0BBE <= v <= 0x0BC2
    ||| 0x0BC6 <= v <= 0x0BC8
    ||| 0x0BCA <= v <= 0x0BCD
    ||| v == 0x0BD7
}

/// Whether `c` belongs to a word: alphanumeric, or an Indic combining mark
/// (without them Indic words split into meaningless fragments).
pub open spec fn is_word_char_spec(c: char) -> bool {
    unicode_alphanumeric(c) || is_indic_mark(c)
}

/// The multilingual stopword list (English, Hindi, Tamil function words and
/// question words, which carry intent rather than topic).
pub open spec fn stopwords() -> Seq<Seq<char>> {
    seq![
        "a"@, "an"@, "the"@, "is"@, "are"@, "was"@, "were"@, "am"@, "be"@, "been"@,
        "being"@, "do"@, "does"@, "did"@, "what"@, "which"@, "who"@, "whom"@, "when"@,
        "where"@, "why"@, "how"@, "of"@, "in"@, "on"@, "for"@, "to"@, "from"@, "by"@,
        "with"@, "and"@, "or"@, "not"@, "can"@, "could"@, "should"@, "would"@, "will"@,
        "this"@, "that"@, "these"@, "those"@, "it"@, "its"@, "as"@, "at"@, "about"@,
        "into"@, "vs"@, "versus"@, "define"@, "meaning"@,
        "क्या"@, "है"@, "हैं"@, "का"@, "की"@, "के"@, "में"@, "से"@, "पर"@, "और"@,
        "या"@, "एक"@, "को"@, "यह"@, "वह"@, "कैसे"@, "कब"@, "कौन"@, "क्यों"@,
        "என்றால்"@, "என்ன"@, "எப்படி"@, "ஒரு"@, "மற்றும்"@, "இல்"@, "யார்"@,
        "எப்போது"@, "ஏன்"@,
    ]
}

/// A raw word becomes a token when its lowercase form has at least two
/// chars and is not a stopword.
pub open spec fn keeps(raw: Seq<char>) -> bool {
    let t = str_lowercase(raw);
    t.len() >= 2 && !stopwords().contains(t)
}

/// `tokens` after the word `raw` ends.
pub open spec fn flush_word(tokens: Seq<Seq<char>>, raw: Seq<char>) -> Seq<Seq<char>> {
    if keeps(raw) {
        tokens.push(str_lowercase(raw))
    } else {
        tokens
    }
}

/// Tokenizer state: tokens emitted so far and the word being read.
pub struct TokState {
    pub tokens: Seq<Seq<char>>,
    pub current: Seq<char>,
}

/// Tokenizer state after reading `s`.
pub open spec fn tok_scan(s: Seq<char>) -> TokState
    decreases s.len(),
{
    if s.len() == 0 {
        TokState { tokens: Seq::empty(), current: Seq::empty() }
    } else {
        let st = tok_scan(s.drop_last());
        let c = s.last();
        if is_word_char_spec(c) {
            TokState { tokens: st.tokens, current: st.current.push(c) }
        } else if st.current.len() > 0 {
            TokState { tokens: flush_word(st.tokens, st.current), current: Seq::empty() }
        } else {
            st
        }
    }
}

/// The tokens of `s`: lowercased maximal word runs, stopwords and
/// single-char words dropped, in text order.
pub open spec fn tokenize_spec(s: Seq<char>) -> Seq<Seq<char>> {
    let st = tok_scan(s);
    if st.current.len() > 0 {
        flush_word(st.tokens, st.current)
    } else {
        st.tokens
    }
}

/// Every token has at least two chars and none is a stopword.
pub open spec fn tokens_well_formed(tokens: Seq<Seq<char>>) -> bool {
    forall|i: int|
        0 <= i < tokens.len() ==> (#[trigger] tokens[i]).len() >= 2 && !stopwords().contains(
            tokens[i],
        )
}

proof fn lemma_tok_scan_well_formed(s: Seq<char>)
    ensures
        tokens_well_formed(tok_scan(s).tokens),
    decreases s.len(),
{
    if s.len() > 0 {
        lemma_tok_scan_well_formed(s.drop_last());
    }
}

/// No token of any text is a stopword or shorter than two chars.
pub proof fn lemma_tokens_well_formed(s: Seq<char>)
    ensures
        tokens_well_formed(tokenize_spec(s)),
{
    lemma_tok_scan_well_formed(s);
}

fn is_word_char(c: char) -> (r: bool)
    ensures
        r == is_word_char_spec(c),
{
    if char_is_alphanumeric(c) {
        return true;
    }
    let v = c as u32;
    (0x0900 <= v && v <= 0x0903) || (0x093A <= v && v <= 0x094F) || (0x0951 <= v && v <= 0x0957)
        || (0x0962 <= v && v <= 0x0963) || v == 0x0B82 || v == 0x0B83 || (0x0BBE <= v && v
        <= 0x0BC2) || (0x0BC6 <= v && v <= 0x0BC8) || (0x0BCA <= v && v <= 0x0BCD) || v == 0x0BD7
}

fn word(s: &str) -> (v: Vec<char>)
    ensures
        v@ == s@,
{
    chars_of(s)
}

/// The stopword list, as char vectors.
fn stopword_list() -> (v: Vec<Vec<char>>)
    ensures
        v@.map_values(|w: Vec<char>| w@) == stopwords(),
{
    let v = vec![
        word("a"), word("an"), word("the"), word("is"), word("are"), word("was"), word("were"),
        word("am"), word("be"), word("been"), word("being"), word("do"), word("does"),
        word("did"), word("what"), word("which"), word("who"), word("whom"), word("when"),
        word("where"), word("why"), word("how"), word("of"), word("in"), word("on"),
        word("for"), word("to"), word("from"), word("by"), word("with"), word("and"),
        word("or"), word("not"), word("can"), word("could"), word("should"), word("would"),
        word("will"), word("this"), word("that"), word("these"), word("those"), word("it"),
        word("its"), word("as"), word("at"), word("about"), word("into"), word("vs"),
        word("versus"), word("define"), word("meaning"),
        word("क्या"), word("है"), word("हैं"), word("का"), word("की"), word("के"), word("में"),
        word("से"), word("पर"), word("और"), word("या"), word("एक"), word("को"), word("यह"),
        word("वह"), word("कैसे"), word("कब"), word("कौन"), word("क्यों"),
        word("என்றால்"), word("என்ன"), word("எப்படி"), word("ஒரு"), word("மற்றும்"),
        word("இல்"), word("யார்"), word("எப்போது"), word("ஏன்"),
    ];
    assert(v@.map_values(|w: Vec<char>| w@) =~= stopwords());
    v
}

/// Emits the lowercase form of `raw` when it is a keepable token.
fn push_token(tokens: &mut Vec<String>, raw: &[char], stops: &Vec<Vec<char>>)
    requires
        stops@.map_values(|w: Vec<char>| w@) == stopwords(),
    ensures
        views(final(tokens)@) == flush_word(views(old(tokens)@), raw@),
{
    let raw_string = string_from(raw);
    let token = str_to_lowercase(raw_string.as_str());
    let token_chars = chars_of(token.as_str());
    if token_chars.len() >= 2 && !list_contains(stops, token_chars.as_slice()) {
        let ghost before = tokens@;
        tokens.push(token);
        assert(views(tokens@) =~= views(before).push(str_lowercase(raw@)));
    }
}

/// Tokenizes text for lexical matching: lowercased word runs with stopwords
/// dropped (a small English/Hindi/Tamil list) and single-character tokens
/// ignored.
pub fn tokenize(text: &str) -> (tokens: Vec<String>)
    ensures
        views(tokens@) == tokenize_spec(text@),
        tokens_well_formed(views(tokens@)),
{
    let stops = stopword_list();
    let chars = chars_of(text);
    let n = chars.len();
    let mut tokens: Vec<String> = Vec::new();
    let mut current: Vec<char> = Vec::new();
    let mut i: usize = 0;
    proof {
        assert(views(tokens@) =~= Seq::<Seq<char>>::empty());
        assert(text@.take(0) =~= Seq::<char>::empty());
    }
    while i < n
        invariant
            n == chars@.len(),
            chars@ == text@,
            i <= n,
            stops@.map_values(|w: Vec<char>| w@) == stopwords(),
            tok_scan(text@.take(i as int)) == (TokState {
                tokens: views(tokens@),
                current: current@,
            }),
        decreases n - i,
    {
        let c = chars[i];
        proof {
            assert(text@.take(i + 1).drop_last() =~= text@.take(i as int));
            assert(text@.take(i + 1).last() == c);
        }
        if is_word_char(c) {
            current.push(c);
        } else if current.len() > 0 {
            push_token(&mut tokens, current.as_slice(), &stops);
            current = Vec::new();
        }
        i += 1;
    }
    proof {
        assert(text@.take(n as int) =~= text@);
    }
    if current.len() > 0 {
        push_token(&mut tokens, current.as_slice(), &stops);
    }
    proof {
        lemma_tokens_well_formed(text@);
    }
    tokens
}


/// `s` with later repeats removed (first-seen order).
pub open spec fn dedup_spec(s: Seq<Seq<char>>) -> Seq<Seq<char>>
    decreases s.len(),
{
    if s.len() == 0 {
        s
    } else {
        let d = dedup_spec(s.drop_last());
        if d.contains(s.last()) {
            d
        } else {
            d.push(s.last())
        }
    }
}

/// Deduplication keeps exactly the members of `s`, each once.
pub proof fn lemma_dedup(s: Seq<Seq<char>>)
    ensures
        dedup_spec(s).no_duplicates(),
        forall|t: Seq<char>| dedup_spec(s).contains(t) <==> s.contains(t),
        dedup_spec(s).len() <= s.len(),
    decreases s.len(),
{
    if s.len() > 0 {
        lemma_dedup(s.drop_last());
        let d = dedup_spec(s.drop_last());
        assert forall|t: Seq<char>| dedup_spec(s).contains(t) <==> s.contains(t) by {
            if s.contains(t) && t != s.last() {
                let k = choose|k: int| 0 <= k < s.len() && s[k] == t;
                assert(s.drop_last()[k] == t);
            }
            if s.drop_last().contains(t) {
                let k = choose|k: int| 0 <= k < s.drop_last().len() && s.drop_last()[k] == t;
                assert(s[k] == t);
            }
            if dedup_spec(s).contains(t) && !d.contains(t) {
                assert(d.push(s.last()).contains(t));
                let k = choose|k: int| 0 <= k < d.len() + 1 && d.push(s.last())[k] == t;
                if k < d.len() {
                    assert(d[k] == t);
                }
                assert(t == s.last());
                assert(s[s.len() - 1] == t);
            }
            if t == s.last() && !d.contains(t) {
                assert(d.push(s.last())[d.len() as int] == t);
            }
            if d.contains(t) && dedup_spec(s) != d {
                let k = choose|k: int| 0 <= k < d.len() && d[k] == t;
                assert(d.push(s.last())[k] == t);
            }
        }
    }
}

/// Number of members of `doc` that occur in `set`.
pub open spec fn count_members(doc: Seq<Seq<char>>, set: Seq<Seq<char>>) -> nat
    decreases doc.len(),
{
    if doc.len() == 0 {
        0
    } else {
        count_members(doc.drop_last(), set) + if set.contains(doc.last()) {
            1nat
        } else {
            0nat
        }
    }
}

/// Some document of `docs` holds `t`.
pub open spec fn any_doc_contains(docs: Seq<Seq<Seq<char>>>, t: Seq<char>) -> bool {
    exists|i: int| 0 <= i < docs.len() && (#[trigger] docs[i]).contains(t)
}

/// Number of members of `q` held by some document of `docs`.
pub open spec fn count_covered(q: Seq<Seq<char>>, docs: Seq<Seq<Seq<char>>>) -> nat
    decreases q.len(),
{
    if q.len() == 0 {
        0
    } else {
        count_covered(q.drop_last(), docs) + if any_doc_contains(docs, q.last()) {
            1nat
        } else {
            0nat
        }
    }
}

/// Largest member of `s` (0 for the empty sequence).
pub open spec fn max_nat(s: Seq<nat>) -> nat
    decreases s.len(),
{
    if s.len() == 0 {
        0
    } else {
        let m = max_nat(s.drop_last());
        if s.last() > m {
            s.last()
        } else {
            m
        }
    }
}

/// `x * 1000 >= t * total`: the ratio `x / total` reaches `t` thousandths.
pub open spec fn reaches(x: nat, total: nat, t: u32) -> bool {
    x * 1000 >= t * total
}

/// Thresholds controlling the grounding verdicts, in thousandths.
#[derive(Debug, Clone, Copy, PartialEq, Eq)]
pub struct GroundingConfig {
    /// Required best-single-document query-term coverage for `Supported`.
    pub relevance_min: u32,
    /// Required union query-term coverage for `Supported`.
    pub coverage_min: u32,
    /// Required agreement ratio among relevant documents for `Supported`.
    pub consistency_min: u32,
    /// Pairwise overlap coefficient at which two documents count as agreeing
    /// rather than conflicting.
    pub agreement_min: u32,
    /// Required share of an answer's content tokens present in the evidence.
    pub answer_support_min: u32,
}

impl GroundingConfig {
    /// The default thresholds: relevance, coverage and consistency 0.50,
    /// agreement 0.10, answer support 0.60.
    pub fn new() -> (c: GroundingConfig)
        ensures
            c.relevance_min == 500 && c.coverage_min == 500 && c.consistency_min == 500
                && c.agreement_min == 100 && c.answer_support_min == 600,
    {
        GroundingConfig {
            relevance_min: 500,
            coverage_min: 500,
            consistency_min: 500,
            agreement_min: 100,
            answer_support_min: 600,
        }
    }
}

/// Per-document containment below which a document is not part of the
/// evidence set when judging consistency (0.10).
pub const RELEVANT_FLOOR: u32 = 100;

/// Whether two relevant documents agree: their overlap coefficient
/// (shared tokens over the smaller document's size) reaches `t`.
pub open spec fn agrees(a: Seq<Seq<char>>, b: Seq<Seq<char>>, t: u32) -> bool {
    let smaller = if a.len() <= b.len() {
        a.len()
    } else {
        b.len()
    };
    if smaller == 0 {
        t == 0
    } else {
        reaches(count_members(a, b), smaller, t)
    }
}

/// Number of documents of `prefix` that agree with `last`.
pub open spec fn agree_with(prefix: Seq<Seq<Seq<char>>>, last: Seq<Seq<char>>, t: u32) -> nat
    decreases prefix.len(),
{
    if prefix.len() == 0 {
        0
    } else {
        agree_with(prefix.drop_last(), last, t) + if agrees(prefix.last(), last, t) {
            1nat
        } else {
            0nat
        }
    }
}

/// Number of agreeing pairs `(i, j)`, `i < j`, among `rel`.
pub open spec fn agreeing_pairs(rel: Seq<Seq<Seq<char>>>, t: u32) -> nat
    decreases rel.len(),
{
    if rel.len() == 0 {
        0
    } else {
        agreeing_pairs(rel.drop_last(), t) + agree_with(rel.drop_last(), rel.last(), t)
    }
}

/// Number of pairs `(i, j)`, `i < j`, among `n` documents.
pub open spec fn pair_count(n: nat) -> nat
    decreases n,
{
    if n == 0 {
        0
    } else {
        pair_count((n - 1) as nat) + (n - 1) as nat
    }
}

/// Lexical sufficiency counts for one retrieval result.
#[derive(Debug, Clone, Copy, PartialEq, Eq)]
pub struct SufficiencyScores {
    /// Distinct content tokens of the query.
    pub query_terms: usize,
    /// Most query terms found in a single document (relevance numerator).
    pub best_hits: usize,
    /// Query terms found in some document (coverage numerator).
    pub covered: usize,
    /// Documents whose containment reaches the relevance floor.
    pub relevant_docs: usize,
    /// Pairs of relevant documents.
    pub pairs: u64,
    /// Pairs of relevant documents that agree.
    pub agreeing: u64,
}

/// Outcome of the evidence-sufficiency assessment.
#[derive(Debug, Clone, Copy, PartialEq, Eq)]
pub struct Assessment {
    /// The verdict consumed by the evidence guard.
    pub answerability: Answerability,
    /// The underlying counts, for logging and debugging.
    pub scores: SufficiencyScores,
}

/// The consistency ratio reaches its threshold: agreeing pairs over pairs,
/// taken as 1.0 when fewer than two documents are relevant.
pub open spec fn consistency_reaches(sc: SufficiencyScores, config: GroundingConfig) -> bool {
    if sc.relevant_docs < 2 {
        1000 >= config.consistency_min
    } else {
        reaches(sc.agreeing as nat, sc.pairs as nat, config.consistency_min)
    }
}

/// The verdict for given counts.
pub open spec fn verdict_spec(
    sc: SufficiencyScores,
    config: GroundingConfig,
    score_ok: bool,
) -> Answerability {
    let q = sc.query_terms as nat;
    let consistency_ok = consistency_reaches(sc, config);
    if sc.best_hits == 0 {
        Answerability::NoEvidence
    } else if reaches(sc.best_hits as nat, q, config.relevance_min) && reaches(
        sc.covered as nat,
        q,
        config.coverage_min,
    ) && score_ok && consistency_ok {
        Answerability::Supported
    } else if !consistency_ok {
        Answerability::ConflictingEvidence
    } else {
        Answerability::WeakEvidence
    }
}


/// Relevant documents of `docs`: containment reaches the relevance floor.
pub open spec fn relevant_spec(docs: Seq<Seq<Seq<char>>>, q: Seq<Seq<char>>) -> Seq<
    Seq<Seq<char>>,
>
    decreases docs.len(),
{
    if docs.len() == 0 {
        docs
    } else {
        let r = relevant_spec(docs.drop_last(), q);
        if reaches(count_members(docs.last(), q), q.len(), RELEVANT_FLOOR) {
            r.push(docs.last())
        } else {
            r
        }
    }
}

/// The indexed form of evidence texts: each text's distinct tokens.
pub open spec fn index_of(texts: Seq<Seq<char>>) -> Seq<Seq<Seq<char>>> {
    texts.map_values(|t: Seq<char>| dedup_spec(tokenize_spec(t)))
}

/// Query-term hits of each document.
pub open spec fn hits_of(docs: Seq<Seq<Seq<char>>>, q: Seq<Seq<char>>) -> Seq<nat> {
    docs.map_values(|d: Seq<Seq<char>>| count_members(d, q))
}

/// Pre-tokenized evidence shared by assessment and verification.
///
/// Tokenizing the evidence is the dominant cost of grounding, and the
/// pipeline needs the same documents twice: once to judge sufficiency
/// ([`assess_indexed`]) and once to verify the generated answer
/// ([`verify_answer_indexed`]). Building this index once per request cuts
/// the work to a single tokenization pass.
#[derive(Debug, Clone)]
pub struct EvidenceIndex {
    /// Unique content tokens per document, in first-seen order.
    docs: Vec<Vec<String>>,
}

impl EvidenceIndex {
    /// The indexed documents, each as its distinct tokens.
    pub closed spec fn docs_view(&self) -> Seq<Seq<Seq<char>>> {
        self.docs@.map_values(|d: Vec<String>| views(d@))
    }

    /// Tokenizes every document exactly once.
    pub fn new(texts: &Vec<String>) -> (index: EvidenceIndex)
        ensures
            index.docs_view() == index_of(views(texts@)),
    {
        let n = texts.len();
        let mut docs: Vec<Vec<String>> = Vec::new();
        let mut i: usize = 0;
        while i < n
            invariant
                n == texts@.len(),
                i <= n,
                docs@.len() == i,
                forall|k: int|
                    0 <= k < i ==> views((#[trigger] docs@[k])@) == dedup_spec(
                        tokenize_spec(texts@[k]@),
                    ),
            decreases n - i,
        {
            let tokens = tokenize(texts[i].as_str());
            docs.push(dedup_strings(&tokens));
            i += 1;
        }
        let index = EvidenceIndex { docs };
        assert forall|k: int| 0 <= k < texts@.len() implies #[trigger] index.docs_view()[k]
            == dedup_spec(tokenize_spec(texts@[k]@)) by {
            assert(index.docs_view()[k] == views(index.docs@[k]@));
        }
        assert(index.docs_view() =~= index_of(views(texts@)));
        index
    }

    /// Number of indexed documents.
    pub fn len(&self) -> (n: usize)
        ensures
            n == self.docs_view().len(),
    {
        self.docs.len()
    }

    /// Whether the index holds no documents.
    pub fn is_empty(&self) -> (r: bool)
        ensures
            r == (self.docs_view().len() == 0),
    {
        self.docs.len() == 0
    }

    /// Whether some indexed document holds `token`.
    fn contains(&self, token: &String) -> (r: bool)
        ensures
            r == any_doc_contains(self.docs_view(), token@),
    {
        let n = self.docs.len();
        let mut i: usize = 0;
        while i < n
            invariant
                n == self.docs_view().len(),
                i <= n,
                forall|k: int| 0 <= k < i ==> !(#[trigger] self.docs_view()[k]).contains(token@),
            decreases n - i,
        {
            assert(self.docs_view()[i as int] == views(self.docs@[i as int]@));
            if contains_string(&self.docs[i], token) {
                return true;
            }
            i += 1;
        }
        false
    }
}

/// Whether `t` is a member of `v`.
fn contains_string(v: &Vec<String>, t: &String) -> (r: bool)
    ensures
        r == views(v@).contains(t@),
{
    let n = v.len();
    let mut i: usize = 0;
    while i < n
        invariant
            n == v@.len(),
            i <= n,
            forall|k: int| 0 <= k < i ==> views(v@)[k] != t@,
        decreases n - i,
    {
        if v[i] == *t {
            assert(views(v@)[i as int] == t@);
            return true;
        }
        i += 1;
    }
    false
}

/// `v` with later repeats removed.
fn dedup_strings(v: &Vec<String>) -> (out: Vec<String>)
    ensures
        views(out@) == dedup_spec(views(v@)),
{
    let n = v.len();
    let mut out: Vec<String> = Vec::new();
    let mut i: usize = 0;
    while i < n
        invariant
            n == v@.len(),
            i <= n,
            views(out@) == dedup_spec(views(v@).take(i as int)),
        decreases n - i,
    {
        proof {
            assert(views(v@).take(i + 1).drop_last() =~= views(v@).take(i as int));
            assert(views(v@).take(i + 1).last() == v@[i as int]@);
        }
        if !contains_string(&out, &v[i]) {
            let ghost before = out@;
            out.push(v[i].clone());
            assert(views(out@) =~= views(before).push(v@[i as int]@));
        }
        i += 1;
    }
    assert(views(v@).take(n as int) =~= views(v@));
    out
}

/// Number of members of `doc` that occur in `set`.
fn count_in(doc: &Vec<String>, set: &Vec<String>) -> (c: usize)
    ensures
        c == count_members(views(doc@), views(set@)),
        c <= doc@.len(),
{
    let n = doc.len();
    let mut c: usize = 0;
    let mut i: usize = 0;
    while i < n
        invariant
            n == doc@.len(),
            i <= n,
            c <= i,
            c == count_members(views(doc@).take(i as int), views(set@)),
        decreases n - i,
    {
        proof {
            assert(views(doc@).take(i + 1).drop_last() =~= views(doc@).take(i as int));
            assert(views(doc@).take(i + 1).last() == doc@[i as int]@);
        }
        if contains_string(set, &doc[i]) {
            c += 1;
        }
        i += 1;
    }
    assert(views(doc@).take(n as int) =~= views(doc@));
    c
}

/// Whether `x / total` reaches `t` thousandths.
fn reaches_exec(x: u64, total: u64, t: u32) -> (r: bool)
    ensures
        r == reaches(x as nat, total as nat, t),
{
    let lhs = (x as u128) * 1000;
    proof {
        assert((t as nat) * (total as nat) <= (u32::MAX as nat) * (u64::MAX as nat))
            by (nonlinear_arith)
            requires
                t <= u32::MAX,
                total <= u64::MAX,
        ;
    }
    let rhs = (t as u128) * (total as u128);
    lhs >= rhs
}

/// Whether two relevant documents agree (overlap coefficient reaches `t`).
fn agrees_exec(a: &Vec<String>, b: &Vec<String>, t: u32) -> (r: bool)
    ensures
        r == agrees(views(a@), views(b@), t),
{
    let smaller = if a.len() <= b.len() {
        a.len()
    } else {
        b.len()
    };
    if smaller == 0 {
        return t == 0;
    }
    let shared = count_in(a, b);
    reaches_exec(shared as u64, smaller as u64, t)
}

proof fn lemma_agree_with_bound(prefix: Seq<Seq<Seq<char>>>, last: Seq<Seq<char>>, t: u32)
    ensures
        agree_with(prefix, last, t) <= prefix.len(),
    decreases prefix.len(),
{
    if prefix.len() > 0 {
        lemma_agree_with_bound(prefix.drop_last(), last, t);
    }
}

proof fn lemma_pair_count_bound(n: nat)
    ensures
        pair_count(n) <= n * n,
    decreases n,
{
    if n > 0 {
        lemma_pair_count_bound((n - 1) as nat);
        assert((n - 1) * (n - 1) + (n - 1) <= n * n) by (nonlinear_arith);
    }
}

proof fn lemma_agreeing_bound(rel: Seq<Seq<Seq<char>>>, t: u32)
    ensures
        agreeing_pairs(rel, t) <= pair_count(rel.len()),
    decreases rel.len(),
{
    if rel.len() > 0 {
        lemma_agreeing_bound(rel.drop_last(), t);
        lemma_agree_with_bound(rel.drop_last(), rel.last(), t);
    }
}

/// The assessment of query text `query` against indexed documents `docs`.
pub open spec fn assess_spec(
    query: Seq<char>,
    docs: Seq<Seq<Seq<char>>>,
    config: GroundingConfig,
    score_ok: bool,
    a: Assessment,
) -> bool {
    let q = dedup_spec(tokenize_spec(query));
    if docs.len() == 0 || q.len() == 0 {
        &&& a.answerability == Answerability::NoEvidence
        &&& a.scores == (SufficiencyScores {
            query_terms: 0,
            best_hits: 0,
            covered: 0,
            relevant_docs: 0,
            pairs: 0,
            agreeing: 0,
        })
    } else {
        let rel = relevant_spec(docs, q);
        &&& a.scores.query_terms == q.len()
        &&& a.scores.best_hits == max_nat(hits_of(docs, q))
        &&& a.scores.covered == count_covered(q, docs)
        &&& a.scores.relevant_docs == rel.len()
        &&& a.scores.pairs == pair_count(rel.len())
        &&& a.scores.agreeing == agreeing_pairs(rel, config.agreement_min)
        &&& a.answerability == verdict_spec(a.scores, config, score_ok)
    }
}

/// Laws of every assessment: without evidence (or without query terms)
/// nothing is supported; one or zero relevant documents cannot conflict
/// (for a consistency threshold of at most 1.0); and evidence is only
/// `Supported` when the retrieval-score check passed and some document
/// matched a query term.
pub proof fn lemma_assessment_laws(
    query: Seq<char>,
    docs: Seq<Seq<Seq<char>>>,
    config: GroundingConfig,
    score_ok: bool,
    a: Assessment,
)
    requires
        assess_spec(query, docs, config, score_ok, a),
    ensures
        docs.len() == 0 ==> a.answerability == Answerability::NoEvidence,
        config.consistency_min <= 1000 && a.scores.relevant_docs < 2 ==> a.answerability
            != Answerability::ConflictingEvidence,
        a.answerability == Answerability::Supported ==> score_ok && a.scores.best_hits > 0,
{
}

proof fn lemma_members_as_set(doc: Seq<Seq<char>>, q: Seq<Seq<char>>)
    requires
        doc.no_duplicates(),
    ensures
        count_members(doc, q) == q.to_set().intersect(doc.to_set()).len(),
    decreases doc.len(),
{
    broadcast use {vstd::set::group_set_axioms, vstd::seq_lib::seq_to_set_is_finite};
    broadcast use vstd::set_lib::group_set_properties;

    let s = q.to_set().intersect(doc.to_set());
    if doc.len() == 0 {
        assert(s =~= Set::empty());
    } else {
        let d = doc.drop_last();
        let x = doc.last();
        assert forall|i: int, j: int| 0 <= i < d.len() && 0 <= j < d.len() && i != j implies d[i]
            != d[j] by {
            assert(d[i] == doc[i] && d[j] == doc[j]);
        }
        lemma_members_as_set(d, q);
        let sd = q.to_set().intersect(d.to_set());
        assert(!d.contains(x)) by {
            if d.contains(x) {
                let k = choose|k: int| 0 <= k < d.len() && d[k] == x;
                assert(doc[k] == doc[doc.len() - 1]);
            }
        }
        assert forall|t: Seq<char>| doc.contains(t) <==> (d.contains(t) || t == x) by {
            if doc.contains(t) && t != x {
                let k = choose|k: int| 0 <= k < doc.len() && doc[k] == t;
                assert(d[k] == t);
            }
            if d.contains(t) {
                let k = choose|k: int| 0 <= k < d.len() && d[k] == t;
                assert(doc[k] == t);
            }
            if t == x {
                assert(doc[doc.len() - 1] == t);
            }
        }
        if q.contains(x) {
            assert(s =~= sd.insert(x));
        } else {
            assert(s =~= sd);
        }
    }
}

proof fn lemma_members_all(a: Seq<Seq<char>>, b: Seq<Seq<char>>)
    requires
        forall|i: int| 0 <= i < a.len() ==> b.contains(#[trigger] a[i]),
    ensures
        count_members(a, b) == a.len(),
    decreases a.len(),
{
    if a.len() > 0 {
        assert(b.contains(a[a.len() - 1]));
        lemma_members_all(a.drop_last(), b);
    }
}

proof fn lemma_members_none(a: Seq<Seq<char>>, b: Seq<Seq<char>>)
    requires
        forall|i: int| 0 <= i < a.len() ==> !b.contains(#[trigger] a[i]),
    ensures
        count_members(a, b) == 0,
    decreases a.len(),
{
    if a.len() > 0 {
        assert(!b.contains(a[a.len() - 1]));
        lemma_members_none(a.drop_last(), b);
    }
}

/// Agreement is judged on the smaller document: two documents (each
/// without repeated tokens) where every token of one occurs in the other
/// agree, in both orders, at any agreement threshold up to 1.0; two
/// non-empty documents sharing no token agree at no positive threshold;
/// an empty document agrees only at threshold 0.
pub proof fn lemma_agreement_by_containment(a: Seq<Seq<char>>, b: Seq<Seq<char>>, t: u32)
    requires
        a.no_duplicates(),
        b.no_duplicates(),
    ensures
        (a.len() > 0 && t <= 1000 && forall|i: int| 0 <= i < a.len() ==> b.contains(#[trigger] a[i]))
            ==> agrees(a, b, t) && agrees(b, a, t),
        (a.len() > 0 && b.len() > 0 && t > 0 && forall|i: int|
            0 <= i < a.len() ==> !b.contains(#[trigger] a[i])) ==> !agrees(a, b, t),
        a.len() == 0 ==> (agrees(a, b, t) <==> t == 0),
{
    broadcast use vstd::seq_lib::seq_to_set_is_finite;

    if a.len() > 0 && t <= 1000 && forall|i: int| 0 <= i < a.len() ==> b.contains(#[trigger] a[i]) {
        lemma_members_all(a, b);
        lemma_members_as_set(a, b);
        lemma_members_as_set(b, a);
        assert(a.to_set().subset_of(b.to_set())) by {
            assert forall|x: Seq<char>| a.to_set().contains(x) implies b.to_set().contains(x) by {
                let i = choose|i: int| 0 <= i < a.len() && a[i] == x;
                assert(b.contains(a[i]));
            }
        }
        assert(b.to_set().intersect(a.to_set()) =~= a.to_set());
        assert(a.to_set().intersect(b.to_set()) =~= a.to_set());
        vstd::set_lib::lemma_len_subset(a.to_set(), b.to_set());
        b.lemma_cardinality_of_set();
        let n = a.len();
        assert(n * 1000 >= t * n) by (nonlinear_arith)
            requires
                t <= 1000,
        ;
    }
    if a.len() > 0 && b.len() > 0 && t > 0 && forall|i: int|
        0 <= i < a.len() ==> !b.contains(#[trigger] a[i]) {
        lemma_members_none(a, b);
        let m: nat = if a.len() <= b.len() {
            a.len()
        } else {
            b.len()
        };
        assert(t * m > 0) by (nonlinear_arith)
            requires
                t > 0,
                m > 0,
        ;
    }
}

/// A document without repeated tokens matches at most every query term.
proof fn lemma_hits_bound(doc: Seq<Seq<char>>, q: Seq<Seq<char>>)
    requires
        doc.no_duplicates(),
    ensures
        count_members(doc, q) <= q.len(),
{
    broadcast use vstd::seq_lib::seq_to_set_is_finite;

    lemma_members_as_set(doc, q);
    vstd::set_lib::lemma_len_intersect(q.to_set(), doc.to_set());
    q.lemma_cardinality_of_set();
}

proof fn lemma_max_nat_bound(s: Seq<nat>, b: nat)
    requires
        forall|i: int| 0 <= i < s.len() ==> s[i] <= b,
    ensures
        max_nat(s) <= b,
    decreases s.len(),
{
    if s.len() > 0 {
        lemma_max_nat_bound(s.drop_last(), b);
    }
}

proof fn lemma_covered_bound(q: Seq<Seq<char>>, docs: Seq<Seq<Seq<char>>>)
    ensures
        count_covered(q, docs) <= q.len(),
    decreases q.len(),
{
    if q.len() > 0 {
        lemma_covered_bound(q.drop_last(), docs);
    }
}

/// The three sufficiency scores are ratios in `[0, 1]`: against indexed
/// evidence, no document matches more query terms than the query has, no more
/// query terms are covered than exist, and no more pairs agree than there are.
pub proof fn lemma_scores_are_ratios(
    query: Seq<char>,
    texts: Seq<Seq<char>>,
    config: GroundingConfig,
    score_ok: bool,
    a: Assessment,
)
    requires
        assess_spec(query, index_of(texts), config, score_ok, a),
    ensures
        a.scores.best_hits <= a.scores.query_terms,
        a.scores.covered <= a.scores.query_terms,
        a.scores.agreeing <= a.scores.pairs,
{
    let docs = index_of(texts);
    let q = dedup_spec(tokenize_spec(query));
    if docs.len() > 0 && q.len() > 0 {
        let hits = hits_of(docs, q);
        assert forall|i: int| 0 <= i < hits.len() implies hits[i] <= q.len() by {
            lemma_dedup(tokenize_spec(texts[i]));
            lemma_hits_bound(docs[i], q);
        }
        lemma_max_nat_bound(hits, q.len());
        lemma_covered_bound(q, docs);
        lemma_agreeing_bound(relevant_spec(docs, q), config.agreement_min);
    }
}

/// The verdict in terms of the three ratios (relevance `best_hits /
/// query_terms`, coverage `covered / query_terms`, consistency `agreeing /
/// pairs`), each in `[0, 1]`: no evidence exactly when relevance is 0;
/// supported exactly when relevance is positive, all three ratios reach
/// their thresholds and the retrieval-score check passed; conflicting
/// exactly when relevance is positive and consistency falls short; weak
/// otherwise.
pub proof fn lemma_verdict_by_ratios(
    query: Seq<char>,
    texts: Seq<Seq<char>>,
    config: GroundingConfig,
    score_ok: bool,
    a: Assessment,
)
    requires
        assess_spec(query, index_of(texts), config, score_ok, a),
    ensures
        a.scores.best_hits <= a.scores.query_terms,
        a.scores.covered <= a.scores.query_terms,
        a.scores.agreeing <= a.scores.pairs,
        (a.answerability == Answerability::NoEvidence) <==> a.scores.best_hits == 0,
        (a.answerability == Answerability::Supported) <==> (a.scores.best_hits > 0 && reaches(
            a.scores.best_hits as nat,
            a.scores.query_terms as nat,
            config.relevance_min,
        ) && reaches(a.scores.covered as nat, a.scores.query_terms as nat, config.coverage_min)
            && consistency_reaches(a.scores, config) && score_ok),
        (a.answerability == Answerability::ConflictingEvidence) <==> (a.scores.best_hits > 0
            && !consistency_reaches(a.scores, config)),
        (a.answerability == Answerability::WeakEvidence) <==> (a.scores.best_hits > 0
            && consistency_reaches(a.scores, config) && !(reaches(
            a.scores.best_hits as nat,
            a.scores.query_terms as nat,
            config.relevance_min,
        ) && reaches(a.scores.covered as nat, a.scores.query_terms as nat, config.coverage_min)
            && score_ok)),
{
    lemma_scores_are_ratios(query, texts, config, score_ok, a);
}

fn no_evidence() -> (a: Assessment)
    ensures
        a.answerability == Answerability::NoEvidence,
        a.scores == (SufficiencyScores {
            query_terms: 0,
            best_hits: 0,
            covered: 0,
            relevant_docs: 0,
            pairs: 0,
            agreeing: 0,
        }),
{
    Assessment {
        answerability: Answerability::NoEvidence,
        scores: SufficiencyScores {
            query_terms: 0,
            best_hits: 0,
            covered: 0,
            relevant_docs: 0,
            pairs: 0,
            agreeing: 0,
        },
    }
}

fn verdict(sc: &SufficiencyScores, config: &GroundingConfig, score_ok: bool) -> (a: Answerability)
    ensures
        a == verdict_spec(*sc, *config, score_ok),
{
    let q = sc.query_terms as u64;
    let consistency_ok = if sc.relevant_docs < 2 {
        1000 >= config.consistency_min
    } else {
        reaches_exec(sc.agreeing, sc.pairs, config.consistency_min)
    };
    if sc.best_hits == 0 {
        return Answerability::NoEvidence;
    }
    let relevance_ok = reaches_exec(sc.best_hits as u64, q, config.relevance_min);
    let coverage_ok = reaches_exec(sc.covered as u64, q, config.coverage_min);
    if relevance_ok && coverage_ok && score_ok && consistency_ok {
        Answerability::Supported
    } else if !consistency_ok {
        Answerability::ConflictingEvidence
    } else {
        Answerability::WeakEvidence
    }
}

/// Assesses sufficiency against a pre-built [`EvidenceIndex`].
///
/// `score_ok` is the retrieval-score check: whether the best retrieval score
/// is finite and reaches the configured minimum score.
pub fn assess_indexed(
    query_text: &str,
    index: &EvidenceIndex,
    config: &GroundingConfig,
    score_ok: bool,
) -> (a: Assessment)
    requires
        index.docs_view().len() <= u32::MAX,
    ensures
        assess_spec(query_text@, index.docs_view(), *config, score_ok, a),
{
    let query_tokens = tokenize(query_text);
    let q = dedup_strings(&query_tokens);
    let ghost qv = views(q@);
    let ghost docs = index.docs_view();
    let n = index.docs.len();
    if n == 0 || q.len() == 0 {
        return no_evidence();
    }
    // Hits per document, best hits, and the relevant documents.
    let mut best: usize = 0;
    let mut relevant: Vec<usize> = Vec::new();
    let mut i: usize = 0;
    while i < n
        invariant
            n == docs.len(),
            n == index.docs@.len(),
            docs == index.docs_view(),
            qv == views(q@),
            i <= n,
            best == max_nat(hits_of(docs.take(i as int), qv)),
            relevant@.len() <= i,
            forall|k: int| 0 <= k < relevant@.len() ==> relevant@[k] < i,
            relevant@.map_values(|k: usize| docs[k as int]) == relevant_spec(
                docs.take(i as int),
                qv,
            ),
        decreases n - i,
    {
        proof {
            assert(docs.take(i + 1).drop_last() =~= docs.take(i as int));
            assert(docs.take(i + 1).last() == docs[i as int]);
            assert(hits_of(docs.take(i + 1), qv).drop_last() =~= hits_of(docs.take(i as int), qv));
            assert(docs[i as int] == views(index.docs@[i as int]@));
        }
        let hits = count_in(&index.docs[i], &q);
        if hits > best {
            best = hits;
        }
        if reaches_exec(hits as u64, q.len() as u64, RELEVANT_FLOOR) {
            let ghost before = relevant@;
            relevant.push(i);
            assert(relevant@.map_values(|k: usize| docs[k as int]) =~= before.map_values(
                |k: usize| docs[k as int],
            ).push(docs[i as int]));
        }
        i += 1;
    }
    proof {
        assert(docs.take(n as int) =~= docs);
    }
    let ghost rel = relevant_spec(docs, qv);
    // Coverage.
    let m = q.len();
    let mut covered: usize = 0;
    let mut j: usize = 0;
    while j < m
        invariant
            m == qv.len(),
            qv == views(q@),
            docs == index.docs_view(),
            j <= m,
            covered <= j,
            covered == count_covered(qv.take(j as int), docs),
        decreases m - j,
    {
        proof {
            assert(qv.take(j + 1).drop_last() =~= qv.take(j as int));
            assert(qv.take(j + 1).last() == q@[j as int]@);
        }
        if index.contains(&q[j]) {
            covered += 1;
        }
        j += 1;
    }
    proof {
        assert(qv.take(m as int) =~= qv);
    }
    // Pairwise agreement among relevant documents.
    let r = relevant.len();
    let ghost rv = relevant@.map_values(|k: usize| docs[k as int]);
    let mut pairs: u64 = 0;
    let mut agreeing: u64 = 0;
    let mut b: usize = 0;
    proof {
        lemma_pair_count_bound(r as nat);
    }
    while b < r
        invariant
            r == relevant@.len(),
            r <= n,
            n <= u32::MAX,
            rv == relevant@.map_values(|k: usize| docs[k as int]),
            rv == rel,
            docs == index.docs_view(),
            n == index.docs@.len(),
            forall|k: int| 0 <= k < relevant@.len() ==> relevant@[k] < n,
            b <= r,
            pairs == pair_count(b as nat),
            agreeing == agreeing_pairs(rv.take(b as int), config.agreement_min),
        decreases r - b,
    {
        proof {
            assert(rv.take(b + 1).drop_last() =~= rv.take(b as int));
            assert(rv.take(b + 1).last() == rv[b as int]);
            lemma_pair_count_bound(b as nat);
            lemma_pair_count_bound((b + 1) as nat);
            assert((b + 1) * (b + 1) <= (r as nat) * (r as nat)) by (nonlinear_arith)
                requires
                    b + 1 <= r,
            ;
            assert((r as nat) * (r as nat) <= (u32::MAX as nat) * (u32::MAX as nat))
                by (nonlinear_arith)
                requires
                    r <= u32::MAX,
            ;
            lemma_agreeing_bound(rv.take(b + 1), config.agreement_min);
        }
        let later = &index.docs[relevant[b]];
        proof {
            assert(views(later@) == docs[relevant@[b as int] as int]);
            assert(views(later@) == rv[b as int]);
        }
        let mut with: u64 = 0;
        let mut a: usize = 0;
        while a < b
            invariant
                b < r,
                r == relevant@.len(),
                rv == relevant@.map_values(|k: usize| docs[k as int]),
                docs == index.docs_view(),
                forall|k: int| 0 <= k < relevant@.len() ==> relevant@[k] < n,
                n == index.docs@.len(),
                views(later@) == rv[b as int],
                a <= b,
                with <= a,
                with == agree_with(rv.take(a as int), rv[b as int], config.agreement_min),
            decreases b - a,
        {
            proof {
                assert(rv.take(a + 1).drop_last() =~= rv.take(a as int));
                assert(rv.take(a + 1).last() == rv[a as int]);
                assert(views(index.docs@[relevant@[a as int] as int]@) == rv[a as int]);
            }
            if agrees_exec(&index.docs[relevant[a]], later, config.agreement_min) {
                with += 1;
            }
            a += 1;
        }
        proof {
            assert(rv.take(b as int).take(b as int) =~= rv.take(b as int));
            assert(rv.take(b + 1).drop_last() =~= rv.take(b as int));
        }
        pairs += b as u64;
        agreeing += with;
        b += 1;
    }
    proof {
        assert(rv.take(r as int) =~= rv);
    }
    let scores = SufficiencyScores {
        query_terms: q.len(),
        best_hits: best,
        covered,
        relevant_docs: r,
        pairs,
        agreeing,
    };
    let answerability = verdict(&scores, config, score_ok);
    Assessment { answerability, scores }
}

/// Assesses whether the evidence texts suffice to ground an answer.
///
/// Deterministic: identical inputs produce identical verdicts.
pub fn assess(
    query_text: &str,
    evidence: &Vec<String>,
    config: &GroundingConfig,
    score_ok: bool,
) -> (a: Assessment)
    requires
        evidence@.len() <= u32::MAX,
    ensures
        assess_spec(query_text@, index_of(views(evidence@)), *config, score_ok, a),
{
    let index = EvidenceIndex::new(evidence);
    assess_indexed(query_text, &index, config, score_ok)
}


/// Some char of `t` is an ASCII digit.
pub open spec fn has_digit(t: Seq<char>) -> bool {
    exists|i: int| 0 <= i < t.len() && crate::text::is_ascii_digit_char(#[trigger] t[i])
}

/// Members of `tokens` held by some document.
pub open spec fn count_found(tokens: Seq<Seq<char>>, docs: Seq<Seq<Seq<char>>>) -> nat
    decreases tokens.len(),
{
    count_covered(tokens, docs)
}

/// Digit-bearing members of `tokens` that no document holds, in order.
pub open spec fn unsupported_numbers_spec(
    tokens: Seq<Seq<char>>,
    docs: Seq<Seq<Seq<char>>>,
) -> Seq<Seq<char>>
    decreases tokens.len(),
{
    if tokens.len() == 0 {
        tokens
    } else {
        let r = unsupported_numbers_spec(tokens.drop_last(), docs);
        let t = tokens.last();
        if !any_doc_contains(docs, t) && has_digit(t) {
            r.push(t)
        } else {
            r
        }
    }
}

/// Outcome of grounding verification for one generated answer.
#[derive(Debug, Clone, PartialEq, Eq)]
pub struct AnswerVerification {
    /// Whether the answer may be served as grounded.
    pub supported: bool,
    /// Answer content tokens found in the evidence.
    pub found: usize,
    /// Answer content tokens checked.
    pub checked: usize,
    /// Digit-bearing answer tokens that appear nowhere in the evidence.
    pub unsupported_numbers: Vec<String>,
}

fn has_ascii_digit(t: &String) -> (r: bool)
    ensures
        r == has_digit(t@),
{
    let chars = chars_of(t.as_str());
    let n = chars.len();
    let mut i: usize = 0;
    while i < n
        invariant
            n == chars@.len(),
            chars@ == t@,
            i <= n,
            forall|k: int| 0 <= k < i ==> !crate::text::is_ascii_digit_char(#[trigger] t@[k]),
        decreases n - i,
    {
        if '0' <= chars[i] && chars[i] <= '9' {
            return true;
        }
        i += 1;
    }
    false
}

/// Verifies a generated answer against a pre-built [`EvidenceIndex`].
///
/// An answer counts as supported when enough of its content tokens appear
/// in the evidence (`answer_support_min`) and none of its digit-bearing
/// tokens are absent from the evidence; invented figures are the clearest
/// unsupported-claim signal.
pub fn verify_answer_indexed(
    answer: &str,
    index: &EvidenceIndex,
    config: &GroundingConfig,
) -> (v: AnswerVerification)
    ensures
        ({
            let tokens = tokenize_spec(answer@);
            let docs = index.docs_view();
            &&& v.checked == tokens.len()
            &&& v.found == count_found(tokens, docs)
            &&& views(v.unsupported_numbers@) == unsupported_numbers_spec(tokens, docs)
            &&& v.supported == (v.checked > 0 && reaches(
                v.found as nat,
                v.checked as nat,
                config.answer_support_min,
            ) && v.unsupported_numbers@.len() == 0)
        }),
{
    let tokens = tokenize(answer);
    let ghost tv = views(tokens@);
    let ghost docs = index.docs_view();
    let n = tokens.len();
    let mut found: usize = 0;
    let mut unsupported: Vec<String> = Vec::new();
    let mut i: usize = 0;
    while i < n
        invariant
            n == tv.len(),
            tv == views(tokens@),
            docs == index.docs_view(),
            i <= n,
            found <= i,
            found == count_found(tv.take(i as int), docs),
            views(unsupported@) == unsupported_numbers_spec(tv.take(i as int), docs),
        decreases n - i,
    {
        proof {
            assert(tv.take(i + 1).drop_last() =~= tv.take(i as int));
            assert(tv.take(i + 1).last() == tokens@[i as int]@);
        }
        if index.contains(&tokens[i]) {
            found += 1;
        } else if has_ascii_digit(&tokens[i]) {
            let ghost before = unsupported@;
            unsupported.push(tokens[i].clone());
            assert(views(unsupported@) =~= views(before).push(tokens@[i as int]@));
        }
        i += 1;
    }
    proof {
        assert(tv.take(n as int) =~= tv);
    }
    let supported = n > 0 && reaches_exec(found as u64, n as u64, config.answer_support_min)
        && unsupported.len() == 0;
    AnswerVerification { supported, found, checked: n, unsupported_numbers: unsupported }
}

/// Verifies that a generated answer is grounded in the evidence texts.
pub fn verify_answer(
    answer: &str,
    evidence: &Vec<String>,
    config: &GroundingConfig,
) -> (v: AnswerVerification)
    ensures
        ({
            let tokens = tokenize_spec(answer@);
            let docs = index_of(views(evidence@));
            &&& v.checked == tokens.len()
            &&& v.found == count_found(tokens, docs)
            &&& views(v.unsupported_numbers@) == unsupported_numbers_spec(tokens, docs)
            &&& v.supported == (v.checked > 0 && reaches(
                v.found as nat,
                v.checked as nat,
                config.answer_support_min,
            ) && v.unsupported_numbers@.len() == 0)
        }),
{
    let index = EvidenceIndex::new(evidence);
    verify_answer_indexed(answer, &index, config)
}

} // verus!
