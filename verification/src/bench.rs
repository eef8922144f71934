//! Benchmark bookkeeping: per-stage failure counts, retrieval ablation
//! modes, dataset and engine summaries, the untested-language list, the
//! integer cores of the quality metrics, and UTC date rendering.

use vstd::prelude::*;

use crate::chunk::{strategy_name, ChunkingStrategy};
use crate::language::{all_languages, code_of, display_name_of, Language};
use crate::numfmt::{padded, push_padded};
use crate::oreo_config::{OreoConfig, VectorStoreKind};
use crate::rerank::reranker_name;
use crate::text::{chars_eq, chars_of, push_char, push_str, string_from, views};

verus! {

/// Failure counts recorded across the five pipeline stages.
#[derive(Debug, Clone, Copy, PartialEq, Eq, Structural)]
pub struct StageFailures {
    /// Total queries evaluated for this group/language.
    pub total_queries: usize,
    /// STT stage transcription/audio parsing failures.
    pub stt: usize,
    /// Language identification / script fallback mismatch failures.
    pub lid: usize,
    /// Retrieval failures (zero relevant documents found in top-5).
    pub retrieval: usize,
    /// Grounding failures (evidence judged insufficient on valid in-domain queries).
    pub grounding: usize,
    /// Answer generation failures (empty, ungrounded, or output guard refusals).
    pub generation: usize,
    /// Total failures across all stages.
    pub total_failures: usize,
}

/// `total_failures` is the sum of the per-stage counts.
pub open spec fn failures_consistent(f: StageFailures) -> bool {
    f.total_failures == f.stt + f.lid + f.retrieval + f.grounding + f.generation
}

/// The field-wise sum of `a` and `b`.
pub open spec fn merged(a: StageFailures, b: StageFailures) -> (StageFailures, bool) {
    let s = StageFailures {
        total_queries: (a.total_queries + b.total_queries) as usize,
        stt: (a.stt + b.stt) as usize,
        lid: (a.lid + b.lid) as usize,
        retrieval: (a.retrieval + b.retrieval) as usize,
        grounding: (a.grounding + b.grounding) as usize,
        generation: (a.generation + b.generation) as usize,
        total_failures: (a.total_failures + b.total_failures) as usize,
    };
    (s, true)
}

/// Every field-wise sum of `a` and `b` fits a `usize`.
pub open spec fn merge_fits(a: StageFailures, b: StageFailures) -> bool {
    &&& a.total_queries + b.total_queries <= usize::MAX
    &&& a.stt + b.stt <= usize::MAX
    &&& a.lid + b.lid <= usize::MAX
    &&& a.retrieval + b.retrieval <= usize::MAX
    &&& a.grounding + b.grounding <= usize::MAX
    &&& a.generation + b.generation <= usize::MAX
    &&& a.total_failures + b.total_failures <= usize::MAX
}

impl StageFailures {
    /// All counts zero.
    pub fn zero() -> (f: StageFailures)
        ensures
            f == (StageFailures {
                total_queries: 0,
                stt: 0,
                lid: 0,
                retrieval: 0,
                grounding: 0,
                generation: 0,
                total_failures: 0,
            }),
    {
        StageFailures {
            total_queries: 0,
            stt: 0,
            lid: 0,
            retrieval: 0,
            grounding: 0,
            generation: 0,
            total_failures: 0,
        }
    }

    /// Aggregates two failure records.
    pub fn merge(self, other: Self) -> (m: Self)
        requires
            merge_fits(self, other),
        ensures
            m == merged(self, other).0,
    {
        StageFailures {
            total_queries: self.total_queries + other.total_queries,
            stt: self.stt + other.stt,
            lid: self.lid + other.lid,
            retrieval: self.retrieval + other.retrieval,
            grounding: self.grounding + other.grounding,
            generation: self.generation + other.generation,
            total_failures: self.total_failures + other.total_failures,
        }
    }
}

/// Merging keeps the total equal to the sum of the stage counts, does not
/// depend on the order of its arguments, and the zero record changes
/// nothing.
pub proof fn lemma_merge_laws(a: StageFailures, b: StageFailures, c: StageFailures)
    requires
        merge_fits(a, b),
    ensures
        failures_consistent(a) && failures_consistent(b) ==> failures_consistent(merged(a, b).0),
        merged(a, b).0 == merged(b, a).0,
        merge_fits(merged(a, b).0, c) && merge_fits(b, c) && merge_fits(a, merged(b, c).0)
            ==> merged(merged(a, b).0, c).0 == merged(a, merged(b, c).0).0,
        merged(
            a,
            StageFailures {
                total_queries: 0,
                stt: 0,
                lid: 0,
                retrieval: 0,
                grounding: 0,
                generation: 0,
                total_failures: 0,
            },
        ).0 == a,
{
}

/// What one evaluated query went through, stage by stage.
#[derive(Debug, Clone, Copy, PartialEq, Eq, Structural)]
pub struct QueryOutcome {
    /// The recognizer returned the expected transcript.
    pub stt_ok: bool,
    /// Script detection and language resolution both found the query's
    /// language.
    pub lid_ok: bool,
    /// The retrieval call failed outright.
    pub retrieval_failed: bool,
    /// No relevant document was among the top results.
    pub recall_is_zero: bool,
    /// The evidence was judged sufficient.
    pub grounded: bool,
    /// Generation produced a served, non-refused answer.
    pub generation_ok: bool,
}

/// The counts after recording `o` onto `f`. A query whose transcription
/// failed is not tested further; a query counts once as a retrieval
/// failure when the call failed or no relevant document came back.
pub open spec fn recorded(f: StageFailures, o: QueryOutcome) -> StageFailures {
    if !o.stt_ok {
        StageFailures { stt: (f.stt + 1) as usize, total_failures: (f.total_failures + 1) as usize, ..f }
    } else {
        let lid = if o.lid_ok { 0nat } else { 1nat };
        let retrieval = if o.retrieval_failed || o.recall_is_zero {
            1nat
        } else {
            0nat
        };
        let grounding = if o.grounded { 0nat } else { 1nat };
        let generation = if o.generation_ok { 0nat } else { 1nat };
        StageFailures {
            lid: (f.lid + lid) as usize,
            retrieval: (f.retrieval + retrieval) as usize,
            grounding: (f.grounding + grounding) as usize,
            generation: (f.generation + generation) as usize,
            total_failures: (f.total_failures + lid + retrieval + grounding + generation) as usize,
            ..f
        }
    }
}

/// The failures that recording `o` adds to the total.
pub open spec fn added_failures(o: QueryOutcome) -> nat {
    if !o.stt_ok {
        1
    } else {
        (if o.lid_ok { 0nat } else { 1nat }) + (if o.retrieval_failed || o.recall_is_zero {
            1nat
        } else {
            0nat
        }) + (if o.grounded { 0nat } else { 1nat }) + (if o.generation_ok { 0nat } else { 1nat })
    }
}

/// Every count that recording `o` raises stays within `usize`.
pub open spec fn record_fits(f: StageFailures, o: QueryOutcome) -> bool {
    &&& !o.stt_ok ==> f.stt < usize::MAX
    &&& o.stt_ok && !o.lid_ok ==> f.lid < usize::MAX
    &&& o.stt_ok && (o.retrieval_failed || o.recall_is_zero) ==> f.retrieval < usize::MAX
    &&& o.stt_ok && !o.grounded ==> f.grounding < usize::MAX
    &&& o.stt_ok && !o.generation_ok ==> f.generation < usize::MAX
    &&& f.total_failures + added_failures(o) <= usize::MAX
}

/// Records one query's stage outcomes.
pub fn record_query(f: StageFailures, o: QueryOutcome) -> (r: StageFailures)
    requires
        record_fits(f, o),
    ensures
        r == recorded(f, o),
{
    let mut r = f;
    if !o.stt_ok {
        r.stt = r.stt + 1;
        r.total_failures = r.total_failures + 1;
        return r;
    }
    if !o.lid_ok {
        r.lid = r.lid + 1;
        r.total_failures = r.total_failures + 1;
    }
    if o.retrieval_failed || o.recall_is_zero {
        r.retrieval = r.retrieval + 1;
        r.total_failures = r.total_failures + 1;
    }
    if !o.grounded {
        r.grounding = r.grounding + 1;
        r.total_failures = r.total_failures + 1;
    }
    if !o.generation_ok {
        r.generation = r.generation + 1;
        r.total_failures = r.total_failures + 1;
    }
    r
}

/// Recording a query keeps the total equal to the sum of the stage counts,
/// never changes the number of queries, and adds at most one failure per
/// stage.
pub proof fn lemma_record_keeps_totals(f: StageFailures, o: QueryOutcome)
    requires
        failures_consistent(f),
        record_fits(f, o),
    ensures
        failures_consistent(recorded(f, o)),
        recorded(f, o).total_queries == f.total_queries,
        recorded(f, o).stt <= f.stt + 1,
        recorded(f, o).lid <= f.lid + 1,
        recorded(f, o).retrieval <= f.retrieval + 1,
        recorded(f, o).grounding <= f.grounding + 1,
        recorded(f, o).generation <= f.generation + 1,
{
}

/// The integer part of one language's evaluation: its code, how many
/// queries it has, how many latency samples were taken, and its failures.
#[derive(Debug, Clone, Copy, PartialEq, Eq, Structural)]
pub struct LanguageTally {
    /// The evaluated language.
    pub language: Language,
    /// Distinct evaluation queries in this language.
    pub queries_count: usize,
    /// End-to-end latency samples collected.
    pub latency_samples: usize,
    /// Stage failure counts.
    pub failures: StageFailures,
}

/// The integer part of a language group's summary.
#[derive(Debug, Clone)]
pub struct GroupTally {
    /// Codes of the languages in the group, in evaluation order.
    pub languages: Vec<String>,
    /// Total evaluated queries.
    pub queries_count: usize,
    /// Total end-to-end latency samples.
    pub latency_samples: usize,
    /// Combined stage failures.
    pub failures: StageFailures,
}

/// The failures of `evals` merged in order, starting from zero.
pub open spec fn merged_failures(evals: Seq<LanguageTally>) -> StageFailures
    decreases evals.len(),
{
    if evals.len() == 0 {
        StageFailures {
            total_queries: 0,
            stt: 0,
            lid: 0,
            retrieval: 0,
            grounding: 0,
            generation: 0,
            total_failures: 0,
        }
    } else {
        merged(merged_failures(evals.drop_last()), evals.last().failures).0
    }
}

/// The sum of the query counts of `evals`.
pub open spec fn total_queries_of(evals: Seq<LanguageTally>) -> nat
    decreases evals.len(),
{
    if evals.len() == 0 {
        0
    } else {
        total_queries_of(evals.drop_last()) + evals.last().queries_count as nat
    }
}

/// The sum of the latency sample counts of `evals`.
pub open spec fn total_samples_of(evals: Seq<LanguageTally>) -> nat
    decreases evals.len(),
{
    if evals.len() == 0 {
        0
    } else {
        total_samples_of(evals.drop_last()) + evals.last().latency_samples as nat
    }
}

/// Every running sum over `evals` fits a `usize`.
pub open spec fn tallies_fit(evals: Seq<LanguageTally>) -> bool
    decreases evals.len(),
{
    if evals.len() == 0 {
        true
    } else {
        &&& tallies_fit(evals.drop_last())
        &&& merge_fits(merged_failures(evals.drop_last()), evals.last().failures)
        &&& total_queries_of(evals) <= usize::MAX
        &&& total_samples_of(evals) <= usize::MAX
    }
}

/// Aggregates the integer parts of per-language evaluations into a group
/// summary: the language codes in order, the summed query and sample
/// counts, and the merged failures.
pub fn aggregate_tallies(evals: &[LanguageTally]) -> (g: GroupTally)
    requires
        tallies_fit(evals@),
    ensures
        views(g.languages@) == codes_of(evals@.map_values(|e: LanguageTally| e.language)),
        g.queries_count == total_queries_of(evals@),
        g.latency_samples == total_samples_of(evals@),
        g.failures == merged_failures(evals@),
{
    let n = evals.len();
    let mut languages: Vec<String> = Vec::new();
    let mut queries: usize = 0;
    let mut samples: usize = 0;
    let mut failures = StageFailures::zero();
    let mut i: usize = 0;
    while i < n
        invariant
            n == evals@.len(),
            i <= n,
            tallies_fit(evals@),
            views(languages@) == codes_of(
                evals@.take(i as int).map_values(|e: LanguageTally| e.language),
            ),
            queries == total_queries_of(evals@.take(i as int)),
            samples == total_samples_of(evals@.take(i as int)),
            failures == merged_failures(evals@.take(i as int)),
        decreases n - i,
    {
        let e = evals[i];
        let ghost prefix = evals@.take(i + 1);
        assert(prefix.drop_last() =~= evals@.take(i as int));
        assert(prefix.last() == e);
        proof {
            lemma_tallies_fit_prefix(evals@, i + 1);
        }
        let ghost before = views(languages@);
        languages.push(e.language.to_string());
        assert(views(languages@) =~= before.push(code_of(e.language)));
        assert(prefix.map_values(|t: LanguageTally| t.language) =~= evals@.take(
            i as int,
        ).map_values(|t: LanguageTally| t.language).push(e.language));
        assert(codes_of(prefix.map_values(|t: LanguageTally| t.language)) =~= codes_of(
            evals@.take(i as int).map_values(|t: LanguageTally| t.language),
        ).push(code_of(e.language)));
        queries = queries + e.queries_count;
        samples = samples + e.latency_samples;
        failures = failures.merge(e.failures);
        i += 1;
    }
    assert(evals@.take(n as int) =~= evals@);
    GroupTally { languages, queries_count: queries, latency_samples: samples, failures }
}

/// A group's combined failures keep the total equal to the sum of the
/// stage counts when each language's do.
pub proof fn lemma_group_failures_consistent(evals: Seq<LanguageTally>)
    requires
        tallies_fit(evals),
        forall|i: int| 0 <= i < evals.len() ==> failures_consistent(#[trigger] evals[i].failures),
    ensures
        failures_consistent(merged_failures(evals)),
    decreases evals.len(),
{
    if evals.len() > 0 {
        let p = evals.drop_last();
        assert forall|i: int| 0 <= i < p.len() implies failures_consistent(#[trigger] p[i].failures) by {
            assert(p[i] == evals[i]);
        }
        lemma_group_failures_consistent(p);
        assert(failures_consistent(evals[evals.len() - 1].failures));
    }
}

proof fn lemma_tallies_fit_prefix(evals: Seq<LanguageTally>, k: int)
    requires
        tallies_fit(evals),
        0 <= k <= evals.len(),
    ensures
        tallies_fit(evals.take(k)),
    decreases evals.len() - k,
{
    if k < evals.len() {
        lemma_tallies_fit_prefix(evals.drop_last(), k);
        assert(evals.drop_last().take(k) =~= evals.take(k));
    } else {
        assert(evals.take(k) =~= evals);
    }
}

/// Which retrieval configuration an ablation run describes.
#[derive(Debug, Clone, Copy, PartialEq, Eq, Structural)]
pub enum RetrievalMode {
    /// Dense leg only (embed + vector search).
    DenseOnly,
    /// BM25 leg only.
    Bm25Only,
    /// Dense + BM25 fused by normalized score summation (no RRF).
    ScoreSum,
    /// Dense + BM25 fused with Reciprocal Rank Fusion.
    Rrf,
    /// The full production path: RRF fusion + lexical-overlap reranking.
    RrfRerank,
}

/// The stable name of mode `m`.
pub open spec fn mode_name(m: RetrievalMode) -> Seq<char> {
    match m {
        RetrievalMode::DenseOnly => "dense_only"@,
        RetrievalMode::Bm25Only => "bm25_only"@,
        RetrievalMode::ScoreSum => "dense+bm25_score_sum"@,
        RetrievalMode::Rrf => "dense+bm25_rrf"@,
        RetrievalMode::RrfRerank => "dense+bm25_rrf+rerank"@,
    }
}

impl RetrievalMode {
    /// Stable machine-readable name used in JSON and Markdown output.
    pub fn name(self) -> (s: &'static str)
        ensures
            s@ == mode_name(self),
    {
        match self {
            RetrievalMode::DenseOnly => "dense_only",
            RetrievalMode::Bm25Only => "bm25_only",
            RetrievalMode::ScoreSum => "dense+bm25_score_sum",
            RetrievalMode::Rrf => "dense+bm25_rrf",
            RetrievalMode::RrfRerank => "dense+bm25_rrf+rerank",
        }
    }

    /// All ablation modes in evaluation order.
    pub fn all() -> (modes: [RetrievalMode; 5])
        ensures
            modes@ == seq![
                RetrievalMode::DenseOnly,
                RetrievalMode::Bm25Only,
                RetrievalMode::ScoreSum,
                RetrievalMode::Rrf,
                RetrievalMode::RrfRerank,
            ],
    {
        let modes = [
            RetrievalMode::DenseOnly,
            RetrievalMode::Bm25Only,
            RetrievalMode::ScoreSum,
            RetrievalMode::Rrf,
            RetrievalMode::RrfRerank,
        ];
        assert(modes@ =~= seq![
            RetrievalMode::DenseOnly,
            RetrievalMode::Bm25Only,
            RetrievalMode::ScoreSum,
            RetrievalMode::Rrf,
            RetrievalMode::RrfRerank,
        ]);
        modes
    }
}

/// The default engine configuration over the full-text index directory
/// `tantivy_dir`, chunking with `chunking`.
pub fn bench_config(tantivy_dir: String, chunking: ChunkingStrategy) -> (c: OreoConfig)
    ensures
        c.tantivy_dir@ == tantivy_dir@,
        c.chunking == chunking,
        c.languages@ == crate::oreo_config::default_languages(),
        c.embedding_dim == 256,
        c.vector_store == VectorStoreKind::Memory,
        c.qdrant_url@ == "http://localhost:6333"@,
        c.qdrant_timeout_ms == 500,
        c.qdrant_collection@ == "vox-chunks"@,
        c.candidate_top == 20,
        c.final_top == 5,
        c.rrf_k == 60,
        c.reranker == crate::rerank::RerankerKind::LexicalOverlap,
{
    let mut c = OreoConfig::default();
    c.tantivy_dir = tantivy_dir;
    c.chunking = chunking;
    c
}

/// The part of `s` before its first `#` (all of `s` when it has none).
pub open spec fn before_hash(s: Seq<char>) -> Seq<char>
    decreases s.len(),
{
    if s.len() == 0 {
        s
    } else if s[0] == '#' {
        seq![]
    } else {
        seq![s[0]] + before_hash(s.drop_first())
    }
}

/// The document a chunk identifier names: the text before the first `#`.
pub fn document_id_of(chunk_id: &str) -> (id: String)
    ensures
        id@ == before_hash(chunk_id@),
{
    let chars = chars_of(chunk_id);
    let n = chars.len();
    let mut head: Vec<char> = Vec::new();
    let mut end: usize = 0;
    while end < n && chars[end] != '#'
        invariant
            n == chars@.len(),
            chars@ == chunk_id@,
            end <= n,
            head@ == chars@.take(end as int),
            forall|k: int| 0 <= k < end ==> chars@[k] != '#',
        decreases n - end,
    {
        head.push(chars[end]);
        end += 1;
        assert(head@ =~= chars@.take(end as int));
    }
    proof {
        lemma_before_hash(chunk_id@, end as int);
    }
    string_from(head.as_slice())
}

/// Reading the document back out of a chunk identifier gives the document
/// it was made for, whenever the document's identifier has no `#`.
pub proof fn lemma_document_id_round_trip(id: Seq<char>, index: nat)
    requires
        !id.contains('#'),
    ensures
        before_hash(crate::chunk::chunk_id_spec(id, index)) == id,
{
    let s = crate::chunk::chunk_id_spec(id, index);
    assert forall|k: int| 0 <= k < id.len() implies s[k] != '#' by {
        assert(s[k] == id[k]);
        if id[k] == '#' {
            assert(id.contains('#'));
        }
    }
    assert(s[id.len() as int] == '#');
    lemma_before_hash(s, id.len() as int);
    assert(s.take(id.len() as int) =~= id);
}

proof fn lemma_before_hash(s: Seq<char>, end: int)
    requires
        0 <= end <= s.len(),
        forall|k: int| 0 <= k < end ==> s[k] != '#',
        end == s.len() || s[end] == '#',
    ensures
        before_hash(s) == s.take(end),
    decreases s.len(),
{
    if s.len() > 0 && s[0] != '#' {
        let t = s.drop_first();
        assert forall|k: int| 0 <= k < end - 1 implies t[k] != '#' by {
            assert(t[k] == s[k + 1]);
        }
        if end < s.len() {
            assert(t[end - 1] == s[end]);
        }
        lemma_before_hash(t, end - 1);
        assert(seq![s[0]] + t.take(end - 1) =~= s.take(end));
    } else if s.len() > 0 {
        assert(end == 0);
        assert(s.take(0) =~= seq![]);
    } else {
        assert(s.take(end) =~= s);
    }
}

/// Corpus/dataset facts recorded alongside every result file.
#[derive(Debug, Clone)]
pub struct DatasetInfo {
    /// Raw documents in the corpus.
    pub corpus_documents: usize,
    /// Chunks produced by the active chunking strategy.
    pub chunks_indexed: usize,
    /// Judged queries in the evaluation set.
    pub queries: usize,
    /// Query/corpus languages covered.
    pub languages: Vec<String>,
    /// How relevance judgments were produced.
    pub judgment_method: String,
}

/// The engine settings a benchmark run exercised, echoed into the outputs.
#[derive(Debug, Clone)]
pub struct EngineConfigSummary {
    /// Chunking strategy name.
    pub chunking: String,
    /// Embedding dimensionality.
    pub embedding_dim: usize,
    /// Dense store backend (`memory` or `qdrant`).
    pub vector_store: String,
    /// Fused candidate pool size before reranking.
    pub candidate_top: usize,
    /// Final results returned after reranking.
    pub final_top: usize,
    /// Reciprocal Rank Fusion constant.
    pub rrf_k: usize,
    /// Reranker backend name.
    pub reranker: String,
    /// Languages kept by preprocessing.
    pub languages: Vec<String>,
}

/// The name of a vector store kind.
pub open spec fn store_name(k: VectorStoreKind) -> Seq<char> {
    match k {
        VectorStoreKind::Memory => "memory"@,
        VectorStoreKind::Qdrant => "qdrant"@,
    }
}

/// The codes of `langs`, in order.
pub open spec fn codes_of(langs: Seq<Language>) -> Seq<Seq<char>> {
    langs.map_values(|l: Language| code_of(l))
}

fn language_codes(langs: &Vec<Language>) -> (out: Vec<String>)
    ensures
        views(out@) == codes_of(langs@),
{
    let n = langs.len();
    let mut out: Vec<String> = Vec::new();
    let mut i: usize = 0;
    while i < n
        invariant
            n == langs@.len(),
            i <= n,
            views(out@) == codes_of(langs@.take(i as int)),
        decreases n - i,
    {
        let ghost before = views(out@);
        out.push(langs[i].to_string());
        assert(views(out@) =~= before.push(code_of(langs@[i as int])));
        assert(codes_of(langs@.take(i + 1)) =~= codes_of(langs@.take(i as int)).push(
            code_of(langs@[i as int]),
        ));
        i += 1;
    }
    assert(langs@.take(n as int) =~= langs@);
    out
}

impl EngineConfigSummary {
    /// Summarizes `config` for reporting.
    pub fn of(config: &OreoConfig) -> (s: EngineConfigSummary)
        ensures
            s.chunking@ == strategy_name(config.chunking),
            s.embedding_dim == config.embedding_dim,
            s.vector_store@ == store_name(config.vector_store),
            s.candidate_top == config.candidate_top,
            s.final_top == config.final_top,
            s.rrf_k == config.rrf_k,
            s.reranker@ == reranker_name(config.reranker),
            views(s.languages@) == codes_of(config.languages@),
    {
        let store = match config.vector_store {
            VectorStoreKind::Memory => "memory".to_owned(),
            VectorStoreKind::Qdrant => "qdrant".to_owned(),
        };
        EngineConfigSummary {
            chunking: config.chunking.name().to_owned(),
            embedding_dim: config.embedding_dim,
            vector_store: store,
            candidate_top: config.candidate_top,
            final_top: config.final_top,
            rrf_k: config.rrf_k,
            reranker: config.reranker.name().to_owned(),
            languages: language_codes(&config.languages),
        }
    }
}

/// Untested language metadata.
#[derive(Debug, Clone)]
pub struct UntestedLanguage {
    /// Language ISO code.
    pub code: &'static str,
    /// Human-readable language name.
    pub name: &'static str,
    /// Tested flag (always `false`).
    pub tested: bool,
    /// Support claim status.
    pub status: &'static str,
}

/// The status recorded for a language that was not evaluated.
pub open spec fn untested_status() -> Seq<char> {
    "UNTESTED \u{2014} NO MULTILINGUAL CLAIM"@
}

/// The accepted languages outside `tested`, in code order.
pub open spec fn untested_of(all: Seq<Language>, tested: Seq<Language>) -> Seq<Language>
    decreases all.len(),
{
    if all.len() == 0 {
        seq![]
    } else {
        let prev = untested_of(all.drop_last(), tested);
        if tested.contains(all.last()) {
            prev
        } else {
            prev.push(all.last())
        }
    }
}

fn contains_language(list: &[Language], l: Language) -> (r: bool)
    ensures
        r == list@.contains(l),
{
    let n = list.len();
    let mut i: usize = 0;
    while i < n
        invariant
            n == list@.len(),
            i <= n,
            forall|k: int| 0 <= k < i ==> list@[k] != l,
        decreases n - i,
    {
        if list[i] == l {
            assert(list@[i as int] == l);
            return true;
        }
        i += 1;
    }
    false
}

/// The accepted languages that were not evaluated, each marked untested
/// and explicitly not claimed.
pub fn untested_languages(tested: &[Language]) -> (out: Vec<UntestedLanguage>)
    ensures
        out@.len() == untested_of(all_languages(), tested@).len(),
        forall|i: int|
            0 <= i < out@.len() ==> {
                let u = #[trigger] out@[i];
                let l = untested_of(all_languages(), tested@)[i];
                &&& u.code@ == code_of(l)
                &&& u.name@ == display_name_of(l)
                &&& !u.tested
                &&& u.status@ == untested_status()
            },
{
    let all = Language::all();
    let n = all.len();
    let mut out: Vec<UntestedLanguage> = Vec::new();
    let mut i: usize = 0;
    while i < n
        invariant
            n == all@.len(),
            all@ == all_languages(),
            i <= n,
            out@.len() == untested_of(all@.take(i as int), tested@).len(),
            forall|k: int|
                0 <= k < out@.len() ==> {
                    let u = #[trigger] out@[k];
                    let l = untested_of(all@.take(i as int), tested@)[k];
                    &&& u.code@ == code_of(l)
                    &&& u.name@ == display_name_of(l)
                    &&& !u.tested
                    &&& u.status@ == untested_status()
                },
        decreases n - i,
    {
        let l = all[i];
        assert(all@.take(i + 1).drop_last() =~= all@.take(i as int));
        assert(all@.take(i + 1).last() == l);
        if !contains_language(tested, l) {
            out.push(
                UntestedLanguage {
                    code: l.code(),
                    name: l.display_name(),
                    tested: false,
                    status: "UNTESTED \u{2014} NO MULTILINGUAL CLAIM",
                },
            );
        }
        i += 1;
    }
    assert(all@.take(n as int) =~= all@);
    out
}

/// The machine and process context a benchmark run executed in.
#[derive(Debug, Clone)]
pub struct EnvironmentInfo {
    /// Operating system (`windows`, `linux`, ...).
    pub os: String,
    /// CPU architecture (`x86_64`, `aarch64`, ...).
    pub arch: String,
    /// CPU model string as reported by the platform.
    pub cpu_model: String,
    /// Logical parallelism available to the runtime.
    pub parallelism: usize,
    /// Build profile the benchmark binary was compiled with.
    pub profile: String,
    /// Measurement timestamp, seconds since the Unix epoch (UTC).
    pub measured_at_unix_secs: u64,
    /// Measurement timestamp rendered as `YYYY-MM-DD` (UTC).
    pub measured_at_date: String,
}

/// How many of `relevant` are among the first `k` of `retrieved`.
pub open spec fn hits_in_top(retrieved: Seq<Seq<char>>, relevant: Seq<Seq<char>>, k: nat) -> nat
    decreases relevant.len(),
{
    if relevant.len() == 0 {
        0
    } else {
        hits_in_top(retrieved, relevant.drop_last(), k) + if retrieved.take(
            (if k < retrieved.len() {
                k
            } else {
                retrieved.len()
            }) as int,
        ).contains(relevant.last()) {
            1nat
        } else {
            0nat
        }
    }
}

fn string_in(list: &[String], limit: usize, x: &String) -> (r: bool)
    requires
        limit <= list@.len(),
    ensures
        r == views(list@).take(limit as int).contains(x@),
{
    let xc = chars_of(x.as_str());
    let mut i: usize = 0;
    while i < limit
        invariant
            i <= limit,
            limit <= list@.len(),
            xc@ == x@,
            forall|k: int| 0 <= k < i ==> views(list@)[k] != x@,
        decreases limit - i,
    {
        if chars_eq(chars_of(list[i].as_str()).as_slice(), xc.as_slice()) {
            assert(views(list@).take(limit as int)[i as int] == x@);
            return true;
        }
        i += 1;
    }
    false
}

/// The number of judged-relevant documents among the top `k` retrieved
/// ones (the numerator of Recall@k).
pub fn relevant_hits(retrieved: &[String], relevant: &[String], k: usize) -> (n: usize)
    ensures
        n == hits_in_top(views(retrieved@), views(relevant@), k as nat),
{
    let limit = if k < retrieved.len() {
        k
    } else {
        retrieved.len()
    };
    let m = relevant.len();
    let mut count: usize = 0;
    let mut j: usize = 0;
    while j < m
        invariant
            m == relevant@.len(),
            limit <= retrieved@.len(),
            limit == (if k < retrieved@.len() {
                k as nat
            } else {
                retrieved@.len()
            }),
            j <= m,
            count <= j,
            count == hits_in_top(views(retrieved@), views(relevant@).take(j as int), k as nat),
        decreases m - j,
    {
        assert(views(relevant@).take(j + 1).drop_last() =~= views(relevant@).take(j as int));
        assert(views(relevant@).take(j + 1).last() == relevant@[j as int]@);
        if string_in(retrieved, limit, &relevant[j]) {
            count += 1;
        }
        j += 1;
    }
    assert(views(relevant@).take(m as int) =~= views(relevant@));
    count
}

/// The position of the first retrieved document that is judged relevant
/// (its rank is one more), if any (the core of the reciprocal rank).
pub fn first_relevant_index(retrieved: &[String], relevant: &[String]) -> (r: Option<usize>)
    ensures
        match r {
            Some(i) => i < retrieved@.len() && views(relevant@).contains(retrieved@[i as int]@)
                && forall|j: int| 0 <= j < i ==> !views(relevant@).contains(#[trigger] views(retrieved@)[j]),
            None => forall|j: int|
                0 <= j < retrieved@.len() ==> !views(relevant@).contains(#[trigger] views(retrieved@)[j]),
        },
{
    let n = retrieved.len();
    let mut i: usize = 0;
    while i < n
        invariant
            n == retrieved@.len(),
            i <= n,
            forall|j: int| 0 <= j < i ==> !views(relevant@).contains(#[trigger] views(retrieved@)[j]),
        decreases n - i,
    {
        if string_in(relevant, relevant.len(), &retrieved[i]) {
            assert(views(relevant@).take(relevant@.len() as int) =~= views(relevant@));
            return Some(i);
        }
        assert(views(relevant@).take(relevant@.len() as int) =~= views(relevant@));
        i += 1;
    }
    None
}

/// The day number (days since 1970-01-01, proleptic Gregorian) of the date
/// `year`-`month`-`day`.
pub open spec fn days_from_civil(year: int, month: int, day: int) -> int {
    let y = if month <= 2 {
        year - 1
    } else {
        year
    };
    let era = y / 400;
    let yoe = y - era * 400;
    let mp = if month > 2 {
        month - 3
    } else {
        month + 9
    };
    let doy = (153 * mp + 2) / 5 + day - 1;
    let doe = yoe * 365 + yoe / 4 - yoe / 100 + doy;
    era * 146097 + doe - 719468
}

proof fn lemma_year_of_era(doe: int)
    requires
        0 <= doe <= 146096,
    ensures
        ({
            let yoe = (doe - doe / 1460 + doe / 36524 - doe / 146096) / 365;
            &&& 0 <= yoe <= 399
            &&& 365 * yoe + yoe / 4 - yoe / 100 <= doe
            &&& doe - (365 * yoe + yoe / 4 - yoe / 100) <= 365
            &&& doe - (365 * yoe + yoe / 4 - yoe / 100) == 365 ==> (yoe + 1) % 4 == 0 && ((yoe
                + 1) % 100 != 0 || yoe == 399)
        }),
{
    let yoe = (doe - doe / 1460 + doe / 36524 - doe / 146096) / 365;
    assert(0 <= yoe <= 399 && 365 * yoe + yoe / 4 - yoe / 100 <= doe && doe - (365 * yoe + yoe
        / 4 - yoe / 100) <= 365) by (nonlinear_arith)
        requires
            0 <= doe <= 146096,
            yoe == (doe - doe / 1460 + doe / 36524 - doe / 146096) / 365,
    ;
    assert(doe - (365 * yoe + yoe / 4 - yoe / 100) == 365 ==> (yoe + 1) % 4 == 0 && ((yoe + 1)
        % 100 != 0 || yoe == 399)) by (nonlinear_arith)
        requires
            0 <= doe <= 146096,
            0 <= yoe <= 399,
            yoe == (doe - doe / 1460 + doe / 36524 - doe / 146096) / 365,
    ;
}

/// A leap year of the proleptic Gregorian calendar.
pub open spec fn is_leap_year(y: int) -> bool {
    y % 4 == 0 && (y % 100 != 0 || y % 400 == 0)
}

/// The number of days in month `m` of year `y`.
pub open spec fn days_in_month(y: int, m: int) -> int {
    if m == 2 {
        if is_leap_year(y) {
            29
        } else {
            28
        }
    } else if m == 4 || m == 6 || m == 9 || m == 11 {
        30
    } else {
        31
    }
}

/// `y`-`m`-`d` is a date of the proleptic Gregorian calendar.
pub open spec fn valid_date(y: int, m: int, d: int) -> bool {
    1 <= m <= 12 && 1 <= d <= days_in_month(y, m)
}

/// Month lengths counted from March (`mp == 0`) to February (`mp == 11`,
/// given as 29).
pub open spec fn march_based_length(mp: int) -> int {
    if mp == 11 {
        29
    } else if mp == 1 || mp == 3 || mp == 6 || mp == 8 {
        30
    } else {
        31
    }
}

proof fn lemma_day_of_year(doy: int)
    requires
        0 <= doy <= 365,
    ensures
        ({
            let mp = (5 * doy + 2) / 153;
            let d = doy - (153 * mp + 2) / 5 + 1;
            &&& 0 <= mp <= 11
            &&& 1 <= d <= march_based_length(mp)
            &&& (mp == 11 && d == 29) ==> doy == 365
        }),
{
    let mp = (5 * doy + 2) / 153;
    let d = doy - (153 * mp + 2) / 5 + 1;
    assert(0 <= mp <= 11 && 153 * mp <= 5 * doy + 2 && 5 * doy + 2 < 153 * mp + 153)
        by (nonlinear_arith)
        requires
            0 <= doy <= 365,
            mp == (5 * doy + 2) / 153,
    ;
    assert(1 <= d <= march_based_length(mp) && ((mp == 11 && d == 29) ==> doy == 365))
        by (nonlinear_arith)
        requires
            0 <= mp <= 11,
            153 * mp <= 5 * doy + 2,
            5 * doy + 2 < 153 * mp + 153,
            0 <= doy <= 365,
            d == doy - (153 * mp + 2) / 5 + 1,
    ;
}

proof fn lemma_floor_div(z: int)
    ensures
        ({
            let era = if z >= 0 {
                z / 146097
            } else {
                -((146096 - z) / 146097)
            };
            &&& 0 <= z - era * 146097 <= 146096
            &&& era == z / 146097
        }),
{
    let era = if z >= 0 {
        z / 146097
    } else {
        -((146096 - z) / 146097)
    };
    assert(0 <= z - era * 146097 <= 146096 && era == z / 146097) by (nonlinear_arith)
        requires
            era == if z >= 0 {
                z / 146097
            } else {
                -((146096 - z) / 146097)
            },
    ;
}

proof fn lemma_leap_shift(yoe: int, era: int)
    requires
        0 <= yoe <= 399,
        (yoe + 1) % 4 == 0 && ((yoe + 1) % 100 != 0 || yoe == 399),
    ensures
        is_leap_year(yoe + era * 400 + 1),
{
    assert(is_leap_year(yoe + era * 400 + 1)) by (nonlinear_arith)
        requires
            0 <= yoe <= 399,
            (yoe + 1) % 4 == 0 && ((yoe + 1) % 100 != 0 || yoe == 399),
    ;
}

/// Days since 1970-01-01 to `(year, month, day)`, proleptic Gregorian:
/// the date is valid and its day number is `days_since_epoch`.
pub fn civil_from_days(days_since_epoch: i64) -> (r: (i64, u32, u32))
    requires
        -0x1000_0000_0000_0000 <= days_since_epoch <= 0x1000_0000_0000_0000,
    ensures
        valid_date(r.0 as int, r.1 as int, r.2 as int),
        days_from_civil(r.0 as int, r.1 as int, r.2 as int) == days_since_epoch,
{
    let z: i64 = days_since_epoch + 719468;
    let era: i64 = if z >= 0 {
        z / 146097
    } else {
        -((146096 - z) / 146097)
    };
    proof {
        lemma_floor_div(z as int);
    }
    let doe: i64 = z - era * 146097;
    proof {
        lemma_year_of_era(doe as int);
    }
    let yoe: i64 = (doe - doe / 1460 + doe / 36524 - doe / 146096) / 365;
    let year: i64 = yoe + era * 400;
    let doy: i64 = doe - (365 * yoe + yoe / 4 - yoe / 100);
    proof {
        lemma_day_of_year(doy as int);
    }
    let mp: i64 = (5 * doy + 2) / 153;
    let day: i64 = doy - (153 * mp + 2) / 5 + 1;
    let month: i64 = if mp < 10 {
        mp + 3
    } else {
        mp - 9
    };
    let y: i64 = if month <= 2 {
        year + 1
    } else {
        year
    };
    proof {
        if mp == 11 && day == 29 {
            lemma_leap_shift(yoe as int, era as int);
        }
        let y2 = if month <= 2 {
            y - 1
        } else {
            y as int
        };
        assert(y2 == year);
        assert(y2 / 400 == era) by (nonlinear_arith)
            requires
                y2 == yoe + era * 400,
                0 <= yoe <= 399,
        ;
    }
    (y, month as u32, day as u32)
}

/// Renders Unix seconds as a `YYYY-MM-DD` UTC date.
pub fn iso_utc_date(secs: u64) -> (s: String)
    ensures
        exists|y: int, m: int, d: int|
            #![trigger days_from_civil(y, m, d)]
            valid_date(y, m, d) && days_from_civil(y, m, d) == secs / 86400 && s@ == padded(
                y as nat,
                10,
                4,
            ) + seq!['-'] + padded(m as nat, 10, 2) + seq!['-'] + padded(d as nat, 10, 2),
{
    let days: i64 = (secs / 86400) as i64;
    let (year, month, day) = civil_from_days(days);
    proof {
        assert(year >= 1970) by (nonlinear_arith)
            requires
                days >= 0,
                days_from_civil(year as int, month as int, day as int) == days,
                valid_date(year as int, month as int, day as int),
        ;
    }
    let mut s = String::new();
    push_padded(&mut s, year as u128, 10, 4);
    push_char(&mut s, '-');
    push_padded(&mut s, month as u128, 10, 2);
    push_char(&mut s, '-');
    push_padded(&mut s, day as u128, 10, 2);
    assert(days_from_civil(year as int, month as int, day as int) == secs / 86400);
    s
}

/// The stage outcomes of one evaluated query.
///
/// `transcript` is what speech recognition returned (`None` when it
/// failed); `script_language` and `resolved_language` are what script
/// detection and language resolution found; `retrieved` are the document
/// ids retrieval returned (empty when `retrieval_failed`), judged against
/// `relevant` within the top `k`; `generation` is the served answer and
/// whether it was refused (`None` when generation failed outright).
pub fn query_outcome(
    query: &str,
    language: Language,
    transcript: Option<&str>,
    script_language: Language,
    resolved_language: Language,
    retrieval_failed: bool,
    retrieved: &[String],
    relevant: &[String],
    k: usize,
    answerability: crate::types::Answerability,
    generation: Option<(Option<&str>, bool)>,
) -> (o: QueryOutcome)
    ensures
        o.stt_ok == (transcript matches Some(t) && t@ == query@),
        o.lid_ok == (script_language == language && resolved_language == language),
        o.retrieval_failed == retrieval_failed,
        o.recall_is_zero == (relevant@.len() == 0 || hits_in_top(views(retrieved@), views(relevant@), k as nat)
            == 0),
        o.grounded == (answerability == crate::types::Answerability::Supported),
        o.generation_ok == (generation matches Some((answer, refused)) && !refused && (answer matches Some(
            a,
        ) && !crate::text::all_white(a@))),
{
    let stt_ok = match transcript {
        Some(t) => chars_eq(chars_of(t).as_slice(), chars_of(query).as_slice()),
        None => false,
    };
    let lid_ok = script_language == language && resolved_language == language;
    let recall_is_zero = relevant.len() == 0 || relevant_hits(retrieved, relevant, k) == 0;
    let grounded = match answerability {
        crate::types::Answerability::Supported => true,
        _ => false,
    };
    let generation_ok = match generation {
        Some((answer, refused)) => !refused && match answer {
            Some(a) => !crate::text::is_blank(a),
            None => false,
        },
        None => false,
    };
    QueryOutcome { stt_ok, lid_ok, retrieval_failed, recall_is_zero, grounded, generation_ok }
}

} // verus!
