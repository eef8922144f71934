//! Runtime configuration for the retrieval engine.
//!
//! Every knob is overridable from a name-to-value source (the process
//! environment in production), so the same engine serves local tests, the
//! standalone service, and the embedded backend. Language support is a
//! first-class setting: adding a language is a configuration change.

use vstd::prelude::*;

use crate::chunk::ChunkingStrategy;
use crate::language::{Language, language_of_code};
use crate::numparse::{parse_error_text, parse_unsigned, parse_usize_std};
use crate::rerank::RerankerKind;
use crate::settings::{lookup, lookup_var, segments, split_chars};
use crate::text::{all_white, chars_eq, chars_of, is_blank, push_str, string_from, trim_chars, trim_seq, views};

verus! {

/// Which storage backend backs dense retrieval.
#[derive(Debug, Clone, Copy, PartialEq, Eq, Structural)]
pub enum VectorStoreKind {
    /// In-process brute-force cosine store (tests, demos, small corpora).
    Memory,
    /// Qdrant server reached over REST.
    Qdrant,
}

/// Failures raised by ingestion, indexing, or retrieval inside the engine.
#[derive(Debug, Clone, PartialEq, Eq)]
pub enum OreoError {
    /// A configuration value is missing or contradictory.
    Config(String),
    /// Filesystem failure while reading a corpus or opening an index.
    Io(String),
    /// The corpus could not be parsed.
    Corpus {
        /// Where the failure happened (file, line).
        location: String,
        /// Underlying parse message.
        message: String,
    },
    /// The full-text index failed.
    Index(String),
    /// The vector store answered with a non-success status.
    VectorStore {
        /// Upstream status code.
        status: u16,
        /// Response body (truncated by the caller).
        body: String,
    },
    /// Connection/transport failure against the vector store.
    VectorStoreNetwork(String),
}

/// Full engine configuration.
#[derive(Debug, Clone)]
pub struct OreoConfig {
    /// Languages kept by preprocessing; documents in other languages are
    /// skipped. Defaults to English, Hindi, Tamil.
    pub languages: Vec<Language>,
    /// Chunking strategy applied to every document.
    pub chunking: ChunkingStrategy,
    /// Embedding vector dimensionality.
    pub embedding_dim: usize,
    /// Where dense vectors live.
    pub vector_store: VectorStoreKind,
    /// Base URL of the Qdrant server (required for [`VectorStoreKind::Qdrant`]).
    pub qdrant_url: String,
    /// Qdrant request timeout in milliseconds.
    pub qdrant_timeout_ms: u64,
    /// Qdrant collection name.
    pub qdrant_collection: String,
    /// Directory holding the BM25 index.
    pub tantivy_dir: String,
    /// BM25 candidate pool fetched per leg before fusion.
    pub candidate_top: usize,
    /// Final result count produced by the reranker.
    pub final_top: usize,
    /// Reciprocal Rank Fusion constant `k`.
    pub rrf_k: usize,
    /// Reranker used to order and trim fused candidates.
    pub reranker: RerankerKind,
}

/// The default language set.
pub open spec fn default_languages() -> Seq<Language> {
    seq![Language::En, Language::Hi, Language::Ta]
}

/// The default chunking strategy.
pub open spec fn default_chunking() -> ChunkingStrategy {
    ChunkingStrategy::Sentence { max_chars: 700, min_chars: 80 }
}

/// `c` holds the default configuration.
pub open spec fn is_default(c: OreoConfig) -> bool {
    &&& c.languages@ == default_languages()
    &&& c.chunking == default_chunking()
    &&& c.embedding_dim == 256
    &&& c.vector_store == VectorStoreKind::Memory
    &&& c.qdrant_url@ == "http://localhost:6333"@
    &&& c.qdrant_timeout_ms == 500
    &&& c.qdrant_collection@ == "vox-chunks"@
    &&& c.tantivy_dir@ == "data/oreo-index"@
    &&& c.candidate_top == 20
    &&& c.final_top == 5
    &&& c.rrf_k == 60
    &&& c.reranker == RerankerKind::LexicalOverlap
}

/// Why a configuration with these settings is inconsistent, if it is.
pub open spec fn validation_message(
    embedding_dim: nat,
    candidate_top: nat,
    final_top: nat,
    rrf_k: nat,
    vector_store: VectorStoreKind,
    qdrant_url: Seq<char>,
) -> Option<Seq<char>> {
    if embedding_dim == 0 {
        Some("embedding_dim must be > 0"@)
    } else if candidate_top == 0 || final_top == 0 {
        Some("candidate_top and final_top must be > 0"@)
    } else if final_top > candidate_top {
        Some("final_top cannot exceed candidate_top"@)
    } else if rrf_k == 0 {
        Some("rrf_k must be > 0"@)
    } else if vector_store == VectorStoreKind::Qdrant && all_white(qdrant_url) {
        Some("qdrant_url is required when the vector store kind is qdrant"@)
    } else {
        None
    }
}

/// Why `c` is inconsistent, if it is.
pub open spec fn config_problem(c: OreoConfig) -> Option<Seq<char>> {
    validation_message(
        c.embedding_dim as nat,
        c.candidate_top as nat,
        c.final_top as nat,
        c.rrf_k as nat,
        c.vector_store,
        c.qdrant_url@,
    )
}

impl Default for OreoConfig {
    fn default() -> (c: Self)
        ensures
            is_default(c),
    {
        let languages = vec![Language::En, Language::Hi, Language::Ta];
        assert(languages@ =~= default_languages());
        OreoConfig {
            languages,
            chunking: ChunkingStrategy::Sentence { max_chars: 700, min_chars: 80 },
            embedding_dim: 256,
            vector_store: VectorStoreKind::Memory,
            qdrant_url: "http://localhost:6333".to_owned(),
            qdrant_timeout_ms: 500,
            qdrant_collection: "vox-chunks".to_owned(),
            tantivy_dir: "data/oreo-index".to_owned(),
            candidate_top: 20,
            final_top: 5,
            rrf_k: 60,
            reranker: RerankerKind::LexicalOverlap,
        }
    }
}

fn check_settings(
    embedding_dim: usize,
    candidate_top: usize,
    final_top: usize,
    rrf_k: usize,
    vector_store: VectorStoreKind,
    qdrant_url: &str,
) -> (r: Result<(), OreoError>)
    ensures
        match validation_message(
            embedding_dim as nat,
            candidate_top as nat,
            final_top as nat,
            rrf_k as nat,
            vector_store,
            qdrant_url@,
        ) {
            None => r is Ok,
            Some(m) => r matches Err(OreoError::Config(x)) && x@ == m,
        },
{
    if embedding_dim == 0 {
        return Err(OreoError::Config("embedding_dim must be > 0".to_owned()));
    }
    if candidate_top == 0 || final_top == 0 {
        return Err(OreoError::Config("candidate_top and final_top must be > 0".to_owned()));
    }
    if final_top > candidate_top {
        return Err(OreoError::Config("final_top cannot exceed candidate_top".to_owned()));
    }
    if rrf_k == 0 {
        return Err(OreoError::Config("rrf_k must be > 0".to_owned()));
    }
    if vector_store == VectorStoreKind::Qdrant && is_blank(qdrant_url) {
        return Err(
            OreoError::Config(
                "qdrant_url is required when the vector store kind is qdrant".to_owned(),
            ),
        );
    }
    Ok(())
}

impl OreoConfig {
    /// Validates internal consistency.
    ///
    /// # Errors
    /// Returns [`OreoError::Config`] when dimensions/pool sizes are zero,
    /// when the candidate pool is smaller than the final result count, or
    /// when Qdrant is selected without a base URL.
    pub fn validate(&self) -> (r: Result<(), OreoError>)
        ensures
            match config_problem(*self) {
                None => r is Ok,
                Some(m) => r matches Err(OreoError::Config(x)) && x@ == m,
            },
    {
        check_settings(
            self.embedding_dim,
            self.candidate_top,
            self.final_top,
            self.rrf_k,
            self.vector_store,
            self.qdrant_url.as_str(),
        )
    }
}

/// The value of a `usize` setting: `default` when unset, the parsed value
/// of the trimmed text when set, `None` when that text does not parse.
pub open spec fn usize_setting(raw: Option<Seq<char>>, default: nat) -> Option<nat> {
    match raw {
        None => Some(default),
        Some(v) => parse_unsigned(trim_seq(v), usize::MAX as nat),
    }
}

/// Parses the trimmed `raw` as a `usize` setting called `name`.
///
/// # Errors
/// [`OreoError::Config`] naming the setting when the text does not parse.
fn parse_usize(name: &str, raw: &str) -> (r: Result<usize, OreoError>)
    ensures
        match parse_unsigned(trim_seq(raw@), usize::MAX as nat) {
            Some(v) => r matches Ok(x) && x == v,
            None => r matches Err(OreoError::Config(m)) && m@.len() >= name@.len() + 2 && m@.subrange(
                0,
                name@.len() as int + 2,
            ) == name@ + ": "@,
        },
{
    let trimmed = string_from(trim_chars(chars_of(raw).as_slice()).as_slice());
    match parse_usize_std(trimmed.as_str()) {
        Ok(v) => Ok(v),
        Err(e) => {
            let mut m = String::new();
            push_str(&mut m, name);
            push_str(&mut m, ": ");
            let ghost head = m@;
            push_str(&mut m, parse_error_text(&e).as_str());
            proof {
                reveal_strlit(": ");
                assert(m@.subrange(0, name@.len() as int + 2) =~= head);
            }
            Err(OreoError::Config(m))
        },
    }
}

/// The chunking parameter at position `i` of `segs`, or `default` when
/// absent; `None` when present but not a number.
pub open spec fn chunk_param(segs: Seq<Seq<char>>, i: int, default: nat) -> Option<nat> {
    if i < segs.len() {
        parse_unsigned(trim_seq(segs[i]), usize::MAX as nat)
    } else {
        Some(default)
    }
}

/// The strategy that `raw` (`name[:param[:param]]`) describes, if valid.
pub open spec fn chunking_spec(raw: Seq<char>) -> Option<ChunkingStrategy> {
    let segs = segments(trim_seq(raw), ':');
    let name = segs[0];
    if name == "fixed"@ {
        match (chunk_param(segs, 1, 900), chunk_param(segs, 2, 120)) {
            (Some(a), Some(b)) => Some(ChunkingStrategy::Fixed { size: a as usize, overlap: b as usize }),
            _ => None,
        }
    } else if name == "sentence"@ {
        match (chunk_param(segs, 1, 700), chunk_param(segs, 2, 80)) {
            (Some(a), Some(b)) => Some(
                ChunkingStrategy::Sentence { max_chars: a as usize, min_chars: b as usize },
            ),
            _ => None,
        }
    } else if name == "sliding"@ {
        match (chunk_param(segs, 1, 600), chunk_param(segs, 2, 300)) {
            (Some(a), Some(b)) => Some(ChunkingStrategy::Sliding { window: a as usize, stride: b as usize }),
            _ => None,
        }
    } else {
        None
    }
}

/// The chunking strategy is not one of the known names.
pub open spec fn unknown_chunking_name(raw: Seq<char>) -> bool {
    let name = segments(trim_seq(raw), ':')[0];
    name != "fixed"@ && name != "sentence"@ && name != "sliding"@
}

fn chunk_param_exec(segs: &Vec<Vec<char>>, i: usize, default: usize) -> (r: Result<usize, OreoError>)
    ensures
        match chunk_param(crate::chunk::cviews(segs@), i as int, default as nat) {
            Some(v) => r matches Ok(x) && x == v,
            None => r matches Err(OreoError::Config(m)) && m@.len() >= 20 && m@.subrange(0, 20)
                == "chunking parameter: "@,
        },
{
    if i < segs.len() {
        let t = string_from(trim_chars(segs[i].as_slice()).as_slice());
        match parse_usize_std(t.as_str()) {
            Ok(v) => Ok(v),
            Err(e) => {
                let mut m = "chunking parameter: ".to_owned();
                proof {
                    reveal_strlit("chunking parameter: ");
                }
                let ghost head = m@;
                push_str(&mut m, parse_error_text(&e).as_str());
                assert(m@.subrange(0, 20) =~= head);
                Err(OreoError::Config(m))
            },
        }
    } else {
        Ok(default)
    }
}

fn is_word(s: &[char], w: &str) -> (r: bool)
    ensures
        r == (s@ == w@),
{
    chars_eq(s, chars_of(w).as_slice())
}

/// Parses a chunking setting: `fixed`, `sentence`, or `sliding`, optionally
/// followed by up to two `:`-separated numeric parameters.
///
/// # Errors
/// [`OreoError::Config`] for an unknown strategy name or a parameter that
/// is not a number.
pub fn parse_chunking(raw: &str) -> (r: Result<ChunkingStrategy, OreoError>)
    ensures
        match chunking_spec(raw@) {
            Some(s) => r == Ok::<ChunkingStrategy, OreoError>(s),
            None => r matches Err(OreoError::Config(m)) && (unknown_chunking_name(raw@) ==> m@
                == "unknown chunking strategy: "@ + segments(trim_seq(raw@), ':')[0]) && (
            !unknown_chunking_name(raw@) ==> m@.len() >= 20 && m@.subrange(0, 20)
                == "chunking parameter: "@),
        },
{
    let trimmed = trim_chars(chars_of(raw).as_slice());
    let segs = split_chars(trimmed.as_slice(), ':');
    let name = segs[0].as_slice();
    if is_word(name, "fixed") {
        let a = match chunk_param_exec(&segs, 1, 900) {
            Ok(v) => v,
            Err(e) => {
                return Err(e);
            },
        };
        let b = match chunk_param_exec(&segs, 2, 120) {
            Ok(v) => v,
            Err(e) => {
                return Err(e);
            },
        };
        Ok(ChunkingStrategy::Fixed { size: a, overlap: b })
    } else if is_word(name, "sentence") {
        let a = match chunk_param_exec(&segs, 1, 700) {
            Ok(v) => v,
            Err(e) => {
                return Err(e);
            },
        };
        let b = match chunk_param_exec(&segs, 2, 80) {
            Ok(v) => v,
            Err(e) => {
                return Err(e);
            },
        };
        Ok(ChunkingStrategy::Sentence { max_chars: a, min_chars: b })
    } else if is_word(name, "sliding") {
        let a = match chunk_param_exec(&segs, 1, 600) {
            Ok(v) => v,
            Err(e) => {
                return Err(e);
            },
        };
        let b = match chunk_param_exec(&segs, 2, 300) {
            Ok(v) => v,
            Err(e) => {
                return Err(e);
            },
        };
        Ok(ChunkingStrategy::Sliding { window: a, stride: b })
    } else {
        let mut m = "unknown chunking strategy: ".to_owned();
        push_str(&mut m, string_from(name).as_str());
        Err(OreoError::Config(m))
    }
}

/// The language codes listed in `raw` (comma-separated, each trimmed,
/// empty entries skipped), or `None` when one is not a known code.
pub open spec fn language_list(tokens: Seq<Seq<char>>) -> Option<Seq<Language>>
    decreases tokens.len(),
{
    if tokens.len() == 0 {
        Some(seq![])
    } else {
        match language_list(tokens.drop_last()) {
            None => None,
            Some(prev) => {
                let t = trim_seq(tokens.last());
                if t.len() == 0 {
                    Some(prev)
                } else {
                    match language_of_code(t) {
                        Some(l) => Some(prev.push(l)),
                        None => None,
                    }
                }
            },
        }
    }
}

/// The languages setting: the listed languages when any are listed, the
/// defaults otherwise; `None` when an entry is not a known code.
pub open spec fn languages_setting(raw: Option<Seq<char>>) -> Option<Seq<Language>> {
    match raw {
        None => Some(default_languages()),
        Some(v) => match language_list(segments(v, ',')) {
            None => None,
            Some(list) => if list.len() > 0 {
                Some(list)
            } else {
                Some(default_languages())
            },
        },
    }
}

fn parse_language_list(raw: &str) -> (r: Result<Vec<Language>, OreoError>)
    ensures
        match language_list(segments(raw@, ',')) {
            Some(list) => r matches Ok(v) && v@ == list,
            None => r matches Err(OreoError::Config(_)),
        },
{
    let raw_chars = chars_of(raw);
    let tokens = split_chars(raw_chars.as_slice(), ',');
    assert(crate::chunk::cviews(tokens@) == segments(raw@, ','));
    let n = tokens.len();
    let mut out: Vec<Language> = Vec::new();
    let mut i: usize = 0;
    while i < n
        invariant
            n == tokens@.len(),
            i <= n,
            language_list(crate::chunk::cviews(tokens@).take(i as int)) == Some(out@),
            crate::chunk::cviews(tokens@) == segments(raw@, ','),
        decreases n - i,
    {
        let ghost pre = crate::chunk::cviews(tokens@).take(i as int);
        assert(crate::chunk::cviews(tokens@).take(i + 1).drop_last() =~= pre);
        assert(crate::chunk::cviews(tokens@).take(i + 1).last() == tokens@[i as int]@);
        let t = trim_chars(tokens[i].as_slice());
        if t.len() > 0 {
            let ts = string_from(t.as_slice());
            match Language::parse(ts.as_str()) {
                Ok(l) => {
                    out.push(l);
                },
                Err(e) => {
                    proof {
                        assert(language_of_code(trim_seq(tokens@[i as int]@)) is None);
                        assert(language_list(crate::chunk::cviews(tokens@).take(i + 1)) is None);
                        lemma_language_list_stays_failed(crate::chunk::cviews(tokens@), i as int + 1);
                        assert(language_list(segments(raw@, ',')) is None);
                    }
                    return Err(OreoError::Config(e.message()));
                },
            }
        }
        i += 1;
    }
    assert(crate::chunk::cviews(tokens@).take(n as int) =~= crate::chunk::cviews(tokens@));
    Ok(out)
}

/// Once an entry fails, the whole list fails.
proof fn lemma_language_list_stays_failed(tokens: Seq<Seq<char>>, i: int)
    requires
        0 <= i <= tokens.len(),
        language_list(tokens.take(i)) is None,
    ensures
        language_list(tokens) is None,
    decreases tokens.len() - i,
{
    if i < tokens.len() {
        assert(tokens.take(i + 1).drop_last() =~= tokens.take(i));
        lemma_language_list_stays_failed(tokens, i + 1);
    } else {
        assert(tokens.take(i) =~= tokens);
    }
}

/// `s` with every trailing `c` removed (`str::trim_end_matches`).
pub open spec fn strip_trailing(s: Seq<char>, c: char) -> Seq<char>
    decreases s.len(),
{
    if s.len() > 0 && s.last() == c {
        strip_trailing(s.drop_last(), c)
    } else {
        s
    }
}

fn strip_trailing_exec(s: &[char], c: char) -> (out: Vec<char>)
    ensures
        out@ == strip_trailing(s@, c),
{
    let mut end = s.len();
    assert(s@.subrange(0, end as int) =~= s@);
    while end > 0 && s[end - 1] == c
        invariant
            end <= s@.len(),
            strip_trailing(s@.subrange(0, end as int), c) == strip_trailing(s@, c),
        decreases end,
    {
        assert(s@.subrange(0, end as int).drop_last() =~= s@.subrange(0, end - 1));
        end -= 1;
    }
    assert(s@.subrange(0, end as int) =~= s@.subrange(0, end as int));
    let mut out: Vec<char> = Vec::new();
    let mut k: usize = 0;
    while k < end
        invariant
            k <= end,
            end <= s@.len(),
            out@ == s@.subrange(0, k as int),
        decreases end - k,
    {
        out.push(s[k]);
        assert(s@.subrange(0, k + 1) =~= s@.subrange(0, k as int).push(s@[k as int]));
        k += 1;
    }
    out
}

/// A text setting: the trimmed value when set, `default` otherwise.
pub open spec fn text_setting(raw: Option<Seq<char>>, default: Seq<char>) -> Seq<char> {
    match raw {
        None => default,
        Some(v) => trim_seq(v),
    }
}

/// The Qdrant URL setting: trimmed, without trailing slashes.
pub open spec fn url_setting(raw: Option<Seq<char>>) -> Seq<char> {
    match raw {
        None => "http://localhost:6333"@,
        Some(v) => strip_trailing(trim_seq(v), '/'),
    }
}

/// The vector store setting (exact names, no trimming).
pub open spec fn store_setting(raw: Option<Seq<char>>) -> Option<VectorStoreKind> {
    match raw {
        None => Some(VectorStoreKind::Memory),
        Some(v) => if v == "memory"@ {
            Some(VectorStoreKind::Memory)
        } else if v == "qdrant"@ {
            Some(VectorStoreKind::Qdrant)
        } else {
            None
        },
    }
}

/// The reranker setting (exact names, no trimming).
pub open spec fn reranker_setting(raw: Option<Seq<char>>) -> Option<RerankerKind> {
    match raw {
        None => Some(RerankerKind::LexicalOverlap),
        Some(v) => if v == "lexical_overlap"@ {
            Some(RerankerKind::LexicalOverlap)
        } else if v == "noop"@ {
            Some(RerankerKind::Noop)
        } else {
            None
        },
    }
}

/// The chunking setting.
pub open spec fn chunking_setting(raw: Option<Seq<char>>) -> Option<ChunkingStrategy> {
    match raw {
        None => Some(default_chunking()),
        Some(v) => chunking_spec(v),
    }
}

/// Every setting in `vars` is well formed.
pub open spec fn settings_parse(vars: Seq<(String, String)>) -> bool {
    &&& languages_setting(lookup(vars, "VOX_OREO_LANGUAGES"@)) is Some
    &&& chunking_setting(lookup(vars, "VOX_OREO_CHUNKING"@)) is Some
    &&& usize_setting(lookup(vars, "VOX_OREO_EMBEDDING_DIM"@), 256) is Some
    &&& store_setting(lookup(vars, "VOX_OREO_VECTOR_STORE"@)) is Some
    &&& usize_setting(lookup(vars, "VOX_OREO_CANDIDATE_TOP"@), 20) is Some
    &&& usize_setting(lookup(vars, "VOX_OREO_FINAL_TOP"@), 5) is Some
    &&& usize_setting(lookup(vars, "VOX_OREO_RRF_K"@), 60) is Some
    &&& reranker_setting(lookup(vars, "VOX_OREO_RERANKER"@)) is Some
}

/// Why the well-formed settings `vars` are inconsistent, if they are.
pub open spec fn source_problem(vars: Seq<(String, String)>) -> Option<Seq<char>> {
    validation_message(
        usize_setting(lookup(vars, "VOX_OREO_EMBEDDING_DIM"@), 256).unwrap(),
        usize_setting(lookup(vars, "VOX_OREO_CANDIDATE_TOP"@), 20).unwrap(),
        usize_setting(lookup(vars, "VOX_OREO_FINAL_TOP"@), 5).unwrap(),
        usize_setting(lookup(vars, "VOX_OREO_RRF_K"@), 60).unwrap(),
        store_setting(lookup(vars, "VOX_OREO_VECTOR_STORE"@)).unwrap(),
        url_setting(lookup(vars, "VOX_OREO_QDRANT_URL"@)),
    )
}

/// Every setting in `vars` is well formed and together they are
/// consistent.
pub open spec fn source_ok(vars: Seq<(String, String)>) -> bool {
    &&& settings_parse(vars)
    &&& validation_message(
        usize_setting(lookup(vars, "VOX_OREO_EMBEDDING_DIM"@), 256).unwrap(),
        usize_setting(lookup(vars, "VOX_OREO_CANDIDATE_TOP"@), 20).unwrap(),
        usize_setting(lookup(vars, "VOX_OREO_FINAL_TOP"@), 5).unwrap(),
        usize_setting(lookup(vars, "VOX_OREO_RRF_K"@), 60).unwrap(),
        store_setting(lookup(vars, "VOX_OREO_VECTOR_STORE"@)).unwrap(),
        url_setting(lookup(vars, "VOX_OREO_QDRANT_URL"@)),
    ) is None
}

/// `c` is the configuration that the settings `vars` describe.
pub open spec fn config_from(c: OreoConfig, vars: Seq<(String, String)>) -> bool {
    &&& Some(c.languages@) == languages_setting(lookup(vars, "VOX_OREO_LANGUAGES"@))
    &&& Some(c.chunking) == chunking_setting(lookup(vars, "VOX_OREO_CHUNKING"@))
    &&& Some(c.embedding_dim as nat) == usize_setting(lookup(vars, "VOX_OREO_EMBEDDING_DIM"@), 256)
    &&& Some(c.vector_store) == store_setting(lookup(vars, "VOX_OREO_VECTOR_STORE"@))
    &&& c.qdrant_url@ == url_setting(lookup(vars, "VOX_OREO_QDRANT_URL"@))
    &&& c.qdrant_timeout_ms == 500
    &&& c.qdrant_collection@ == text_setting(lookup(vars, "VOX_OREO_COLLECTION"@), "vox-chunks"@)
    &&& c.tantivy_dir@ == text_setting(lookup(vars, "VOX_OREO_TANTIVY_DIR"@), "data/oreo-index"@)
    &&& Some(c.candidate_top as nat) == usize_setting(lookup(vars, "VOX_OREO_CANDIDATE_TOP"@), 20)
    &&& Some(c.final_top as nat) == usize_setting(lookup(vars, "VOX_OREO_FINAL_TOP"@), 5)
    &&& Some(c.rrf_k as nat) == usize_setting(lookup(vars, "VOX_OREO_RRF_K"@), 60)
    &&& Some(c.reranker) == reranker_setting(lookup(vars, "VOX_OREO_RERANKER"@))
}

fn usize_var(vars: &[(String, String)], name: &str, current: usize) -> (r: Result<usize, OreoError>)
    ensures
        match usize_setting(lookup(vars@, name@), current as nat) {
            Some(v) => r matches Ok(x) && x == v,
            None => r matches Err(OreoError::Config(_)),
        },
{
    match lookup_var(vars, name) {
        None => Ok(current),
        Some(raw) => parse_usize(name, raw.as_str()),
    }
}

fn trimmed_string(s: &str) -> (t: String)
    ensures
        t@ == trim_seq(s@),
{
    string_from(trim_chars(chars_of(s).as_slice()).as_slice())
}

impl OreoConfig {
    /// Loads configuration from name-to-value settings over the defaults.
    ///
    /// # Errors
    /// Returns [`OreoError::Config`] when a value fails to parse or the
    /// resulting combination is inconsistent.
    pub fn from_source(vars: &[(String, String)]) -> (r: Result<OreoConfig, OreoError>)
        ensures
            r is Ok <==> source_ok(vars@),
            r matches Ok(c) ==> config_from(c, vars@),
            r matches Err(e) ==> e is Config,
            settings_parse(vars@) ==> match source_problem(vars@) {
                Some(m) => r matches Err(OreoError::Config(x)) && x@ == m,
                None => r is Ok,
            },
    {
        let mut config = OreoConfig::default();
        match lookup_var(vars, "VOX_OREO_LANGUAGES") {
            Some(raw) => {
                match parse_language_list(raw.as_str()) {
                    Ok(list) => {
                        if list.len() > 0 {
                            config.languages = list;
                        }
                    },
                    Err(e) => {
                        return Err(e);
                    },
                }
            },
            None => {},
        }
        match lookup_var(vars, "VOX_OREO_CHUNKING") {
            Some(raw) => {
                match parse_chunking(raw.as_str()) {
                    Ok(c) => {
                        config.chunking = c;
                    },
                    Err(e) => {
                        return Err(e);
                    },
                }
            },
            None => {},
        }
        config.embedding_dim = match usize_var(vars, "VOX_OREO_EMBEDDING_DIM", 256) {
            Ok(v) => v,
            Err(e) => {
                return Err(e);
            },
        };
        match lookup_var(vars, "VOX_OREO_VECTOR_STORE") {
            Some(raw) => {
                let rc = chars_of(raw.as_str());
                if is_word(rc.as_slice(), "memory") {
                    config.vector_store = VectorStoreKind::Memory;
                } else if is_word(rc.as_slice(), "qdrant") {
                    config.vector_store = VectorStoreKind::Qdrant;
                } else {
                    let mut m = "unknown VOX_OREO_VECTOR_STORE value: ".to_owned();
                    push_str(&mut m, raw.as_str());
                    return Err(OreoError::Config(m));
                }
            },
            None => {},
        }
        match lookup_var(vars, "VOX_OREO_QDRANT_URL") {
            Some(raw) => {
                let t = trim_chars(chars_of(raw.as_str()).as_slice());
                config.qdrant_url = string_from(strip_trailing_exec(t.as_slice(), '/').as_slice());
            },
            None => {},
        }
        match lookup_var(vars, "VOX_OREO_COLLECTION") {
            Some(raw) => {
                config.qdrant_collection = trimmed_string(raw.as_str());
            },
            None => {},
        }
        match lookup_var(vars, "VOX_OREO_TANTIVY_DIR") {
            Some(raw) => {
                config.tantivy_dir = trimmed_string(raw.as_str());
            },
            None => {},
        }
        config.candidate_top = match usize_var(vars, "VOX_OREO_CANDIDATE_TOP", 20) {
            Ok(v) => v,
            Err(e) => {
                return Err(e);
            },
        };
        config.final_top = match usize_var(vars, "VOX_OREO_FINAL_TOP", 5) {
            Ok(v) => v,
            Err(e) => {
                return Err(e);
            },
        };
        config.rrf_k = match usize_var(vars, "VOX_OREO_RRF_K", 60) {
            Ok(v) => v,
            Err(e) => {
                return Err(e);
            },
        };
        match lookup_var(vars, "VOX_OREO_RERANKER") {
            Some(raw) => {
                let rc = chars_of(raw.as_str());
                if is_word(rc.as_slice(), "lexical_overlap") {
                    config.reranker = RerankerKind::LexicalOverlap;
                } else if is_word(rc.as_slice(), "noop") {
                    config.reranker = RerankerKind::Noop;
                } else {
                    let mut m = "unknown VOX_OREO_RERANKER value: ".to_owned();
                    push_str(&mut m, raw.as_str());
                    return Err(OreoError::Config(m));
                }
            },
            None => {},
        }
        match config.validate() {
            Ok(()) => Ok(config),
            Err(e) => Err(e),
        }
    }
}

} // verus!
