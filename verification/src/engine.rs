//! The offline indexing pipeline's bookkeeping and the online path's
//! result-shaping decisions.
//!
//! Indexing is `raw -> clean -> normalize -> language metadata -> documents
//! -> chunks`; embedding the chunks and writing them to the vector store and
//! the full-text index is outside work that the caller performs on the
//! chunks [`prepare_index`] hands back.

use vstd::prelude::*;

use crate::chunk::{records_of, ChunkRecord, Chunker, ChunkingStrategy, StrategyChunker};
use crate::oreo_config::{OreoConfig, OreoError};
use crate::preprocess::{
    count_too_short, count_unsupported, document_of, kept_records, preprocess, PreprocessStats,
    PreprocessedDocument, RawDocument,
};

verus! {

/// Counts reported after an indexing run.
#[derive(Debug, Clone, Copy, PartialEq, Eq, Structural)]
pub struct IndexReport {
    /// Raw records read from disk.
    pub raw_documents: usize,
    /// Documents surviving preprocessing.
    pub documents: usize,
    /// Chunks produced by the chunker.
    pub chunks: usize,
    /// Preprocessing skip counters.
    pub stats: PreprocessStats,
}

/// How many chunks `c` makes of all of `docs`.
pub open spec fn chunk_total(docs: Seq<PreprocessedDocument>, c: StrategyChunker) -> nat
    decreases docs.len(),
{
    if docs.len() == 0 {
        0
    } else {
        chunk_total(docs.drop_last(), c) + c.split_spec(docs.last().text@).len()
    }
}

/// `r` is the chunk records of every document of `docs`, document after
/// document, each document's chunks in order.
pub open spec fn chunked(r: Seq<ChunkRecord>, docs: Seq<PreprocessedDocument>, c: StrategyChunker) -> bool
    decreases docs.len(),
{
    if docs.len() == 0 {
        r.len() == 0
    } else {
        let n = chunk_total(docs.drop_last(), c);
        &&& n <= r.len()
        &&& chunked(r.take(n as int), docs.drop_last(), c)
        &&& records_of(
            r.skip(n as int),
            docs.last(),
            c.split_spec(docs.last().text@),
            c.strategy_name(),
        )
    }
}

/// Chunks every document with `chunker`, concatenating the records.
pub fn chunk_documents(docs: &[PreprocessedDocument], chunker: &StrategyChunker) -> (r: Vec<
    ChunkRecord,
>)
    ensures
        chunked(r@, docs@, *chunker),
        r@.len() == chunk_total(docs@, *chunker),
{
    let n = docs.len();
    let mut out: Vec<ChunkRecord> = Vec::new();
    let mut i: usize = 0;
    while i < n
        invariant
            n == docs@.len(),
            i <= n,
            chunked(out@, docs@.take(i as int), *chunker),
            out@.len() == chunk_total(docs@.take(i as int), *chunker),
        decreases n - i,
    {
        let ghost before = out@;
        let ghost prefix = docs@.take(i + 1);
        assert(prefix.drop_last() =~= docs@.take(i as int));
        assert(prefix.last() == docs@[i as int]);
        let mut records = chunker.chunk_document(&docs[i]);
        let ghost added = records@;
        out.append(&mut records);
        assert(out@.take(before.len() as int) =~= before);
        assert(out@.skip(before.len() as int) =~= added);
        i += 1;
    }
    assert(docs@.take(n as int) =~= docs@);
    out
}

/// `chunks` is what the strategy `chunking` makes of the documents that
/// preprocessing produces from the kept records `kept`.
pub open spec fn chunks_of_kept(
    chunks: Seq<ChunkRecord>,
    kept: Seq<RawDocument>,
    chunking: ChunkingStrategy,
) -> bool {
    exists|docs: Seq<PreprocessedDocument>, c: StrategyChunker|
        #![trigger chunked(chunks, docs, c)]
        {
            &&& docs.len() == kept.len()
            &&& forall|i: int| 0 <= i < docs.len() ==> document_of(#[trigger] docs[i], kept[i])
            &&& c.strategy() == chunking
            &&& chunked(chunks, docs, c)
        }
}

/// Preprocesses `raw` with the configured languages and chunks what
/// survives with the configured strategy, reporting the counts.
///
/// # Errors
/// Never fails on individual records; the error case is reserved for
/// stages that need hard failure semantics.
pub fn prepare_index(raw: &[RawDocument], config: &OreoConfig) -> (r: Result<
    (Vec<ChunkRecord>, IndexReport),
    OreoError,
>)
    ensures
        r matches Ok((chunks, report)) && {
            let kept = kept_records(raw@, config.languages@);
            &&& report.raw_documents == raw@.len()
            &&& report.documents == kept.len()
            &&& report.chunks == chunks@.len()
            &&& report.stats.kept == kept.len()
            &&& report.stats.skipped_too_short == count_too_short(raw@)
            &&& report.stats.skipped_unsupported_language == count_unsupported(
                raw@,
                config.languages@,
            )
            &&& chunks_of_kept(chunks@, kept, config.chunking)
        },
{
    let raw_count = raw.len();
    let prepared = preprocess(raw, config.languages.as_slice());
    match prepared {
        Ok((documents, stats)) => {
            let chunker = config.chunking.build();
            let chunks = chunk_documents(documents.as_slice(), &chunker);
            let report = IndexReport {
                raw_documents: raw_count,
                documents: documents.len(),
                chunks: chunks.len(),
                stats,
            };
            assert(documents@.len() == kept_records(raw@, config.languages@).len());
            assert(chunked(chunks@, documents@, chunker));
            assert(chunks_of_kept(chunks@, kept_records(raw@, config.languages@), config.chunking));
            Ok((chunks, report))
        },
        Err(e) => Err(e),
    }
}

/// How many results the reranker keeps: the request's `top_k`, capped by
/// the configured final count.
pub fn final_count(top_k: usize, final_top: usize) -> (n: usize)
    ensures
        n == if top_k < final_top {
            top_k
        } else {
            final_top
        },
{
    if top_k < final_top {
        top_k
    } else {
        final_top
    }
}

/// The 1-based rank of the result at `index`, saturating at `u32::MAX`.
pub fn rank_of(index: usize) -> (rank: u32)
    ensures
        rank == if index + 1 <= u32::MAX {
            index + 1
        } else {
            u32::MAX as int
        },
{
    if index < 4294967295usize {
        (index + 1) as u32
    } else {
        u32::MAX
    }
}

} // verus!
