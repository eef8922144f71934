# vox

Multilingual (English, Hindi, Tamil and other Indian languages) question
answering over retrieved evidence, with the decision logic verified by Verus.

## Layout

- `src/` — the verified library. Every function carries a `requires` /
  `ensures` contract proved by Verus; the laws that relate several functions
  are public proof functions (`lemma_*`).
  - `language`, `types`, `text`, `numfmt`, `numparse`, `settings`: languages
    and their codes, request types, character-level text primitives, number
    rendering and parsing, name/value settings.
  - `analysis`, `grounding`, `guard`, `rag`, `generation`, `pipeline`, `llm`:
    query normalization and intent, evidence sufficiency and answer
    verification, input/evidence/output guardrails, the bounded regeneration
    protocol, the order of the answering stages, and prompt construction.
  - `ingest`, `corpus`, `preprocess`, `chunk`, `embed`, `rerank`, `fusion`,
    `vector_store`, `engine`: audio payload decoding, corpus parsing and
    record extraction, cleaning and script detection, chunking strategies,
    hashed-feature embedding weights, the lexical-overlap reranker's
    weights, rank bookkeeping for reciprocal rank fusion, the in-process
    vector store, and index preparation.
  - `oreo_config`, `api`, `retrieval`, `bench`: engine and service
    configuration from name/value settings, request identifiers, retry
    policy, and benchmark bookkeeping (failure tallies, dates, metric cores).
- `app/` — the `vox` command line: file and environment I/O, JSON, and the
  floating-point scoring and report rendering around the library.
- `tests/` — unit and scenario tests of the library.

Verify with `verus` on `src/lib.rs`; the outside crates used by `src/` are
`base64`, `serde_json` and `unicode-normalization`.
