//! Chunking: strategies for splitting documents into indexable chunks while
//! preserving full provenance metadata.
//!
//! Every chunk records `document_id`, `chunk_id` (`{document_id}#{index}`,
//! the index zero-padded to four digits), `language`, `chunking_strategy`,
//! and `source`.

use vstd::prelude::*;

use crate::language::Language;
use crate::numfmt::{lemma_padded, padded, push_padded, all_digits, digit_char, digit_value};
use crate::preprocess::PreprocessedDocument;
use crate::text::{chars_of, push_char, push_str, string_from, trim_chars, trim_seq, views};

verus! {

/// Selectable chunking strategy.
#[derive(Debug, Clone, Copy, PartialEq, Eq, Structural)]
pub enum ChunkingStrategy {
    /// [`FixedChunker`]: hard character windows with optional overlap.
    Fixed {
        /// Window size in characters.
        size: usize,
        /// Overlap between consecutive windows in characters.
        overlap: usize,
    },
    /// [`SentenceChunker`]: sentence-aware packing up to a character budget.
    Sentence {
        /// Maximum characters per chunk.
        max_chars: usize,
        /// Soft minimum; short trailing chunks are merged back when possible.
        min_chars: usize,
    },
    /// [`SlidingChunker`]: overlapping windows advanced by a stride.
    Sliding {
        /// Window size in characters.
        window: usize,
        /// Characters advanced between window starts.
        stride: usize,
    },
}

/// The name recorded for chunks made under `s`.
pub open spec fn strategy_name(s: ChunkingStrategy) -> Seq<char> {
    match s {
        ChunkingStrategy::Fixed { .. } => seq!['f', 'i', 'x', 'e', 'd'],
        ChunkingStrategy::Sentence { .. } => seq!['s', 'e', 'n', 't', 'e', 'n', 'c', 'e'],
        ChunkingStrategy::Sliding { .. } => seq!['s', 'l', 'i', 'd', 'i', 'n', 'g'],
    }
}

fn fixed_name() -> (s: &'static str)
    ensures
        s@ == strategy_name(ChunkingStrategy::Fixed { size: 0, overlap: 0 }),
{
    proof {
        reveal_strlit("fixed");
    }
    "fixed"
}

fn sentence_name() -> (s: &'static str)
    ensures
        s@ == strategy_name(ChunkingStrategy::Sentence { max_chars: 0, min_chars: 0 }),
{
    proof {
        reveal_strlit("sentence");
    }
    "sentence"
}

fn sliding_name() -> (s: &'static str)
    ensures
        s@ == strategy_name(ChunkingStrategy::Sliding { window: 0, stride: 0 }),
{
    proof {
        reveal_strlit("sliding");
    }
    "sliding"
}

impl ChunkingStrategy {
    /// Strategy name recorded in chunk metadata.
    pub fn name(&self) -> (s: &'static str)
        ensures
            s@ == strategy_name(*self),
    {
        match self {
            ChunkingStrategy::Fixed { .. } => fixed_name(),
            ChunkingStrategy::Sentence { .. } => sentence_name(),
            ChunkingStrategy::Sliding { .. } => sliding_name(),
        }
    }

    /// Builds the concrete chunker described by this strategy.
    pub fn build(&self) -> (c: StrategyChunker)
        ensures
            c.strategy_name() == strategy_name(*self),
            c.strategy() == *self,
    {
        match *self {
            ChunkingStrategy::Fixed { size, overlap } => StrategyChunker::Fixed(
                FixedChunker::new(size, overlap),
            ),
            ChunkingStrategy::Sentence { max_chars, min_chars } => StrategyChunker::Sentence(
                SentenceChunker::new(max_chars, min_chars),
            ),
            ChunkingStrategy::Sliding { window, stride } => StrategyChunker::Sliding(
                SlidingChunker::new(window, stride),
            ),
        }
    }
}

/// A single chunk with its full provenance metadata.
#[derive(Debug, Clone)]
pub struct ChunkRecord {
    /// Document the chunk came from.
    pub document_id: String,
    /// Stable chunk identifier (`{document_id}#{index:04}`).
    pub chunk_id: String,
    /// Zero-based position of the chunk inside its document.
    pub chunk_index: usize,
    /// Chunk text.
    pub text: String,
    /// Detected document language.
    pub language: Language,
    /// Name of the chunking strategy that produced this chunk.
    pub chunking_strategy: String,
    /// Provenance label of the source file.
    pub source: String,
}

/// The identifier of chunk `index` of document `id`.
pub open spec fn chunk_id_spec(id: Seq<char>, index: nat) -> Seq<char> {
    id + seq!['#'] + padded(index, 10, 4)
}

/// Renders the identifier of chunk `index` of document `document_id`.
pub fn chunk_id(document_id: &str, index: usize) -> (s: String)
    ensures
        s@ == chunk_id_spec(document_id@, index as nat),
{
    let mut s = String::new();
    push_str(&mut s, document_id);
    push_char(&mut s, '#');
    push_padded(&mut s, index as u128, 10, 4);
    s
}

/// Distinct (document, index) pairs get distinct chunk identifiers.
pub proof fn lemma_chunk_ids_unique(id1: Seq<char>, i1: nat, id2: Seq<char>, i2: nat)
    requires
        chunk_id_spec(id1, i1) == chunk_id_spec(id2, i2),
    ensures
        id1 == id2,
        i1 == i2,
{
    let p1 = padded(i1, 10, 4);
    let p2 = padded(i2, 10, 4);
    lemma_padded(i1, 10, 4);
    lemma_padded(i2, 10, 4);
    let s = chunk_id_spec(id1, i1);
    assert(s == id1 + seq!['#'] + p1);
    assert(s == id2 + seq!['#'] + p2);
    if p1.len() < p2.len() {
        let k = s.len() - p1.len() - 1;
        assert(s[k] == '#');
        assert(s[k] == p2[k - id2.len() - 1]);
        assert(p2[k - id2.len() - 1] == digit_char(digit_value(p2[k - id2.len() - 1])));
        assert(digit_value(p2[k - id2.len() - 1]) < 10);
        assert(false);
    } else if p2.len() < p1.len() {
        let k = s.len() - p2.len() - 1;
        assert(s[k] == '#');
        assert(s[k] == p1[k - id1.len() - 1]);
        assert(p1[k - id1.len() - 1] == digit_char(digit_value(p1[k - id1.len() - 1])));
        assert(digit_value(p1[k - id1.len() - 1]) < 10);
        assert(false);
    } else {
        assert(id1 =~= s.subrange(0, id1.len() as int));
        assert(id2 =~= s.subrange(0, id2.len() as int));
        assert(p1 =~= s.subrange(s.len() - p1.len(), s.len() as int));
        assert(p2 =~= s.subrange(s.len() - p2.len(), s.len() as int));
        crate::numfmt::lemma_padded_injective(i1, i2, 10, 4);
    }
}

/// The records made of the chunk texts `texts` of `doc` under a strategy
/// called `strategy`.
pub open spec fn records_of(
    r: Seq<ChunkRecord>,
    doc: PreprocessedDocument,
    texts: Seq<Seq<char>>,
    strategy: Seq<char>,
) -> bool {
    &&& r.len() == texts.len()
    &&& forall|i: int|
        0 <= i < r.len() ==> {
            let rec = #[trigger] r[i];
            &&& rec.document_id@ == doc.id@
            &&& rec.chunk_id@ == chunk_id_spec(doc.id@, i as nat)
            &&& rec.chunk_index == i
            &&& rec.text@ == texts[i]
            &&& rec.language == doc.language
            &&& rec.chunking_strategy@ == strategy
            &&& rec.source@ == doc.source@
        }
}

fn copy_string(s: &String) -> (t: String)
    ensures
        t@ == s@,
{
    string_from(chars_of(s.as_str()).as_slice())
}

fn attribute_chunks(doc: &PreprocessedDocument, texts: Vec<String>, strategy: &str) -> (r: Vec<
    ChunkRecord,
>)
    ensures
        records_of(r@, *doc, views(texts@), strategy@),
{
    let mut out: Vec<ChunkRecord> = Vec::new();
    let n = texts.len();
    let mut i: usize = 0;
    while i < n
        invariant
            n == texts@.len(),
            i <= n,
            records_of(out@, *doc, views(texts@).take(i as int), strategy@),
        decreases n - i,
    {
        let rec = ChunkRecord {
            document_id: copy_string(&doc.id),
            chunk_id: chunk_id(doc.id.as_str(), i),
            chunk_index: i,
            text: copy_string(&texts[i]),
            language: doc.language,
            chunking_strategy: string_from(chars_of(strategy).as_slice()),
            source: copy_string(&doc.source),
        };
        out.push(rec);
        i += 1;
    }
    assert(views(texts@).take(n as int) =~= views(texts@));
    out
}

/// The windows of `chars` starting at `start`: each `size` chars long (the
/// last one possibly shorter), consecutive starts `step` apart, stopping at
/// the first window that reaches the end.
pub open spec fn windows(chars: Seq<char>, start: nat, size: nat, step: nat) -> Seq<Seq<char>>
    decreases (if start < chars.len() {
        chars.len() - start
    } else {
        0
    }),
{
    if start >= chars.len() || size == 0 || step == 0 {
        seq![]
    } else {
        let end: nat = if start + size < chars.len() {
            start + size
        } else {
            chars.len()
        };
        let w = chars.subrange(start as int, end as int);
        if end == chars.len() {
            seq![w]
        } else {
            seq![w] + windows(chars, start + step, size, step)
        }
    }
}

/// The characters of `chars` from `from` up to `to`.
fn copy_range(chars: &[char], from: usize, to: usize) -> (out: Vec<char>)
    requires
        from <= to <= chars@.len(),
    ensures
        out@ == chars@.subrange(from as int, to as int),
{
    let mut out: Vec<char> = Vec::new();
    let mut k = from;
    while k < to
        invariant
            from <= k <= to,
            to <= chars@.len(),
            out@ == chars@.subrange(from as int, k as int),
        decreases to - k,
    {
        out.push(chars[k]);
        assert(chars@.subrange(from as int, k + 1) =~= chars@.subrange(from as int, k as int).push(
            chars@[k as int],
        ));
        k += 1;
    }
    out
}

/// The windows of `chars` as strings.
fn window_split(chars: &[char], size: usize, step: usize) -> (out: Vec<String>)
    requires
        size >= 1,
        step >= 1,
    ensures
        views(out@) == windows(chars@, 0, size as nat, step as nat),
{
    let n = chars.len();
    let mut out: Vec<String> = Vec::new();
    let mut start: usize = 0;
    while start < n
        invariant
            n == chars@.len(),
            size >= 1,
            step >= 1,
            start <= n,
            views(out@) + windows(chars@, start as nat, size as nat, step as nat) == windows(
                chars@,
                0,
                size as nat,
                step as nat,
            ),
        decreases n - start,
    {
        let end = if size >= n - start {
            n
        } else {
            start + size
        };
        let piece = copy_range(chars, start, end);
        let ghost before = out@;
        let ghost w = chars@.subrange(start as int, end as int);
        out.push(string_from(piece.as_slice()));
        assert(views(out@) =~= views(before).push(w));
        if end == n {
            assert(windows(chars@, start as nat, size as nat, step as nat) =~= seq![w]);
            assert(windows(chars@, n as nat, size as nat, step as nat) =~= Seq::<Seq<char>>::empty());
            assert(views(out@) + windows(chars@, n as nat, size as nat, step as nat) =~= views(
                before,
            ) + windows(chars@, start as nat, size as nat, step as nat));
            start = n;
        } else {
            let ghost rest = windows(chars@, (start + step) as nat, size as nat, step as nat);
            assert(windows(chars@, start as nat, size as nat, step as nat) =~= seq![w] + rest);
            assert(views(out@) + rest =~= views(before) + (seq![w] + rest));
            if step >= n - start {
                assert(rest =~= Seq::<Seq<char>>::empty());
                assert(windows(chars@, n as nat, size as nat, step as nat) =~= Seq::<
                    Seq<char>,
                >::empty());
                start = n;
            } else {
                start = start + step;
            }
        }
    }
    assert(windows(chars@, start as nat, size as nat, step as nat) =~= Seq::<Seq<char>>::empty());
    assert(views(out@) + Seq::<Seq<char>>::empty() =~= views(out@));
    out
}

/// What [`FixedChunker`] makes of `text`.
pub open spec fn fixed_split(text: Seq<char>, size: nat, overlap: nat) -> Seq<Seq<char>> {
    if text.len() == 0 {
        seq![]
    } else if size == 0 {
        seq![text]
    } else {
        let step: nat = if size > overlap {
            (size - overlap) as nat
        } else {
            1
        };
        windows(text, 0, size, step)
    }
}

/// What [`SlidingChunker`] makes of `text`.
pub open spec fn sliding_split(text: Seq<char>, window: nat, stride: nat) -> Seq<Seq<char>> {
    if text.len() == 0 {
        seq![]
    } else {
        windows(
            text,
            0,
            if window == 0 {
                1
            } else {
                window
            },
            if stride == 0 {
                1
            } else {
                stride
            },
        )
    }
}

/// Splits documents into chunks.
pub trait Chunker {
    /// The strategy name recorded in every chunk's metadata.
    spec fn strategy_name(&self) -> Seq<char>;

    /// The chunk texts made of `text`.
    spec fn split_spec(&self, text: Seq<char>) -> Seq<Seq<char>>;

    /// Strategy name; recorded in every chunk's metadata.
    fn name(&self) -> (s: &'static str)
        ensures
            s@ == self.strategy_name(),
    ;

    /// Splits raw text into ordered chunks. Never returns an empty vec for
    /// non-empty input.
    fn split(&self, text: &str) -> (chunks: Vec<String>)
        ensures
            views(chunks@) == self.split_spec(text@),
            text@.len() > 0 ==> chunks@.len() > 0,
    ;

    /// Splits `document` and attributes every chunk to it.
    fn chunk_document(&self, document: &PreprocessedDocument) -> (r: Vec<ChunkRecord>)
        ensures
            records_of(r@, *document, self.split_spec(document.text@), self.strategy_name()),
    {
        let texts = self.split(document.text.as_str());
        let name = self.name();
        attribute_chunks(document, texts, name)
    }
}

/// Hard character-window chunker with optional overlap.
#[derive(Debug, Clone, Copy, PartialEq, Eq, Structural)]
pub struct FixedChunker {
    size: usize,
    overlap: usize,
}

impl FixedChunker {
    /// Creates a fixed chunker; a zero size yields the whole text as one
    /// chunk, and an overlap at or above the size advances one char at a
    /// time, so configuration mistakes cannot wedge ingestion.
    pub fn new(size: usize, overlap: usize) -> (c: FixedChunker)
        ensures
            c.size() == size,
            c.overlap() == overlap,
    {
        FixedChunker { size, overlap }
    }

    /// Window size in characters.
    pub closed spec fn size(&self) -> nat {
        self.size as nat
    }

    /// Overlap between consecutive windows in characters.
    pub closed spec fn overlap(&self) -> nat {
        self.overlap as nat
    }
}

impl Chunker for FixedChunker {
    open spec fn strategy_name(&self) -> Seq<char> {
        strategy_name(ChunkingStrategy::Fixed { size: 0, overlap: 0 })
    }

    open spec fn split_spec(&self, text: Seq<char>) -> Seq<Seq<char>> {
        fixed_split(text, self.size(), self.overlap())
    }

    fn name(&self) -> (s: &'static str) {
        fixed_name()
    }

    fn split(&self, text: &str) -> (chunks: Vec<String>) {
        proof {
            lemma_fixed_split_shape(text@, self.size(), self.overlap());
        }
        let chars = chars_of(text);
        if chars.len() == 0 {
            return Vec::new();
        }
        if self.size == 0 {
            let mut v: Vec<String> = Vec::new();
            v.push(string_from(chars.as_slice()));
            assert(views(v@) =~= seq![text@]);
            return v;
        }
        let step = if self.size > self.overlap {
            self.size - self.overlap
        } else {
            1
        };
        window_split(chars.as_slice(), self.size, step)
    }
}

/// Overlapping sliding-window chunker advancing by a fixed stride.
#[derive(Debug, Clone, Copy, PartialEq, Eq, Structural)]
pub struct SlidingChunker {
    window: usize,
    stride: usize,
}

impl SlidingChunker {
    /// Creates a sliding chunker; a zero window or stride counts as one.
    pub fn new(window: usize, stride: usize) -> (c: SlidingChunker)
        ensures
            c.window() == window,
            c.stride() == stride,
    {
        SlidingChunker { window, stride }
    }

    /// Window size in characters.
    pub closed spec fn window(&self) -> nat {
        self.window as nat
    }

    /// Characters advanced between window starts.
    pub closed spec fn stride(&self) -> nat {
        self.stride as nat
    }
}

impl Chunker for SlidingChunker {
    open spec fn strategy_name(&self) -> Seq<char> {
        strategy_name(ChunkingStrategy::Sliding { window: 0, stride: 0 })
    }

    open spec fn split_spec(&self, text: Seq<char>) -> Seq<Seq<char>> {
        sliding_split(text, self.window(), self.stride())
    }

    fn name(&self) -> (s: &'static str) {
        sliding_name()
    }

    fn split(&self, text: &str) -> (chunks: Vec<String>) {
        proof {
            lemma_sliding_split_shape(text@, self.window(), self.stride());
        }
        let chars = chars_of(text);
        if chars.len() == 0 {
            return Vec::new();
        }
        let window = if self.window == 0 {
            1
        } else {
            self.window
        };
        let stride = if self.stride == 0 {
            1
        } else {
            self.stride
        };
        window_split(chars.as_slice(), window, stride)
    }
}

/// Sentence boundaries recognized across the supported languages: `.`, `!`,
/// `?`, the Devanagari danda and double danda, and newline.
pub open spec fn is_terminator(c: char) -> bool {
    c == '.' || c == '!' || c == '?' || c == '\u{0964}' || c == '\u{0965}' || c == '\n'
}

fn is_terminator_exec(c: char) -> (r: bool)
    ensures
        r == is_terminator(c),
{
    c == '.' || c == '!' || c == '?' || c == '\u{0964}' || c == '\u{0965}' || c == '\n'
}

/// The sentences completed within `s`, and the unterminated rest.
pub open spec fn sentence_scan(s: Seq<char>) -> (Seq<Seq<char>>, Seq<char>)
    decreases s.len(),
{
    if s.len() == 0 {
        (seq![], seq![])
    } else {
        let (done, cur) = sentence_scan(s.drop_last());
        let cur2 = cur.push(s.last());
        if is_terminator(s.last()) {
            (
                if trim_seq(cur2).len() > 0 {
                    done.push(trim_seq(cur2))
                } else {
                    done
                },
                seq![],
            )
        } else {
            (done, cur2)
        }
    }
}

/// The trimmed, non-blank sentences of `s`, in order; a sentence runs up to
/// and including its terminator.
pub open spec fn split_sentences_spec(s: Seq<char>) -> Seq<Seq<char>> {
    let (done, cur) = sentence_scan(s);
    if trim_seq(cur).len() > 0 {
        done.push(trim_seq(cur))
    } else {
        done
    }
}

/// No char of `x` before its last satisfies `p`.
pub open spec fn only_last_may_be(x: Seq<char>, p: spec_fn(char) -> bool) -> bool {
    forall|i: int| 0 <= i < x.len() - 1 ==> !p(#[trigger] x[i])
}

proof fn lemma_trim_keeps_only_last(x: Seq<char>, p: spec_fn(char) -> bool)
    requires
        only_last_may_be(x, p),
    ensures
        only_last_may_be(trim_seq(x), p),
{
    lemma_trim_start_keeps(x, p);
    lemma_trim_end_keeps(crate::text::trim_start_seq(x), p);
}

proof fn lemma_trim_start_keeps(x: Seq<char>, p: spec_fn(char) -> bool)
    requires
        only_last_may_be(x, p),
    ensures
        only_last_may_be(crate::text::trim_start_seq(x), p),
    decreases x.len(),
{
    if x.len() > 0 && crate::text::is_white_space(x[0]) {
        let y = x.drop_first();
        assert forall|i: int| 0 <= i < y.len() - 1 implies !p(#[trigger] y[i]) by {
            assert(y[i] == x[i + 1]);
        }
        lemma_trim_start_keeps(y, p);
    }
}

proof fn lemma_trim_end_keeps(x: Seq<char>, p: spec_fn(char) -> bool)
    requires
        only_last_may_be(x, p),
    ensures
        only_last_may_be(crate::text::trim_end_seq(x), p),
    decreases x.len(),
{
    if x.len() > 0 && crate::text::is_white_space(x.last()) {
        let y = x.drop_last();
        assert forall|i: int| 0 <= i < y.len() - 1 implies !p(#[trigger] y[i]) by {
            assert(y[i] == x[i]);
        }
        lemma_trim_end_keeps(y, p);
    }
}

/// The sentence terminators: `.`, `!`, `?`, the danda U+0964, the double
/// danda U+0965, and newline, as a predicate.
spec fn ends_sentence(c: char) -> bool {
    c == '.' || c == '!' || c == '?' || c == '\u{0964}' || c == '\u{0965}' || c == '\n'
}

proof fn lemma_scan_sentences_end_at_first_stop(s: Seq<char>)
    ensures
        forall|k: int|
            0 <= k < sentence_scan(s).0.len() ==> only_last_may_be(
                #[trigger] sentence_scan(s).0[k],
                |c: char| ends_sentence(c),
            ),
        forall|i: int|
            0 <= i < sentence_scan(s).1.len() ==> !ends_sentence(#[trigger] sentence_scan(s).1[i]),
    decreases s.len(),
{
    if s.len() > 0 {
        lemma_scan_sentences_end_at_first_stop(s.drop_last());
        let (done, cur) = sentence_scan(s.drop_last());
        let cur2 = cur.push(s.last());
        assert forall|i: int| 0 <= i < cur2.len() - 1 implies !(|c: char| ends_sentence(c))(
            #[trigger] cur2[i],
        ) by {
            assert(cur2[i] == cur[i]);
        }
        if is_terminator(s.last()) {
            lemma_trim_keeps_only_last(cur2, |c: char| ends_sentence(c));
            if trim_seq(cur2).len() > 0 {
                let d2 = done.push(trim_seq(cur2));
                assert forall|k: int| 0 <= k < d2.len() implies only_last_may_be(
                    #[trigger] d2[k],
                    |c: char| ends_sentence(c),
                ) by {
                    if k < done.len() {
                        assert(d2[k] == done[k]);
                    }
                }
            }
        } else {
            assert forall|i: int| 0 <= i < cur2.len() implies !ends_sentence(#[trigger] cur2[i]) by {
                if i < cur.len() {
                    assert(cur2[i] == cur[i]);
                }
            }
        }
    }
}

/// Every terminator ends its sentence: no sentence the splitter produces
/// holds a `.`, `!`, `?`, danda (U+0964), double danda (U+0965) or newline
/// before its last char, so each sentence ends at its first terminator.
pub proof fn lemma_sentences_end_at_first_terminator(s: Seq<char>)
    ensures
        forall|k: int|
            0 <= k < split_sentences_spec(s).len() ==> only_last_may_be(
                #[trigger] split_sentences_spec(s)[k],
                |c: char|
                    c == '.' || c == '!' || c == '?' || c == '\u{0964}' || c == '\u{0965}' || c
                        == '\n',
            ),
{
    lemma_scan_sentences_end_at_first_stop(s);
    let (done, cur) = sentence_scan(s);
    assert forall|i: int| 0 <= i < cur.len() - 1 implies !(|c: char| ends_sentence(c))(
        #[trigger] cur[i],
    ) by {}
    lemma_trim_keeps_only_last(cur, |c: char| ends_sentence(c));
    let out = split_sentences_spec(s);
    assert forall|k: int| 0 <= k < out.len() implies only_last_may_be(
        #[trigger] out[k],
        |c: char| c == '.' || c == '!' || c == '?' || c == '\u{0964}' || c == '\u{0965}' || c == '\n',
    ) by {
        if k < done.len() {
            assert(out[k] == done[k]);
        }
        assert(only_last_may_be(out[k], |c: char| ends_sentence(c)));
    }
}

proof fn lemma_scan_sentence_count(s: Seq<char>)
    ensures
        sentence_scan(s).0.len() <= crate::text::count_where(s, |c: char| ends_sentence(c)),
    decreases s.len(),
{
    if s.len() > 0 {
        lemma_scan_sentence_count(s.drop_last());
    }
}

/// Only terminators split: the splitter produces at most one sentence more
/// than the text holds `.`, `!`, `?`, danda, double danda and newline
/// chars.
pub proof fn lemma_sentences_split_only_at_terminators(s: Seq<char>)
    ensures
        split_sentences_spec(s).len() <= crate::text::count_where(
            s,
            |c: char|
                c == '.' || c == '!' || c == '?' || c == '\u{0964}' || c == '\u{0965}' || c == '\n',
        ) + 1,
{
    lemma_scan_sentence_count(s);
    assert(crate::text::count_where(s, |c: char| ends_sentence(c)) == crate::text::count_where(
        s,
        |c: char| c == '.' || c == '!' || c == '?' || c == '\u{0964}' || c == '\u{0965}' || c == '\n',
    )) by {
        assert((|c: char| ends_sentence(c)) =~= (|c: char|
            c == '.' || c == '!' || c == '?' || c == '\u{0964}' || c == '\u{0965}' || c == '\n'));
    }
}

/// The char views of a sequence of char vectors.
pub open spec fn cviews(v: Seq<Vec<char>>) -> Seq<Seq<char>> {
    v.map_values(|x: Vec<char>| x@)
}

/// Splits `chars` into its trimmed, non-blank sentences.
fn split_sentences(chars: &[char]) -> (out: Vec<Vec<char>>)
    ensures
        cviews(out@) == split_sentences_spec(chars@),
{
    let n = chars.len();
    let mut sentences: Vec<Vec<char>> = Vec::new();
    let mut current: Vec<char> = Vec::new();
    let mut i: usize = 0;
    while i < n
        invariant
            n == chars@.len(),
            i <= n,
            (cviews(sentences@), current@) == sentence_scan(chars@.take(i as int)),
        decreases n - i,
    {
        let c = chars[i];
        assert(chars@.take(i + 1).drop_last() =~= chars@.take(i as int));
        assert(chars@.take(i + 1).last() == c);
        current.push(c);
        if is_terminator_exec(c) {
            let trimmed = trim_chars(current.as_slice());
            if trimmed.len() > 0 {
                let ghost before = sentences@;
                sentences.push(trimmed);
                assert(cviews(sentences@) =~= cviews(before).push(trim_seq(current@)));
            }
            current = Vec::new();
        }
        i += 1;
    }
    assert(chars@.take(n as int) =~= chars@);
    let trimmed = trim_chars(current.as_slice());
    if trimmed.len() > 0 {
        let ghost before = sentences@;
        sentences.push(trimmed);
        assert(cviews(sentences@) =~= cviews(before).push(trim_seq(current@)));
    }
    sentences
}

/// One packing step: adds `sentence` to the chunks finished so far and the
/// chunk being filled.
pub open spec fn pack_step(st: (Seq<Seq<char>>, Seq<char>), sentence: Seq<char>, max: nat) -> (
    Seq<Seq<char>>,
    Seq<char>,
) {
    let (chunks, current) = st;
    if sentence.len() > max {
        let chunks1 = if current.len() > 0 {
            chunks.push(trim_seq(current))
        } else {
            chunks
        };
        (chunks1.push(sentence), seq![])
    } else {
        let flush = current.len() + sentence.len() + 1 > max;
        let chunks1 = if flush {
            chunks.push(trim_seq(current))
        } else {
            chunks
        };
        let cur1 = if flush {
            Seq::<char>::empty()
        } else {
            current
        };
        let cur2 = if cur1.len() > 0 {
            cur1.push(' ')
        } else {
            cur1
        };
        (chunks1, cur2 + sentence)
    }
}

/// Packing over all of `sentences`, before the last chunk is flushed.
pub open spec fn pack_fold(sentences: Seq<Seq<char>>, max: nat) -> (Seq<Seq<char>>, Seq<char>)
    decreases sentences.len(),
{
    if sentences.len() == 0 {
        (seq![], seq![])
    } else {
        pack_step(pack_fold(sentences.drop_last(), max), sentences.last(), max)
    }
}

/// Sentences packed into chunks of at most `max` chars (a single longer
/// sentence stays whole), joined by single spaces.
pub open spec fn packed(sentences: Seq<Seq<char>>, max: nat) -> Seq<Seq<char>> {
    let (chunks, current) = pack_fold(sentences, max);
    if trim_seq(current).len() > 0 {
        chunks.push(trim_seq(current))
    } else {
        chunks
    }
}

/// One merging step: a chunk joins the previous one when that one is below
/// `min` chars and the two together stay below twice `max`.
pub open spec fn merge_step(merged: Seq<Seq<char>>, chunk: Seq<char>, min: nat, max: nat) -> Seq<
    Seq<char>,
> {
    if merged.len() > 0 && merged.last().len() < min && merged.last().len() + chunk.len() < max
        * 2 {
        merged.drop_last().push(merged.last().push(' ') + chunk)
    } else {
        merged.push(chunk)
    }
}

/// Merging over all of `chunks`.
pub open spec fn merge_fold(chunks: Seq<Seq<char>>, min: nat, max: nat) -> Seq<Seq<char>>
    decreases chunks.len(),
{
    if chunks.len() == 0 {
        seq![]
    } else {
        merge_step(merge_fold(chunks.drop_last(), min, max), chunks.last(), min, max)
    }
}

/// What [`SentenceChunker`] makes of `text`: the packed and merged
/// sentences, or the text itself as the one chunk when it holds no
/// sentence (white space only).
pub open spec fn sentence_split(text: Seq<char>, max_chars: nat, min_chars: nat) -> Seq<
    Seq<char>,
> {
    if text.len() == 0 {
        seq![]
    } else {
        let max: nat = if max_chars == 0 {
            1
        } else {
            max_chars
        };
        let merged = merge_fold(packed(split_sentences_spec(text), max), min_chars, max);
        if merged.len() == 0 {
            seq![text]
        } else {
            merged
        }
    }
}

fn append_chars(v: &mut Vec<char>, t: &[char])
    ensures
        final(v)@ == old(v)@ + t@,
{
    let n = t.len();
    let mut i: usize = 0;
    while i < n
        invariant
            n == t@.len(),
            i <= n,
            v@ == old(v)@ + t@.take(i as int),
        decreases n - i,
    {
        v.push(t[i]);
        assert(t@.take(i + 1) =~= t@.take(i as int).push(t@[i as int]));
        i += 1;
    }
    assert(t@.take(n as int) =~= t@);
}

fn pack(sentences: Vec<Vec<char>>, max: usize) -> (out: Vec<Vec<char>>)
    requires
        max >= 1,
    ensures
        cviews(out@) == packed(cviews(sentences@), max as nat),
{
    let n = sentences.len();
    let mut chunks: Vec<Vec<char>> = Vec::new();
    let mut current: Vec<char> = Vec::new();
    let mut i: usize = 0;
    while i < n
        invariant
            n == sentences@.len(),
            i <= n,
            (cviews(chunks@), current@) == pack_fold(cviews(sentences@).take(i as int), max as nat),
        decreases n - i,
    {
        let sentence = &sentences[i];
        let ghost s = sentence@;
        assert(cviews(sentences@).take(i + 1).drop_last() =~= cviews(sentences@).take(i as int));
        assert(cviews(sentences@).take(i + 1).last() == s);
        let ghost before = cviews(chunks@);
        let ghost cur0 = current@;
        if sentence.len() > max {
            if current.len() > 0 {
                chunks.push(trim_chars(current.as_slice()));
                current = Vec::new();
            }
            let mut copy: Vec<char> = Vec::new();
            append_chars(&mut copy, sentence.as_slice());
            chunks.push(copy);
            assert(cviews(chunks@) =~= (if cur0.len() > 0 {
                before.push(trim_seq(cur0))
            } else {
                before
            }).push(s));
            current = Vec::new();
        } else {
            let flush = (current.len() as u128) + (sentence.len() as u128) + 1 > (max as u128);
            if flush {
                chunks.push(trim_chars(current.as_slice()));
                assert(cviews(chunks@) =~= before.push(trim_seq(cur0)));
                current = Vec::new();
            }
            if current.len() > 0 {
                current.push(' ');
            }
            append_chars(&mut current, sentence.as_slice());
        }
        i += 1;
    }
    assert(cviews(sentences@).take(n as int) =~= cviews(sentences@));
    let trimmed = trim_chars(current.as_slice());
    if trimmed.len() > 0 {
        let ghost before = cviews(chunks@);
        chunks.push(trimmed);
        assert(cviews(chunks@) =~= before.push(trim_seq(current@)));
    }
    chunks
}

fn merge(chunks: Vec<Vec<char>>, min: usize, max: usize) -> (out: Vec<Vec<char>>)
    ensures
        cviews(out@) == merge_fold(cviews(chunks@), min as nat, max as nat),
{
    let n = chunks.len();
    let mut merged: Vec<Vec<char>> = Vec::new();
    let mut i: usize = 0;
    while i < n
        invariant
            n == chunks@.len(),
            i <= n,
            cviews(merged@) == merge_fold(cviews(chunks@).take(i as int), min as nat, max as nat),
        decreases n - i,
    {
        let chunk = &chunks[i];
        let ghost c = chunk@;
        assert(cviews(chunks@).take(i + 1).drop_last() =~= cviews(chunks@).take(i as int));
        assert(cviews(chunks@).take(i + 1).last() == c);
        let ghost before = cviews(merged@);
        let m = merged.len();
        let joins = if m > 0 {
            let last_len = merged[m - 1].len();
            last_len < min && (last_len as u128) + (chunk.len() as u128) < (max as u128) * 2
        } else {
            false
        };
        if joins {
            let mut last = merged.pop().unwrap();
            assert(before.drop_last() =~= cviews(merged@));
            last.push(' ');
            append_chars(&mut last, chunk.as_slice());
            merged.push(last);
            assert(cviews(merged@) =~= before.drop_last().push(before.last().push(' ') + c));
        } else {
            let mut copy: Vec<char> = Vec::new();
            append_chars(&mut copy, chunk.as_slice());
            merged.push(copy);
            assert(cviews(merged@) =~= before.push(c));
        }
        i += 1;
    }
    assert(cviews(chunks@).take(n as int) =~= cviews(chunks@));
    merged
}

/// Sentence-aware chunker: packs whole sentences (splitting on `.`, `!`,
/// `?`, the Devanagari danda, and newlines) into chunks under `max_chars`,
/// merging tiny trailing chunks below `min_chars`.
#[derive(Debug, Clone, Copy, PartialEq, Eq, Structural)]
pub struct SentenceChunker {
    max_chars: usize,
    min_chars: usize,
}

impl SentenceChunker {
    /// Creates a sentence chunker; a zero budget counts as one char.
    pub fn new(max_chars: usize, min_chars: usize) -> (c: SentenceChunker)
        ensures
            c.max_chars() == max_chars,
            c.min_chars() == min_chars,
    {
        SentenceChunker { max_chars, min_chars }
    }

    /// Maximum characters per chunk.
    pub closed spec fn max_chars(&self) -> nat {
        self.max_chars as nat
    }

    /// Soft minimum characters per chunk.
    pub closed spec fn min_chars(&self) -> nat {
        self.min_chars as nat
    }
}

impl Chunker for SentenceChunker {
    open spec fn strategy_name(&self) -> Seq<char> {
        strategy_name(ChunkingStrategy::Sentence { max_chars: 0, min_chars: 0 })
    }

    open spec fn split_spec(&self, text: Seq<char>) -> Seq<Seq<char>> {
        sentence_split(text, self.max_chars(), self.min_chars())
    }

    fn name(&self) -> (s: &'static str) {
        sentence_name()
    }

    fn split(&self, text: &str) -> (chunks: Vec<String>) {
        let chars = chars_of(text);
        if chars.len() == 0 {
            return Vec::new();
        }
        let max = if self.max_chars == 0 {
            1
        } else {
            self.max_chars
        };
        let sentences = split_sentences(chars.as_slice());
        let packed_chunks = pack(sentences, max);
        let merged = merge(packed_chunks, self.min_chars, max);
        if merged.len() == 0 {
            let mut whole: Vec<String> = Vec::new();
            whole.push(string_from(chars.as_slice()));
            assert(views(whole@) =~= seq![text@]);
            return whole;
        }
        let mut out: Vec<String> = Vec::new();
        let n = merged.len();
        let mut i: usize = 0;
        while i < n
            invariant
                n == merged@.len(),
                i <= n,
                views(out@) == cviews(merged@).take(i as int),
            decreases n - i,
        {
            let ghost before = views(out@);
            out.push(string_from(merged[i].as_slice()));
            assert(views(out@) =~= before.push(cviews(merged@)[i as int]));
            assert(cviews(merged@).take(i + 1) =~= cviews(merged@).take(i as int).push(
                cviews(merged@)[i as int],
            ));
            i += 1;
        }
        assert(cviews(merged@).take(n as int) =~= cviews(merged@));
        out
    }
}

/// The chunker a [`ChunkingStrategy`] builds.
#[derive(Debug, Clone, Copy, PartialEq, Eq, Structural)]
pub enum StrategyChunker {
    /// Fixed windows.
    Fixed(FixedChunker),
    /// Sentence packing.
    Sentence(SentenceChunker),
    /// Sliding windows.
    Sliding(SlidingChunker),
}

impl StrategyChunker {
    /// The strategy this chunker carries out.
    pub open spec fn strategy(&self) -> ChunkingStrategy {
        match *self {
            StrategyChunker::Fixed(c) => ChunkingStrategy::Fixed {
                size: c.size() as usize,
                overlap: c.overlap() as usize,
            },
            StrategyChunker::Sentence(c) => ChunkingStrategy::Sentence {
                max_chars: c.max_chars() as usize,
                min_chars: c.min_chars() as usize,
            },
            StrategyChunker::Sliding(c) => ChunkingStrategy::Sliding {
                window: c.window() as usize,
                stride: c.stride() as usize,
            },
        }
    }
}

impl Chunker for StrategyChunker {
    open spec fn strategy_name(&self) -> Seq<char> {
        strategy_name(self.strategy())
    }

    open spec fn split_spec(&self, text: Seq<char>) -> Seq<Seq<char>> {
        match *self {
            StrategyChunker::Fixed(c) => c.split_spec(text),
            StrategyChunker::Sentence(c) => c.split_spec(text),
            StrategyChunker::Sliding(c) => c.split_spec(text),
        }
    }

    fn name(&self) -> (s: &'static str) {
        match self {
            StrategyChunker::Fixed(c) => c.name(),
            StrategyChunker::Sentence(c) => c.name(),
            StrategyChunker::Sliding(c) => c.name(),
        }
    }

    fn split(&self, text: &str) -> (chunks: Vec<String>) {
        match self {
            StrategyChunker::Fixed(c) => c.split(text),
            StrategyChunker::Sentence(c) => c.split(text),
            StrategyChunker::Sliding(c) => c.split(text),
        }
    }
}

/// The window of `chars` that starts at `start`: `size` chars, or fewer at
/// the end.
pub open spec fn window_at(chars: Seq<char>, start: nat, size: nat) -> Seq<char> {
    let end: nat = if start + size < chars.len() {
        start + size
    } else {
        chars.len()
    };
    chars.subrange(start as int, end as int)
}

/// Position `p` lies inside one of the windows `w`, whose starts are `step`
/// apart from `start` on.
pub open spec fn covered(w: Seq<Seq<char>>, start: nat, step: nat, p: int) -> bool {
    exists|k: int|
        0 <= k < w.len() && start + k * step <= p && p < start + k * step + (#[trigger] w[k]).len()
}

/// Window `k` of the split from `start` begins inside the text, `k * step`
/// chars after `start`.
pub open spec fn window_k(chars: Seq<char>, start: nat, size: nat, step: nat, k: int) -> bool {
    start + k * step < chars.len() && windows(chars, start, size, step)[k] == window_at(
        chars,
        (start + k * step) as nat,
        size,
    )
}

/// Window `k` of the split from `start` holds a full `size` chars.
pub open spec fn full_window_k(chars: Seq<char>, start: nat, size: nat, step: nat, k: int) -> bool {
    start + k * step + size < chars.len() && windows(chars, start, size, step)[k].len() == size
}

proof fn lemma_step_mul(k: int, step: int)
    requires
        k >= 1,
    ensures
        (k - 1) * step + step == k * step,
{
    assert((k - 1) * step + step == k * step) by (nonlinear_arith);
}

/// The shape of a window split: window `k` starts `k * step` chars after
/// `start` and holds `size` chars (the last one fewer, ending exactly at
/// the end of the text); there is at least one window when `start` is
/// inside the text; and when `step <= size` every position from `start` on
/// lies in some window.
pub proof fn lemma_windows_shape(chars: Seq<char>, start: nat, size: nat, step: nat)
    requires
        size >= 1,
        step >= 1,
    ensures
        (windows(chars, start, size, step).len() > 0) == (start < chars.len()),
        forall|k: int|
            0 <= k < windows(chars, start, size, step).len() ==> #[trigger] window_k(
                chars,
                start,
                size,
                step,
                k,
            ),
        forall|k: int|
            0 <= k < windows(chars, start, size, step).len() - 1 ==> #[trigger] full_window_k(
                chars,
                start,
                size,
                step,
                k,
            ),
        step <= size && windows(chars, start, size, step).len() > 0 ==> start + (windows(
            chars,
            start,
            size,
            step,
        ).len() - 1) * step + size >= chars.len(),
        step <= size ==> forall|p: int|
            start <= p < chars.len() ==> covered(windows(chars, start, size, step), start, step, p),
    decreases (if start < chars.len() {
        chars.len() - start
    } else {
        0
    }),
{
    let w = windows(chars, start, size, step);
    if start >= chars.len() {
        assert(w.len() == 0);
    } else {
        let end: nat = if start + size < chars.len() {
            start + size
        } else {
            chars.len()
        };
        assert(w[0] == window_at(chars, start, size));
        if end == chars.len() {
            assert(w.len() == 1);
            assert(0 * step == 0) by (nonlinear_arith);
            assert((w.len() - 1) * step == 0) by (nonlinear_arith)
                requires
                    w.len() == 1,
            ;
            assert forall|k: int| 0 <= k < w.len() implies #[trigger] window_k(
                chars,
                start,
                size,
                step,
                k,
            ) by {
                assert(k == 0);
            }
            if step <= size {
                assert forall|p: int| start <= p < chars.len() implies covered(w, start, step, p) by {
                    assert(start + 0 * step <= p && p < start + 0 * step + w[0].len());
                }
            }
        } else {
            let next: nat = start + step;
            let rest = windows(chars, next, size, step);
            lemma_windows_shape(chars, next, size, step);
            assert(w == seq![window_at(chars, start, size)] + rest);
            assert(0 * step == 0) by (nonlinear_arith);
            assert forall|k: int| 0 <= k < w.len() implies #[trigger] window_k(
                chars,
                start,
                size,
                step,
                k,
            ) by {
                if k > 0 {
                    lemma_step_mul(k, step as int);
                    assert(window_k(chars, next, size, step, k - 1));
                    assert(w[k] == rest[k - 1]);
                    assert(next + (k - 1) * step == start + k * step);
                } else {
                    assert(k * step == 0) by (nonlinear_arith)
                        requires
                            k == 0,
                    ;
                }
            }
            assert forall|k: int| 0 <= k < w.len() - 1 implies #[trigger] full_window_k(
                chars,
                start,
                size,
                step,
                k,
            ) by {
                if k > 0 {
                    lemma_step_mul(k, step as int);
                    assert(full_window_k(chars, next, size, step, k - 1));
                    assert(w[k] == rest[k - 1]);
                    assert(next + (k - 1) * step == start + k * step);
                } else {
                    assert(k * step == 0) by (nonlinear_arith)
                        requires
                            k == 0,
                    ;
                }
            }
            assert(w.len() == rest.len() + 1);
            if rest.len() > 0 {
                lemma_step_mul(w.len() - 1, step as int);
                assert(next + (rest.len() - 1) * step == start + (w.len() - 1) * step);
            }
            if step <= size {
                assert forall|p: int| start <= p < chars.len() implies covered(w, start, step, p) by {
                    if p < start + size {
                        assert(start + 0 * step <= p && p < start + 0 * step + w[0].len());
                    } else {
                        assert(covered(rest, next, step, p));
                        let j = choose|j: int|
                            0 <= j < rest.len() && next + j * step <= p && p < next + j * step + (
                            #[trigger] rest[j]).len();
                        lemma_step_mul(j + 1, step as int);
                        assert(window_k(chars, next, size, step, j));
                        assert(w[j + 1] == rest[j]);
                        assert(start + (j + 1) * step <= p && p < start + (j + 1) * step + w[j
                            + 1].len());
                    }
                }
            }
        }
    }
}

/// A fixed split of non-empty text has at least one chunk; with a positive
/// size, chunk `k` is the window of `size` chars starting `k * step` chars
/// in (where `step` is the size less the overlap, at least one), and the
/// chunks together cover the text.
pub proof fn lemma_fixed_split_shape(text: Seq<char>, size: nat, overlap: nat)
    ensures
        text.len() > 0 ==> fixed_split(text, size, overlap).len() > 0,
        size == 0 ==> fixed_split(text, size, overlap) == (if text.len() == 0 {
            Seq::<Seq<char>>::empty()
        } else {
            seq![text]
        }),
        size > 0 ==> ({
            let step: nat = if size > overlap {
                (size - overlap) as nat
            } else {
                1
            };
            let r = fixed_split(text, size, overlap);
            &&& forall|k: int|
                0 <= k < r.len() ==> #[trigger] r[k] == window_at(text, (k * step) as nat, size)
            &&& forall|k: int| 0 <= k < r.len() ==> 0 < (#[trigger] r[k]).len() <= size
            &&& forall|p: int| 0 <= p < text.len() ==> covered(r, 0, step, p)
        }),
{
    if size > 0 {
        let step: nat = if size > overlap {
            (size - overlap) as nat
        } else {
            1
        };
        lemma_windows_shape(text, 0, size, step);
        let r = fixed_split(text, size, overlap);
        assert forall|k: int| 0 <= k < r.len() implies #[trigger] r[k] == window_at(
            text,
            (k * step) as nat,
            size,
        ) by {
            assert(window_k(text, 0, size, step, k));
        }
        assert forall|k: int| 0 <= k < r.len() implies 0 < (#[trigger] r[k]).len() <= size by {
            assert(window_k(text, 0, size, step, k));
        }
        if text.len() > 0 {
            assert forall|p: int| 0 <= p < text.len() implies covered(r, 0, step, p) by {}
        }
    }
}

/// A sliding split of non-empty text has at least one chunk; chunk `k` is
/// the window of `window` chars (at least one) starting `k * stride` chars
/// in (stride at least one), and when the stride does not exceed the
/// window the chunks cover the text.
pub proof fn lemma_sliding_split_shape(text: Seq<char>, window: nat, stride: nat)
    ensures
        text.len() > 0 ==> sliding_split(text, window, stride).len() > 0,
        ({
            let size: nat = if window == 0 {
                1
            } else {
                window
            };
            let step: nat = if stride == 0 {
                1
            } else {
                stride
            };
            let r = sliding_split(text, window, stride);
            &&& forall|k: int|
                0 <= k < r.len() ==> #[trigger] r[k] == window_at(text, (k * step) as nat, size)
            &&& forall|k: int| 0 <= k < r.len() ==> 0 < (#[trigger] r[k]).len() <= size
            &&& step <= size ==> forall|p: int| 0 <= p < text.len() ==> covered(r, 0, step, p)
        }),
{
    let size: nat = if window == 0 {
        1
    } else {
        window
    };
    let step: nat = if stride == 0 {
        1
    } else {
        stride
    };
    lemma_windows_shape(text, 0, size, step);
    let r = sliding_split(text, window, stride);
    assert forall|k: int| 0 <= k < r.len() implies #[trigger] r[k] == window_at(
        text,
        (k * step) as nat,
        size,
    ) by {
        assert(window_k(text, 0, size, step, k));
    }
    assert forall|k: int| 0 <= k < r.len() implies 0 < (#[trigger] r[k]).len() <= size by {
        assert(window_k(text, 0, size, step, k));
    }
    if text.len() > 0 && step <= size {
        assert forall|p: int| 0 <= p < text.len() implies covered(r, 0, step, p) by {}
    }
}

/// The non-white characters of `s`, in order.
pub open spec fn content(s: Seq<char>) -> Seq<char>
    decreases s.len(),
{
    if s.len() == 0 {
        seq![]
    } else if crate::text::is_white_space(s.last()) {
        content(s.drop_last())
    } else {
        content(s.drop_last()).push(s.last())
    }
}

/// All chunks, one after the other.
pub open spec fn concat(ss: Seq<Seq<char>>) -> Seq<char>
    decreases ss.len(),
{
    if ss.len() == 0 {
        seq![]
    } else {
        concat(ss.drop_last()) + ss.last()
    }
}

proof fn lemma_content_append(a: Seq<char>, b: Seq<char>)
    ensures
        content(a + b) == content(a) + content(b),
    decreases b.len(),
{
    if b.len() == 0 {
        assert(a + b =~= a);
        assert(content(a) + content(b) =~= content(a));
    } else {
        assert((a + b).drop_last() =~= a + b.drop_last());
        assert((a + b).last() == b.last());
        lemma_content_append(a, b.drop_last());
        if !crate::text::is_white_space(b.last()) {
            assert(content(a) + content(b.drop_last()).push(b.last()) =~= (content(a) + content(
                b.drop_last(),
            )).push(b.last()));
        }
    }
}

proof fn lemma_content_trim_start(s: Seq<char>)
    ensures
        content(crate::text::trim_start_seq(s)) == content(s),
    decreases s.len(),
{
    if s.len() > 0 && crate::text::is_white_space(s[0]) {
        lemma_content_trim_start(s.drop_first());
        assert(s =~= seq![s[0]] + s.drop_first());
        lemma_content_append(seq![s[0]], s.drop_first());
        assert(seq![s[0]].drop_last() =~= Seq::<char>::empty());
        assert(seq![s[0]].last() == s[0]);
        assert(content(Seq::<char>::empty()) =~= Seq::<char>::empty());
        assert(content(seq![s[0]]) =~= Seq::<char>::empty());
        assert(Seq::<char>::empty() + content(s.drop_first()) =~= content(s.drop_first()));
    }
}

proof fn lemma_content_trim_end(s: Seq<char>)
    ensures
        content(crate::text::trim_end_seq(s)) == content(s),
    decreases s.len(),
{
    if s.len() > 0 && crate::text::is_white_space(s.last()) {
        lemma_content_trim_end(s.drop_last());
    }
}

/// Trimming white space keeps the content.
proof fn lemma_content_trim(s: Seq<char>)
    ensures
        content(trim_seq(s)) == content(s),
{
    lemma_content_trim_start(s);
    lemma_content_trim_end(crate::text::trim_start_seq(s));
}

proof fn lemma_content_blank(s: Seq<char>)
    requires
        trim_seq(s).len() == 0,
    ensures
        content(s) == Seq::<char>::empty(),
{
    lemma_content_trim(s);
    assert(trim_seq(s) =~= Seq::<char>::empty());
}

proof fn lemma_content_of_space(a: Seq<char>, b: Seq<char>)
    ensures
        content(a.push(' ') + b) == content(a) + content(b),
{
    lemma_content_append(a.push(' '), b);
    assert(crate::text::is_white_space(' '));
    assert(a.push(' ').drop_last() =~= a);
}

proof fn lemma_concat_push(ss: Seq<Seq<char>>, x: Seq<char>)
    ensures
        concat(ss.push(x)) == concat(ss) + x,
{
    assert(ss.push(x).drop_last() =~= ss);
}

proof fn lemma_content_concat_push(ss: Seq<Seq<char>>, x: Seq<char>)
    ensures
        content(concat(ss.push(x))) == content(concat(ss)) + content(x),
{
    lemma_concat_push(ss, x);
    lemma_content_append(concat(ss), x);
}

proof fn lemma_scan_content(s: Seq<char>)
    ensures
        content(concat(sentence_scan(s).0)) + content(sentence_scan(s).1) == content(s),
    decreases s.len(),
{
    if s.len() == 0 {
        assert(content(concat(Seq::<Seq<char>>::empty())) + content(Seq::<char>::empty())
            =~= Seq::<char>::empty());
    } else {
        let (done, cur) = sentence_scan(s.drop_last());
        lemma_scan_content(s.drop_last());
        let c = s.last();
        let cur2 = cur.push(c);
        assert(cur2.drop_last() =~= cur);
        assert(content(s) == if crate::text::is_white_space(c) {
            content(s.drop_last())
        } else {
            content(s.drop_last()).push(c)
        });
        if is_terminator(c) {
            if trim_seq(cur2).len() > 0 {
                lemma_content_concat_push(done, trim_seq(cur2));
                lemma_content_trim(cur2);
            } else {
                lemma_content_blank(cur2);
            }
            assert(content(Seq::<char>::empty()) =~= Seq::<char>::empty());
        }
        if !crate::text::is_white_space(c) {
            assert(content(concat(done)) + content(cur).push(c) =~= (content(concat(done))
                + content(cur)).push(c));
        }
    }
}

/// Splitting into sentences keeps every non-white character, in order.
pub proof fn lemma_sentences_keep_content(s: Seq<char>)
    ensures
        content(concat(split_sentences_spec(s))) == content(s),
{
    lemma_scan_content(s);
    let (done, cur) = sentence_scan(s);
    if trim_seq(cur).len() > 0 {
        lemma_content_concat_push(done, trim_seq(cur));
        lemma_content_trim(cur);
    } else {
        lemma_content_blank(cur);
        assert(content(concat(done)) + Seq::<char>::empty() =~= content(concat(done)));
    }
}

proof fn lemma_pack_content(sentences: Seq<Seq<char>>, max: nat)
    ensures
        content(concat(pack_fold(sentences, max).0)) + content(pack_fold(sentences, max).1)
            == content(concat(sentences)),
    decreases sentences.len(),
{
    if sentences.len() == 0 {
        assert(content(concat(Seq::<Seq<char>>::empty())) + content(Seq::<char>::empty())
            =~= Seq::<char>::empty());
    } else {
        let prev = sentences.drop_last();
        let x = sentences.last();
        lemma_pack_content(prev, max);
        lemma_content_concat_push(prev, x);
        assert(sentences =~= prev.push(x));
        let (chunks, current) = pack_fold(prev, max);
        let e = Seq::<char>::empty();
        assert(content(e) =~= e);
        if x.len() > max {
            if current.len() > 0 {
                lemma_content_concat_push(chunks, trim_seq(current));
                lemma_content_trim(current);
                lemma_content_concat_push(chunks.push(trim_seq(current)), x);
            } else {
                assert(current =~= e);
                lemma_content_concat_push(chunks, x);
            }
        } else {
            let flush = current.len() + x.len() + 1 > max;
            if flush {
                lemma_content_concat_push(chunks, trim_seq(current));
                lemma_content_trim(current);
                assert(e + x =~= x);
            } else {
                if current.len() > 0 {
                    lemma_content_of_space(current, x);
                } else {
                    assert(current =~= e);
                    assert(current + x =~= x);
                }
            }
        }
    }
}

/// Packing keeps every non-white character, in order.
pub proof fn lemma_packed_keeps_content(sentences: Seq<Seq<char>>, max: nat)
    ensures
        content(concat(packed(sentences, max))) == content(concat(sentences)),
{
    lemma_pack_content(sentences, max);
    let (chunks, current) = pack_fold(sentences, max);
    if trim_seq(current).len() > 0 {
        lemma_content_concat_push(chunks, trim_seq(current));
        lemma_content_trim(current);
    } else {
        lemma_content_blank(current);
        assert(content(concat(chunks)) + Seq::<char>::empty() =~= content(concat(chunks)));
    }
}

/// Merging keeps every non-white character, in order.
pub proof fn lemma_merge_keeps_content(chunks: Seq<Seq<char>>, min: nat, max: nat)
    ensures
        content(concat(merge_fold(chunks, min, max))) == content(concat(chunks)),
    decreases chunks.len(),
{
    if chunks.len() > 0 {
        let prev = chunks.drop_last();
        let x = chunks.last();
        lemma_merge_keeps_content(prev, min, max);
        assert(chunks =~= prev.push(x));
        lemma_content_concat_push(prev, x);
        let m = merge_fold(prev, min, max);
        if m.len() > 0 && m.last().len() < min && m.last().len() + x.len() < max * 2 {
            let a = m.drop_last();
            let l = m.last();
            assert(m =~= a.push(l));
            lemma_content_concat_push(a, l);
            lemma_content_concat_push(a, l.push(' ') + x);
            lemma_content_of_space(l, x);
        } else {
            lemma_content_concat_push(m, x);
        }
    }
}

/// Sentence chunking loses no content: the non-white characters of the
/// chunks, read in order, are exactly those of the text; and non-empty text
/// (even white space only) yields at least one chunk.
pub proof fn lemma_sentence_split_keeps_content(text: Seq<char>, max_chars: nat, min_chars: nat)
    ensures
        content(concat(sentence_split(text, max_chars, min_chars))) == content(text),
        text.len() > 0 ==> sentence_split(text, max_chars, min_chars).len() > 0,
{
    if text.len() > 0 {
        let max: nat = if max_chars == 0 {
            1
        } else {
            max_chars
        };
        lemma_sentences_keep_content(text);
        lemma_packed_keeps_content(split_sentences_spec(text), max);
        lemma_merge_keeps_content(packed(split_sentences_spec(text), max), min_chars, max);
        let merged = merge_fold(packed(split_sentences_spec(text), max), min_chars, max);
        if merged.len() == 0 {
            assert(seq![text].drop_last() =~= Seq::<Seq<char>>::empty());
            assert(concat(Seq::<Seq<char>>::empty()) =~= Seq::<char>::empty());
            assert(concat(seq![text]) =~= text);
        }
    } else {
        assert(content(concat(Seq::<Seq<char>>::empty())) =~= Seq::<char>::empty());
    }
}

} // verus!
