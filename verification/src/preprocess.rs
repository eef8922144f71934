//! Preprocessing pipeline: `raw -> clean -> normalize -> language metadata ->
//! documents`.
//!
//! * **clean** strips control characters, collapses whitespace, and drops
//!   records that are too short to be useful evidence.
//! * **normalize** applies Unicode NFC so equivalent Devanagari/Tamil
//!   encodings compare equal downstream.
//! * **language metadata** detects the script of the text (Devanagari to
//!   Hindi, Tamil block to Tamil, Latin to English) and keeps only documents
//!   in the configured supported set.

use vstd::prelude::*;

use crate::language::Language;
use crate::oreo_config::OreoError;
use crate::text::{chars_of, count_where, is_ascii_letter, squash, squash_spec, string_from};

use unicode_normalization::UnicodeNormalization;

verus! {

/// Minimum cleaned length for a document to be worth indexing.
pub const MIN_DOCUMENT_CHARS: usize = 20;

/// One unprocessed corpus record.
#[derive(Debug, Clone)]
pub struct RawDocument {
    /// Stable identifier from the dataset.
    pub id: String,
    /// Raw passage text.
    pub text: String,
    /// Provenance label (usually the source file stem).
    pub source: String,
}

/// A cleaned, normalized, language-tagged document ready for chunking.
#[derive(Debug, Clone)]
pub struct PreprocessedDocument {
    /// Stable identifier carried over from ingestion.
    pub id: String,
    /// Cleaned + NFC-normalized text.
    pub text: String,
    /// Script-detected language.
    pub language: Language,
    /// Provenance label carried over from ingestion.
    pub source: String,
}

/// Counts of what preprocessing kept and why it skipped records.
#[derive(Debug, Clone, Copy, PartialEq, Eq, Structural)]
pub struct PreprocessStats {
    /// Records that passed every stage.
    pub kept: usize,
    /// Records dropped because cleaning left too little text.
    pub skipped_too_short: usize,
    /// Records dropped because their language is not in the supported set.
    pub skipped_unsupported_language: usize,
}

impl PreprocessStats {
    /// All counts zero.
    pub fn zero() -> (s: PreprocessStats)
        ensures
            s.kept == 0,
            s.skipped_too_short == 0,
            s.skipped_unsupported_language == 0,
    {
        PreprocessStats { kept: 0, skipped_too_short: 0, skipped_unsupported_language: 0 }
    }
}

/// A Devanagari-block character.
pub open spec fn is_devanagari(c: char) -> bool {
    0x0900 <= c as u32 <= 0x097F
}

/// A Tamil-block character.
pub open spec fn is_tamil(c: char) -> bool {
    0x0B80 <= c as u32 <= 0x0BFF
}

/// How many chars of `s` are Devanagari, Tamil, and (otherwise) ASCII
/// letters.
pub open spec fn script_counts(s: Seq<char>) -> (nat, nat, nat)
    decreases s.len(),
{
    if s.len() == 0 {
        (0, 0, 0)
    } else {
        let (d, t, l) = script_counts(s.drop_last());
        let c = s.last();
        if is_devanagari(c) {
            (d + 1, t, l)
        } else if is_tamil(c) {
            (d, t + 1, l)
        } else if is_ascii_letter(c) {
            (d, t, l + 1)
        } else {
            (d, t, l)
        }
    }
}

/// The language the script mix of `s` indicates: Devanagari wins ties,
/// then Tamil, then Latin; no letters at all gives none.
pub open spec fn detect_language_spec(s: Seq<char>) -> Option<Language> {
    let (d, t, l) = script_counts(s);
    if d >= t && d >= l && d > 0 {
        Some(Language::Hi)
    } else if t > d && t >= l && t > 0 {
        Some(Language::Ta)
    } else if l > 0 {
        Some(Language::En)
    } else {
        None
    }
}

/// Detects a language from the Unicode script mix of `text`.
///
/// Devanagari presence wins over Latin (Hindi text frequently embeds Latin
/// loanwords), Tamil likewise. Text with no letters at all maps to `None`.
pub fn detect_language(text: &str) -> (r: Option<Language>)
    ensures
        r == detect_language_spec(text@),
{
    let chars = chars_of(text);
    let n = chars.len();
    let mut devanagari: usize = 0;
    let mut tamil: usize = 0;
    let mut latin: usize = 0;
    let mut i: usize = 0;
    while i < n
        invariant
            n == chars@.len(),
            chars@ == text@,
            i <= n,
            devanagari + tamil + latin <= i,
            (devanagari as nat, tamil as nat, latin as nat) == script_counts(
                text@.take(i as int),
            ),
        decreases n - i,
    {
        let c = chars[i];
        assert(text@.take(i + 1).drop_last() =~= text@.take(i as int));
        assert(text@.take(i + 1).last() == c);
        let code = c as u32;
        if 0x0900 <= code && code <= 0x097F {
            devanagari += 1;
        } else if 0x0B80 <= code && code <= 0x0BFF {
            tamil += 1;
        } else if ('a' <= c && c <= 'z') || ('A' <= c && c <= 'Z') {
            latin += 1;
        }
        i += 1;
    }
    assert(text@.take(n as int) =~= text@);
    if devanagari >= tamil && devanagari >= latin && devanagari > 0 {
        Some(Language::Hi)
    } else if tamil > devanagari && tamil >= latin && tamil > 0 {
        Some(Language::Ta)
    } else if latin > 0 {
        Some(Language::En)
    } else {
        None
    }
}

proof fn lemma_script_counts_by_block(s: Seq<char>)
    ensures
        script_counts(s) == (
            count_where(s, |c: char| 0x0900 <= c as u32 <= 0x097F),
            count_where(s, |c: char| 0x0B80 <= c as u32 <= 0x0BFF),
            count_where(s, |c: char| ('A' <= c <= 'Z') || ('a' <= c <= 'z')),
        ),
    decreases s.len(),
{
    if s.len() > 0 {
        lemma_script_counts_by_block(s.drop_last());
    }
}

/// The script majority decides the language. With `d` Devanagari-block
/// chars (U+0900..U+097F), `t` Tamil-block chars (U+0B80..U+0BFF) and `l`
/// ASCII letters: Hindi when `d` is positive and at least `t` and `l`;
/// Tamil when `t` exceeds `d` and is at least `l` (Latin letters never
/// override a Tamil majority); English when `l` exceeds both; nothing when
/// there are no such chars.
pub proof fn lemma_language_follows_script_majority(s: Seq<char>)
    ensures
        ({
            let d = count_where(s, |c: char| 0x0900 <= c as u32 <= 0x097F);
            let t = count_where(s, |c: char| 0x0B80 <= c as u32 <= 0x0BFF);
            let l = count_where(s, |c: char| ('A' <= c <= 'Z') || ('a' <= c <= 'z'));
            &&& (d > 0 && d >= t && d >= l) ==> detect_language_spec(s) == Some(Language::Hi)
            &&& (t > d && t >= l) ==> detect_language_spec(s) == Some(Language::Ta)
            &&& (l > d && l > t) ==> detect_language_spec(s) == Some(Language::En)
            &&& (d == 0 && t == 0 && l == 0) ==> detect_language_spec(s) is None
        }),
{
    lemma_script_counts_by_block(s);
}

/// Removes control characters and collapses all white-space runs to single
/// spaces, trimming the ends.
pub fn clean(text: &str) -> (out: String)
    ensures
        out@ == squash_spec(text@, true),
{
    squash(text, true)
}

/// The Unicode NFC normalization of `s`, as the `unicode-normalization`
/// crate computes it.
pub uninterp spec fn nfc_of(s: Seq<char>) -> Seq<char>;

/// `UnicodeNormalization::nfc` over the chars of `s`, collected. The result
/// is the named normalization of `s`.
#[verifier::external_body]
fn nfc_string(s: &str) -> (r: String)
    ensures
        r@ == nfc_of(s@),
{
    s.chars().nfc().collect()
}

/// Normalizes text to Unicode NFC form.
pub fn normalize(text: &str) -> (out: String)
    ensures
        out@ == nfc_of(text@),
{
    nfc_string(text)
}

/// The cleaned text of a raw record.
pub open spec fn cleaned_of(raw: RawDocument) -> Seq<char> {
    squash_spec(raw.text@, true)
}

/// Cleaning leaves too little of `raw` to index.
pub open spec fn is_too_short(raw: RawDocument) -> bool {
    cleaned_of(raw).len() < MIN_DOCUMENT_CHARS
}

/// The text kept for `raw`: cleaned, then normalized.
pub open spec fn normalized_of(raw: RawDocument) -> Seq<char> {
    nfc_of(cleaned_of(raw))
}

/// `raw` passes every stage given the `supported` languages.
pub open spec fn is_kept(raw: RawDocument, supported: Seq<Language>) -> bool {
    !is_too_short(raw) && (detect_language_spec(normalized_of(raw)) matches Some(l)
        && supported.contains(l))
}

/// The records of `raws` that pass every stage, in order.
pub open spec fn kept_records(raws: Seq<RawDocument>, supported: Seq<Language>) -> Seq<RawDocument>
    decreases raws.len(),
{
    if raws.len() == 0 {
        seq![]
    } else {
        let prev = kept_records(raws.drop_last(), supported);
        if is_kept(raws.last(), supported) {
            prev.push(raws.last())
        } else {
            prev
        }
    }
}

/// How many records of `raws` cleaning leaves too short.
pub open spec fn count_too_short(raws: Seq<RawDocument>) -> nat
    decreases raws.len(),
{
    if raws.len() == 0 {
        0
    } else {
        count_too_short(raws.drop_last()) + if is_too_short(raws.last()) {
            1nat
        } else {
            0nat
        }
    }
}

/// How many records of `raws` are long enough but not in a supported
/// language.
pub open spec fn count_unsupported(raws: Seq<RawDocument>, supported: Seq<Language>) -> nat
    decreases raws.len(),
{
    if raws.len() == 0 {
        0
    } else {
        count_unsupported(raws.drop_last(), supported) + if !is_too_short(raws.last())
            && !is_kept(raws.last(), supported) {
            1nat
        } else {
            0nat
        }
    }
}

/// `doc` is what preprocessing makes of the kept record `raw`.
pub open spec fn document_of(doc: PreprocessedDocument, raw: RawDocument) -> bool {
    &&& doc.id@ == raw.id@
    &&& doc.text@ == normalized_of(raw)
    &&& detect_language_spec(normalized_of(raw)) == Some(doc.language)
    &&& doc.source@ == raw.source@
}

fn contains_language(list: &[Language], l: Language) -> (r: bool)
    ensures
        r == list@.contains(l),
{
    let n = list.len();
    let mut i: usize = 0;
    while i < n
        invariant
            n == list@.len(),
            i <= n,
            forall|k: int| 0 <= k < i ==> list@[k] != l,
        decreases n - i,
    {
        if list[i] == l {
            assert(list@[i as int] == l);
            return true;
        }
        i += 1;
    }
    false
}

fn copy_string(s: &String) -> (t: String)
    ensures
        t@ == s@,
{
    string_from(chars_of(s.as_str()).as_slice())
}

/// Runs the full pipeline over raw documents.
///
/// Documents whose detected language is not in `supported` are skipped, so
/// language support stays configurable.
///
/// # Errors
/// Never fails on individual records; the error case is reserved for
/// stages that need hard failure semantics.
pub fn preprocess(documents: &[RawDocument], supported: &[Language]) -> (r: Result<
    (Vec<PreprocessedDocument>, PreprocessStats),
    OreoError,
>)
    ensures
        r matches Ok((docs, stats)) && {
            let kept = kept_records(documents@, supported@);
            &&& docs@.len() == kept.len()
            &&& forall|i: int| 0 <= i < docs@.len() ==> document_of(#[trigger] docs@[i], kept[i])
            &&& stats.kept == docs@.len()
            &&& stats.skipped_too_short == count_too_short(documents@)
            &&& stats.skipped_unsupported_language == count_unsupported(documents@, supported@)
            &&& stats.kept + stats.skipped_too_short + stats.skipped_unsupported_language
                == documents@.len()
        },
{
    let n = documents.len();
    let mut processed: Vec<PreprocessedDocument> = Vec::new();
    let mut too_short: usize = 0;
    let mut unsupported: usize = 0;
    let mut i: usize = 0;
    while i < n
        invariant
            n == documents@.len(),
            i <= n,
            processed@.len() + too_short + unsupported == i,
            processed@.len() == kept_records(documents@.take(i as int), supported@).len(),
            forall|k: int|
                0 <= k < processed@.len() ==> document_of(
                    #[trigger] processed@[k],
                    kept_records(documents@.take(i as int), supported@)[k],
                ),
            too_short == count_too_short(documents@.take(i as int)),
            unsupported == count_unsupported(documents@.take(i as int), supported@),
        decreases n - i,
    {
        let raw = &documents[i];
        let ghost pre = documents@.take(i as int);
        assert(documents@.take(i + 1).drop_last() =~= pre);
        assert(documents@.take(i + 1).last() == *raw);
        let cleaned = clean(raw.text.as_str());
        let cleaned_chars = chars_of(cleaned.as_str());
        if cleaned_chars.len() < MIN_DOCUMENT_CHARS {
            too_short += 1;
        } else {
            let normalized = normalize(cleaned.as_str());
            let detected = detect_language(normalized.as_str());
            let mut keep = false;
            let mut language = Language::En;
            match detected {
                Some(l) => {
                    if contains_language(supported, l) {
                        keep = true;
                        language = l;
                    }
                },
                None => {},
            }
            if keep {
                let ghost before = processed@;
                processed.push(
                    PreprocessedDocument {
                        id: copy_string(&raw.id),
                        text: normalized,
                        language,
                        source: copy_string(&raw.source),
                    },
                );
                assert forall|k: int| 0 <= k < processed@.len() implies document_of(
                    #[trigger] processed@[k],
                    kept_records(documents@.take(i + 1), supported@)[k],
                ) by {
                    if k < before.len() {
                        assert(processed@[k] == before[k]);
                    }
                }
            } else {
                unsupported += 1;
            }
        }
        i += 1;
    }
    assert(documents@.take(n as int) =~= documents@);
    proof {
        lemma_preprocess_accounts_for_every_record(documents@, supported@);
    }
    let stats = PreprocessStats {
        kept: processed.len(),
        skipped_too_short: too_short,
        skipped_unsupported_language: unsupported,
    };
    Ok((processed, stats))
}

/// Every record is accounted for exactly once: kept, too short, or in an
/// unsupported language.
pub proof fn lemma_preprocess_accounts_for_every_record(
    raws: Seq<RawDocument>,
    supported: Seq<Language>,
)
    ensures
        kept_records(raws, supported).len() + count_too_short(raws) + count_unsupported(
            raws,
            supported,
        ) == raws.len(),
    decreases raws.len(),
{
    if raws.len() > 0 {
        lemma_preprocess_accounts_for_every_record(raws.drop_last(), supported);
    }
}

} // verus!
