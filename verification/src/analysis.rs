//! Conservative query analysis: normalization and intent detection.
//!
//! Normalization is deliberately conservative: whitespace and punctuation
//! cleanup only. Text is never translated or transliterated; the query's
//! language is preserved end to end.

use vstd::prelude::*;

use crate::text::{
    char_is_whitespace, chars_of, contains_chars, contains_seq, is_white_space, str_lowercase,
    str_to_lowercase, string_from,
};
use crate::types::QueryIntent;

verus! {

/// Typographic variants mapped onto their plain equivalents: curly single
/// and double quotes, en/em dashes, and non-breaking spaces.
pub open spec fn map_char_spec(c: char) -> char {
    let v = c as u32;
    if v == 0x2018 || v == 0x2019 || v == 0x201B {
        '\''
    } else if v == 0x201C || v == 0x201D {
        '"'
    } else if v == 0x2013 || v == 0x2014 {
        '-'
    } else if v == 0x00A0 || v == 0x2007 || v == 0x202F {
        ' '
    } else {
        c
    }
}

/// The punctuation marks whose runs collapse.
pub open spec fn is_collapsing_punct(c: char) -> bool {
    c == '!' || c == '?' || c == ',' || c == '.' || c == ';' || c == ':'
}

/// Scanner state: output so far, whether the last emitted char is a space
/// (or nothing was emitted), and the punctuation mark of the current run.
pub struct NormState {
    pub out: Seq<char>,
    pub prev_was_space: bool,
    pub prev_punct: Option<char>,
}

/// One scanner step over input char `c0`.
pub open spec fn norm_step(st: NormState, c0: char) -> NormState {
    let c = map_char_spec(c0);
    if is_white_space(c) {
        if !st.prev_was_space {
            NormState { out: st.out.push(' '), prev_was_space: true, prev_punct: st.prev_punct }
        } else {
            st
        }
    } else if is_collapsing_punct(c) {
        if st.prev_punct == Some(c) {
            st
        } else {
            NormState { out: st.out.push(c), prev_was_space: false, prev_punct: Some(c) }
        }
    } else {
        NormState { out: st.out.push(c), prev_was_space: false, prev_punct: None }
    }
}

/// The scanner state after reading all of `s`.
pub open spec fn norm_scan(s: Seq<char>) -> NormState
    decreases s.len(),
{
    if s.len() == 0 {
        NormState { out: Seq::empty(), prev_was_space: true, prev_punct: None }
    } else {
        norm_step(norm_scan(s.drop_last()), s.last())
    }
}

/// `s` with trailing `' '` chars removed.
pub open spec fn strip_trailing_spaces(s: Seq<char>) -> Seq<char>
    decreases s.len(),
{
    if s.len() > 0 && s.last() == ' ' {
        strip_trailing_spaces(s.drop_last())
    } else {
        s
    }
}

/// The normalized form of the chars `s`.
pub open spec fn normalize_spec(s: Seq<char>) -> Seq<char> {
    strip_trailing_spaces(norm_scan(s).out)
}

/// The shape every normalized text has: no leading or trailing space, no two
/// adjacent spaces, no white space other than `' '`, and no mark from
/// `! ? , . ; :` directly repeated.
pub open spec fn is_normalized_shape(r: Seq<char>) -> bool {
    &&& (r.len() > 0 ==> r[0] != ' ' && r.last() != ' ')
    &&& forall|i: int| 0 <= i < r.len() ==> (#[trigger] r[i] == ' ' || !is_white_space(r[i]))
    &&& forall|i: int| 0 <= i < r.len() - 1 ==> !(#[trigger] r[i] == ' ' && r[i + 1] == ' ')
    &&& forall|i: int|
        0 <= i < r.len() - 1 ==> !(is_collapsing_punct(#[trigger] r[i]) && r[i + 1] == r[i])
}

/// Invariant of the scanner output.
pub open spec fn scan_inv(st: NormState) -> bool {
    let r = st.out;
    &&& st.prev_was_space == (r.len() == 0 || r.last() == ' ')
    &&& (r.len() > 0 ==> r[0] != ' ')
    &&& (r.len() > 0 && is_collapsing_punct(r.last()) ==> st.prev_punct == Some(r.last()))
    &&& forall|i: int| 0 <= i < r.len() ==> (#[trigger] r[i] == ' ' || !is_white_space(r[i]))
    &&& forall|i: int| 0 <= i < r.len() - 1 ==> !(#[trigger] r[i] == ' ' && r[i + 1] == ' ')
    &&& forall|i: int|
        0 <= i < r.len() - 1 ==> !(is_collapsing_punct(#[trigger] r[i]) && r[i + 1] == r[i])
}

proof fn lemma_step_inv(st: NormState, c0: char)
    requires
        scan_inv(st),
    ensures
        scan_inv(norm_step(st, c0)),
{
    let r = st.out;
    let n = norm_step(st, c0);
    let c = map_char_spec(c0);
    if n.out.len() == r.len() + 1 {
        assert forall|i: int| 0 <= i < n.out.len() - 1 implies !(#[trigger] n.out[i] == ' '
            && n.out[i + 1] == ' ') by {
            if i < r.len() - 1 {
                assert(n.out[i] == r[i] && n.out[i + 1] == r[i + 1]);
            }
        }
        assert forall|i: int| 0 <= i < n.out.len() - 1 implies !(is_collapsing_punct(
            #[trigger] n.out[i],
        ) && n.out[i + 1] == n.out[i]) by {
            if i < r.len() - 1 {
                assert(n.out[i] == r[i] && n.out[i + 1] == r[i + 1]);
            }
        }
        assert forall|i: int| 0 <= i < n.out.len() implies (#[trigger] n.out[i] == ' '
            || !is_white_space(n.out[i])) by {
            if i < r.len() {
                assert(n.out[i] == r[i]);
            }
        }
    }
}

proof fn lemma_scan_inv(s: Seq<char>)
    ensures
        scan_inv(norm_scan(s)),
    decreases s.len(),
{
    if s.len() > 0 {
        lemma_scan_inv(s.drop_last());
        lemma_step_inv(norm_scan(s.drop_last()), s.last());
    }
}

proof fn lemma_strip_shape(r: Seq<char>)
    requires
        r.len() > 0 ==> r[0] != ' ',
        forall|i: int| 0 <= i < r.len() ==> (#[trigger] r[i] == ' ' || !is_white_space(r[i])),
        forall|i: int| 0 <= i < r.len() - 1 ==> !(#[trigger] r[i] == ' ' && r[i + 1] == ' '),
        forall|i: int|
            0 <= i < r.len() - 1 ==> !(is_collapsing_punct(#[trigger] r[i]) && r[i + 1] == r[i]),
    ensures
        is_normalized_shape(strip_trailing_spaces(r)),
        strip_trailing_spaces(r) == r.subrange(0, strip_trailing_spaces(r).len() as int),
    decreases r.len(),
{
    if r.len() > 0 && r.last() == ' ' {
        let d = r.drop_last();
        assert forall|i: int| 0 <= i < d.len() implies (#[trigger] d[i] == ' '
            || !is_white_space(d[i])) by {
            assert(d[i] == r[i]);
        }
        assert forall|i: int| 0 <= i < d.len() - 1 implies !(#[trigger] d[i] == ' ' && d[i + 1]
            == ' ') by {
            assert(d[i] == r[i] && d[i + 1] == r[i + 1]);
        }
        assert forall|i: int| 0 <= i < d.len() - 1 implies !(is_collapsing_punct(#[trigger] d[i])
            && d[i + 1] == d[i]) by {
            assert(d[i] == r[i] && d[i + 1] == r[i + 1]);
        }
        if d.len() > 0 {
            assert(d[0] == r[0]);
        }
        lemma_strip_shape(d);
        let t = strip_trailing_spaces(d);
        assert(d.subrange(0, t.len() as int) =~= r.subrange(0, t.len() as int));
    } else {
        assert(r.subrange(0, r.len() as int) =~= r);
    }
}

/// Every normalized text has the normalized shape: trimmed, single-spaced,
/// with no white space but `' '`, and no directly repeated mark.
pub proof fn lemma_normalize_shape(s: Seq<char>)
    ensures
        is_normalized_shape(normalize_spec(s)),
{
    lemma_scan_inv(s);
    lemma_strip_shape(norm_scan(s).out);
}

/// The punctuation mark that ends `r`, looking past `' '` chars: `None`
/// when the last other char is not one of `! ? , . ; :` (or there is none).
pub open spec fn last_mark(r: Seq<char>) -> Option<char>
    decreases r.len(),
{
    if r.len() == 0 {
        None
    } else if r.last() == ' ' {
        last_mark(r.drop_last())
    } else if is_collapsing_punct(r.last()) {
        Some(r.last())
    } else {
        None
    }
}

/// Every char of `r` is already in plain form, and no mark of a collapsing
/// run follows the same mark (spaces between them aside).
pub open spec fn marks_settled(r: Seq<char>) -> bool {
    &&& forall|i: int| 0 <= i < r.len() ==> map_char_spec(#[trigger] r[i]) == r[i]
    &&& forall|i: int|
        0 <= i < r.len() && is_collapsing_punct(#[trigger] r[i]) ==> last_mark(r.take(i)) != Some(
            r[i],
        )
}

proof fn lemma_last_mark_push(r: Seq<char>, c: char)
    ensures
        last_mark(r.push(c)) == (if c == ' ' {
            last_mark(r)
        } else if is_collapsing_punct(c) {
            Some(c)
        } else {
            None
        }),
{
    assert(r.push(c).drop_last() =~= r);
}

proof fn lemma_settled_push(r: Seq<char>, c: char)
    requires
        marks_settled(r),
        map_char_spec(c) == c,
        is_collapsing_punct(c) ==> last_mark(r) != Some(c),
    ensures
        marks_settled(r.push(c)),
{
    let n = r.push(c);
    assert forall|i: int| 0 <= i < n.len() implies map_char_spec(#[trigger] n[i]) == n[i] by {
        if i < r.len() {
            assert(n[i] == r[i]);
        }
    }
    assert forall|i: int| 0 <= i < n.len() && is_collapsing_punct(#[trigger] n[i]) implies last_mark(
        n.take(i),
    ) != Some(n[i]) by {
        if i < r.len() {
            assert(n[i] == r[i]);
            assert(n.take(i) =~= r.take(i));
        } else {
            assert(n.take(i) =~= r);
        }
    }
}

proof fn lemma_settled_prefix(r: Seq<char>, k: int)
    requires
        marks_settled(r),
        0 <= k <= r.len(),
    ensures
        marks_settled(r.take(k)),
{
    let t = r.take(k);
    assert forall|i: int| 0 <= i < t.len() implies map_char_spec(#[trigger] t[i]) == t[i] by {
        assert(t[i] == r[i]);
    }
    assert forall|i: int| 0 <= i < t.len() && is_collapsing_punct(#[trigger] t[i]) implies last_mark(
        t.take(i),
    ) != Some(t[i]) by {
        assert(t[i] == r[i]);
        assert(t.take(i) =~= r.take(i));
    }
}

proof fn lemma_scan_settled(s: Seq<char>)
    ensures
        norm_scan(s).prev_punct == last_mark(norm_scan(s).out),
        marks_settled(norm_scan(s).out),
    decreases s.len(),
{
    if s.len() > 0 {
        lemma_scan_settled(s.drop_last());
        let st = norm_scan(s.drop_last());
        let c = map_char_spec(s.last());
        if is_white_space(c) {
            if !st.prev_was_space {
                lemma_last_mark_push(st.out, ' ');
                lemma_settled_push(st.out, ' ');
            }
        } else if is_collapsing_punct(c) {
            if st.prev_punct != Some(c) {
                lemma_last_mark_push(st.out, c);
                lemma_settled_push(st.out, c);
            }
        } else {
            lemma_last_mark_push(st.out, c);
            lemma_settled_push(st.out, c);
        }
    } else {
        assert(marks_settled(Seq::<char>::empty()));
    }
}

proof fn lemma_rescan(r: Seq<char>)
    requires
        r.len() > 0 ==> r[0] != ' ',
        forall|i: int| 0 <= i < r.len() ==> (#[trigger] r[i] == ' ' || !is_white_space(r[i])),
        forall|i: int| 0 <= i < r.len() - 1 ==> !(#[trigger] r[i] == ' ' && r[i + 1] == ' '),
        marks_settled(r),
    ensures
        norm_scan(r).out == r,
        norm_scan(r).prev_was_space == (r.len() == 0 || r.last() == ' '),
        norm_scan(r).prev_punct == last_mark(r),
    decreases r.len(),
{
    if r.len() > 0 {
        let d = r.drop_last();
        let c = r.last();
        assert forall|i: int| 0 <= i < d.len() implies (#[trigger] d[i] == ' ' || !is_white_space(
            d[i],
        )) by {
            assert(d[i] == r[i]);
        }
        assert forall|i: int| 0 <= i < d.len() - 1 implies !(#[trigger] d[i] == ' ' && d[i + 1]
            == ' ') by {
            assert(d[i] == r[i] && d[i + 1] == r[i + 1]);
        }
        if d.len() > 0 {
            assert(d[0] == r[0]);
        }
        assert(d =~= r.take(r.len() - 1));
        lemma_settled_prefix(r, r.len() - 1);
        lemma_rescan(d);
        lemma_last_mark_push(d, c);
        assert(d.push(c) =~= r);
        assert(map_char_spec(r[r.len() - 1]) == r[r.len() - 1]);
        if d.len() > 0 {
            assert(d.last() == r[r.len() - 2]);
        }
        if is_collapsing_punct(c) {
            assert(is_collapsing_punct(r[r.len() - 1]));
        }
    }
}

proof fn lemma_strip_len(r: Seq<char>)
    ensures
        strip_trailing_spaces(r).len() <= r.len(),
    decreases r.len(),
{
    if r.len() > 0 && r.last() == ' ' {
        lemma_strip_len(r.drop_last());
    }
}

/// Normalizing is idempotent: a normalized text normalizes to itself.
pub proof fn lemma_normalize_idempotent(s: Seq<char>)
    ensures
        normalize_spec(normalize_spec(s)) == normalize_spec(s),
{
    let out = norm_scan(s).out;
    let r = normalize_spec(s);
    lemma_scan_inv(s);
    lemma_strip_shape(out);
    lemma_scan_settled(s);
    lemma_strip_len(out);
    assert(out.take(r.len() as int) =~= r);
    lemma_settled_prefix(out, r.len() as int);
    lemma_rescan(r);
}

/// A char that normalization never removes: neither white space nor one
/// of `! ? , . ; :`.
pub open spec fn keeps_char(c: char) -> bool {
    !is_white_space(c) && !is_collapsing_punct(c)
}

/// The chars of `s` that normalization never removes, in order.
pub open spec fn kept_chars(s: Seq<char>) -> Seq<char>
    decreases s.len(),
{
    if s.len() == 0 {
        s
    } else if keeps_char(s.last()) {
        kept_chars(s.drop_last()).push(s.last())
    } else {
        kept_chars(s.drop_last())
    }
}

proof fn lemma_kept_push(r: Seq<char>, c: char)
    ensures
        kept_chars(r.push(c)) == (if keeps_char(c) {
            kept_chars(r).push(c)
        } else {
            kept_chars(r)
        }),
{
    assert(r.push(c).drop_last() =~= r);
}

proof fn lemma_scan_kept(s: Seq<char>)
    ensures
        kept_chars(norm_scan(s).out) == kept_chars(s.map_values(|c: char| map_char_spec(c))),
    decreases s.len(),
{
    let f = |c: char| map_char_spec(c);
    if s.len() == 0 {
        assert(s.map_values(f) =~= Seq::<char>::empty());
    } else {
        let d = s.drop_last();
        lemma_scan_kept(d);
        assert(s.map_values(f) =~= d.map_values(f).push(map_char_spec(s.last())));
        lemma_kept_push(d.map_values(f), map_char_spec(s.last()));
        let st = norm_scan(d);
        lemma_kept_push(st.out, ' ');
        lemma_kept_push(st.out, map_char_spec(s.last()));
    }
}

proof fn lemma_strip_kept(r: Seq<char>)
    ensures
        kept_chars(strip_trailing_spaces(r)) == kept_chars(r),
    decreases r.len(),
{
    if r.len() > 0 && r.last() == ' ' {
        lemma_strip_kept(r.drop_last());
        lemma_kept_push(r.drop_last(), ' ');
        assert(r.drop_last().push(' ') =~= r);
    }
}

/// Normalizing keeps the content: after the typographic mapping, every char
/// that is neither white space nor one of `! ? , . ; :` survives, in order,
/// and nothing else is added. Text is never translated or transliterated.
pub proof fn lemma_normalize_keeps_content(s: Seq<char>)
    ensures
        kept_chars(normalize_spec(s)) == kept_chars(s.map_values(|c: char| map_char_spec(c))),
{
    lemma_scan_kept(s);
    lemma_strip_kept(norm_scan(s).out);
}

fn map_char(c: char) -> (r: char)
    ensures
        r == map_char_spec(c),
{
    let v = c as u32;
    if v == 0x2018 || v == 0x2019 || v == 0x201B {
        '\''
    } else if v == 0x201C || v == 0x201D {
        '"'
    } else if v == 0x2013 || v == 0x2014 {
        '-'
    } else if v == 0x00A0 || v == 0x2007 || v == 0x202F {
        ' '
    } else {
        c
    }
}

fn punct_of(c: char) -> (r: Option<char>)
    ensures
        r == (if is_collapsing_punct(c) {
            Some(c)
        } else {
            None::<char>
        }),
{
    if c == '!' || c == '?' || c == ',' || c == '.' || c == ';' || c == ':' {
        Some(c)
    } else {
        None
    }
}

/// Normalizes a query without altering its language.
///
/// - trims the ends
/// - collapses all whitespace runs to single spaces
/// - maps typographic variants (curly quotes, en/em dashes, NBSP) onto their
///   ASCII/plain equivalents
/// - collapses repeated punctuation runs (`??!` becomes `?!`)
pub fn normalize(text: &str) -> (r: String)
    ensures
        r@ == normalize_spec(text@),
        is_normalized_shape(r@),
{
    let chars = chars_of(text);
    let n = chars.len();
    let mut out: Vec<char> = Vec::new();
    let mut prev_was_space = true;
    let mut prev_punct: Option<char> = None;
    let mut i: usize = 0;
    while i < n
        invariant
            n == chars@.len(),
            chars@ == text@,
            i <= n,
            norm_scan(text@.take(i as int)) == (NormState {
                out: out@,
                prev_was_space,
                prev_punct,
            }),
        decreases n - i,
    {
        let c = map_char(chars[i]);
        proof {
            assert(text@.take(i + 1).drop_last() =~= text@.take(i as int));
            assert(text@.take(i + 1).last() == chars@[i as int]);
        }
        if char_is_whitespace(c) {
            if !prev_was_space {
                out.push(' ');
                prev_was_space = true;
            }
        } else {
            let p = punct_of(c);
            if p.is_some() && prev_punct == p {
            } else {
                prev_punct = p;
                out.push(c);
                prev_was_space = false;
            }
        }
        i += 1;
    }
    proof {
        assert(text@.take(n as int) =~= text@);
    }
    let ghost scanned = out@;
    while out.len() > 0 && out[out.len() - 1] == ' '
        invariant
            strip_trailing_spaces(out@) == strip_trailing_spaces(scanned),
        decreases out.len(),
    {
        out.pop();
    }
    proof {
        lemma_normalize_shape(text@);
    }
    string_from(out.as_slice())
}

/// Intent markers, checked in this order of priority.
pub open spec fn comparison_markers() -> Seq<Seq<char>> {
    seq!["difference between"@, "compare "@, " vs "@, "versus "@, "अंतर"@]
}

/// Procedural ("how to") markers.
pub open spec fn procedural_markers() -> Seq<Seq<char>> {
    seq!["how to "@, "how do "@, "how can "@, "how should "@, "steps to "@, "कैसे"@, "எப்படி"@]
}

/// Definition ("what is") markers.
pub open spec fn definition_markers() -> Seq<Seq<char>> {
    seq![
        "what is "@,
        "what are "@,
        "define "@,
        "definition of "@,
        "meaning of "@,
        "क्या है"@,
        "क्या होता है"@,
        "என்றால் என்ன"@,
    ]
}

/// Factual ("who/when/where/why") markers.
pub open spec fn factual_markers() -> Seq<Seq<char>> {
    seq![
        "who is "@,
        "who was "@,
        "when did "@,
        "when was "@,
        "where is "@,
        "why is "@,
        "why do "@,
        "कौन"@,
        "कब"@,
    ]
}

/// Some marker of `markers` occurs in `text`.
pub open spec fn any_marker(text: Seq<char>, markers: Seq<Seq<char>>) -> bool {
    exists|k: int| 0 <= k < markers.len() && contains_seq(text, #[trigger] markers[k])
}

/// The intent assigned to the already-lowercased text `lower`.
pub open spec fn intent_of_lowercase(lower: Seq<char>) -> QueryIntent {
    if any_marker(lower, comparison_markers()) {
        QueryIntent::Comparison
    } else if any_marker(lower, procedural_markers()) {
        QueryIntent::Procedural
    } else if any_marker(lower, definition_markers()) {
        QueryIntent::Definition
    } else if any_marker(lower, factual_markers()) {
        QueryIntent::Factual
    } else {
        QueryIntent::Unknown
    }
}

/// Whether some marker in `markers` occurs in `text`.
fn has_any_marker(text: &[char], markers: &Vec<Vec<char>>, ghost_markers: Ghost<
    Seq<Seq<char>>,
>) -> (r: bool)
    requires
        markers@.len() == ghost_markers@.len(),
        forall|k: int| 0 <= k < markers@.len() ==> #[trigger] markers@[k]@ == ghost_markers@[k],
    ensures
        r == any_marker(text@, ghost_markers@),
{
    let m = markers.len();
    let mut k: usize = 0;
    while k < m
        invariant
            m == markers@.len(),
            markers@.len() == ghost_markers@.len(),
            forall|j: int| 0 <= j < markers@.len() ==> #[trigger] markers@[j]@ == ghost_markers@[j],
            k <= m,
            forall|j: int| 0 <= j < k ==> !contains_seq(text@, #[trigger] ghost_markers@[j]),
        decreases m - k,
    {
        if contains_chars(text, markers[k].as_slice()) {
            assert(contains_seq(text@, ghost_markers@[k as int]));
            return true;
        }
        k += 1;
    }
    false
}

/// The chars of a marker literal.
fn marker(s: &str) -> (v: Vec<char>)
    ensures
        v@ == s@,
{
    chars_of(s)
}

/// Classifies a normalized query with deterministic keyword heuristics.
///
/// English markers are checked first, then a small set of high-precision
/// Hindi and Tamil markers. Anything unmatched is [`QueryIntent::Unknown`].
pub fn detect_intent(normalized: &str) -> (r: QueryIntent)
    ensures
        r == intent_of_lowercase(str_lowercase(normalized@)),
{
    let lower = str_to_lowercase(normalized);
    intent_of_lowercased(lower.as_str())
}

/// Classifies already-lowercased text by its first matching marker family:
/// comparison, then procedural, definition and factual markers.
pub fn intent_of_lowercased(lowered: &str) -> (r: QueryIntent)
    ensures
        r == intent_of_lowercase(lowered@),
{
    let lower = chars_of(lowered);

    let comparison = vec![
        marker("difference between"),
        marker("compare "),
        marker(" vs "),
        marker("versus "),
        marker("अंतर"),
    ];
    if has_any_marker(lower.as_slice(), &comparison, Ghost(comparison_markers())) {
        return QueryIntent::Comparison;
    }
    let procedural = vec![
        marker("how to "),
        marker("how do "),
        marker("how can "),
        marker("how should "),
        marker("steps to "),
        marker("कैसे"),
        marker("எப்படி"),
    ];
    if has_any_marker(lower.as_slice(), &procedural, Ghost(procedural_markers())) {
        return QueryIntent::Procedural;
    }
    let definition = vec![
        marker("what is "),
        marker("what are "),
        marker("define "),
        marker("definition of "),
        marker("meaning of "),
        marker("क्या है"),
        marker("क्या होता है"),
        marker("என்றால் என்ன"),
    ];
    if has_any_marker(lower.as_slice(), &definition, Ghost(definition_markers())) {
        return QueryIntent::Definition;
    }
    let factual = vec![
        marker("who is "),
        marker("who was "),
        marker("when did "),
        marker("when was "),
        marker("where is "),
        marker("why is "),
        marker("why do "),
        marker("कौन"),
        marker("कब"),
    ];
    if has_any_marker(lower.as_slice(), &factual, Ghost(factual_markers())) {
        return QueryIntent::Factual;
    }
    QueryIntent::Unknown
}

/// Runs the full query-analysis stage: normalization and intent detection.
///
/// Returns `(normalized_text, intent)`.
pub fn analyze(text: &str) -> (r: (String, QueryIntent))
    ensures
        r.0@ == normalize_spec(text@),
        r.1 == intent_of_lowercase(str_lowercase(normalize_spec(text@))),
{
    let normalized = normalize(text);
    let intent = detect_intent(normalized.as_str());
    (normalized, intent)
}

} // verus!
