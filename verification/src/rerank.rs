//! Reranking configuration and the reranker backends' names.

use vstd::prelude::*;

use crate::embed::{trigrams_spec, word_tokens, HashedEmbedder};
use crate::grounding::{dedup_spec, lemma_dedup};
use crate::text::{chars_eq, chars_of, views};

verus! {

/// Which reranker implementation to build from configuration.
#[derive(Debug, Clone, Copy, PartialEq, Eq, Structural)]
pub enum RerankerKind {
    /// [`LexicalOverlapReranker`] (default).
    LexicalOverlap,
    /// [`NoopReranker`]: keeps fusion order and fusion scores.
    Noop,
}

/// The name of the reranker a kind builds.
pub open spec fn reranker_name(k: RerankerKind) -> Seq<char> {
    match k {
        RerankerKind::LexicalOverlap => "lexical_overlap"@,
        RerankerKind::Noop => "noop"@,
    }
}

impl RerankerKind {
    /// Backend name of the reranker this kind builds.
    pub fn name(self) -> (s: &'static str)
        ensures
            s@ == reranker_name(self),
    {
        match self {
            RerankerKind::LexicalOverlap => "lexical_overlap",
            RerankerKind::Noop => "noop",
        }
    }
}

/// Keeps the fused order but trims to `top_k`.
#[derive(Debug, Clone, Copy, PartialEq, Eq, Structural)]
pub struct NoopReranker;

impl NoopReranker {
    /// Backend name used in logs.
    pub fn name(&self) -> (s: &'static str)
        ensures
            s@ == reranker_name(RerankerKind::Noop),
    {
        "noop"
    }
}

/// Token-overlap reranker producing scores in `[0, 1]`.
#[derive(Debug, Clone, Copy, PartialEq, Eq, Structural)]
pub struct LexicalOverlapReranker {
    private: bool,
}

impl LexicalOverlapReranker {
    /// The lexical reranker: it holds no configuration, so there is one.
    pub closed spec fn lexical() -> LexicalOverlapReranker {
        LexicalOverlapReranker { private: false }
    }

    /// Creates the lexical reranker.
    pub fn new() -> (r: LexicalOverlapReranker)
        ensures
            r == Self::lexical(),
    {
        LexicalOverlapReranker { private: false }
    }

    /// Backend name used in logs.
    pub fn name(&self) -> (s: &'static str)
        ensures
            s@ == reranker_name(RerankerKind::LexicalOverlap),
    {
        "lexical_overlap"
    }
}

/// How many times `f` occurs in `list`.
pub open spec fn occurrences(list: Seq<Seq<char>>, f: Seq<char>) -> nat
    decreases list.len(),
{
    if list.len() == 0 {
        0
    } else {
        occurrences(list.drop_last(), f) + if list.last() == f {
            1nat
        } else {
            0nat
        }
    }
}

/// The weight of feature `f` in a text with word tokens `tokens` and
/// trigrams `grams`, in quarters: a whole unit per token occurrence, a
/// quarter per trigram occurrence.
pub open spec fn feature_weight(tokens: Seq<Seq<char>>, grams: Seq<Seq<char>>, f: Seq<char>) -> nat {
    4 * occurrences(tokens, f) + occurrences(grams, f)
}

/// The distinct features of a text, first-seen order.
pub open spec fn features_of(tokens: Seq<Seq<char>>, grams: Seq<Seq<char>>) -> Seq<Seq<char>> {
    dedup_spec(tokens + grams)
}

/// The sum over `feats` of the smaller of the query's and the chunk's
/// weight.
pub open spec fn shared_weight(
    feats: Seq<Seq<char>>,
    qt: Seq<Seq<char>>,
    qg: Seq<Seq<char>>,
    ct: Seq<Seq<char>>,
    cg: Seq<Seq<char>>,
) -> nat
    decreases feats.len(),
{
    if feats.len() == 0 {
        0
    } else {
        let f = feats.last();
        let q = feature_weight(qt, qg, f);
        let c = feature_weight(ct, cg, f);
        shared_weight(feats.drop_last(), qt, qg, ct, cg) + if q < c {
            q
        } else {
            c
        }
    }
}

/// The sum over `feats` of the query's weight.
pub open spec fn total_weight(feats: Seq<Seq<char>>, qt: Seq<Seq<char>>, qg: Seq<Seq<char>>) -> nat
    decreases feats.len(),
{
    if feats.len() == 0 {
        0
    } else {
        total_weight(feats.drop_last(), qt, qg) + feature_weight(qt, qg, feats.last())
    }
}

/// The sum over `d` of indicator `f == x`.
pub open spec fn hits(d: Seq<Seq<char>>, x: Seq<char>) -> nat
    decreases d.len(),
{
    if d.len() == 0 {
        0
    } else {
        hits(d.drop_last(), x) + if d.last() == x {
            1nat
        } else {
            0nat
        }
    }
}

proof fn lemma_hits(d: Seq<Seq<char>>, x: Seq<char>)
    requires
        d.no_duplicates(),
    ensures
        hits(d, x) == if d.contains(x) {
            1nat
        } else {
            0nat
        },
    decreases d.len(),
{
    if d.len() > 0 {
        let p = d.drop_last();
        assert(p.no_duplicates()) by {
            assert forall|i: int, j: int| 0 <= i < p.len() && 0 <= j < p.len() && i != j implies p[i]
                != p[j] by {
                assert(p[i] == d[i] && p[j] == d[j]);
            }
        }
        lemma_hits(p, x);
        if p.contains(x) {
            let k = choose|k: int| 0 <= k < p.len() && p[k] == x;
            assert(d[k] == x);
            assert(d.contains(x));
            assert(d.last() != x) by {
                assert(d[d.len() - 1] != d[k]);
            }
        } else {
            if d.last() == x {
                assert(d[d.len() - 1] == x);
            } else {
                assert forall|k: int| 0 <= k < d.len() implies d[k] != x by {
                    if k < d.len() - 1 {
                        assert(d[k] == p[k]);
                    }
                }
            }
        }
    }
}

/// Summing an occurrence count over the distinct values that cover a list
/// gives the list's length.
proof fn lemma_sum_occurrences(d: Seq<Seq<char>>, l: Seq<Seq<char>>)
    requires
        d.no_duplicates(),
        forall|x: Seq<char>| l.contains(x) ==> d.contains(x),
    ensures
        sum_occ(d, l) == l.len(),
    decreases l.len(),
{
    if l.len() > 0 {
        let p = l.drop_last();
        let x = l.last();
        assert forall|y: Seq<char>| p.contains(y) implies d.contains(y) by {
            let k = choose|k: int| 0 <= k < p.len() && p[k] == y;
            assert(l[k] == y);
        }
        lemma_sum_occurrences(d, p);
        assert(l[l.len() - 1] == x);
        assert(l.contains(x));
        lemma_hits(d, x);
        lemma_sum_occ_push(d, p, x);
        assert(l =~= p.push(x));
    } else {
        lemma_sum_occ_empty(d, l);
    }
}

/// The sum over `d` of the occurrences in `l`.
pub open spec fn sum_occ(d: Seq<Seq<char>>, l: Seq<Seq<char>>) -> nat
    decreases d.len(),
{
    if d.len() == 0 {
        0
    } else {
        sum_occ(d.drop_last(), l) + occurrences(l, d.last())
    }
}

proof fn lemma_sum_occ_empty(d: Seq<Seq<char>>, l: Seq<Seq<char>>)
    requires
        l.len() == 0,
    ensures
        sum_occ(d, l) == 0,
    decreases d.len(),
{
    if d.len() > 0 {
        lemma_sum_occ_empty(d.drop_last(), l);
    }
}

proof fn lemma_sum_occ_push(d: Seq<Seq<char>>, p: Seq<Seq<char>>, x: Seq<char>)
    ensures
        sum_occ(d, p.push(x)) == sum_occ(d, p) + hits(d, x),
    decreases d.len(),
{
    if d.len() > 0 {
        lemma_sum_occ_push(d.drop_last(), p, x);
        assert(p.push(x).drop_last() =~= p);
    }
}

proof fn lemma_total_is_sum(feats: Seq<Seq<char>>, qt: Seq<Seq<char>>, qg: Seq<Seq<char>>)
    ensures
        total_weight(feats, qt, qg) == 4 * sum_occ(feats, qt) + sum_occ(feats, qg),
    decreases feats.len(),
{
    if feats.len() > 0 {
        lemma_total_is_sum(feats.drop_last(), qt, qg);
    }
}

proof fn lemma_shared_le_total(
    feats: Seq<Seq<char>>,
    qt: Seq<Seq<char>>,
    qg: Seq<Seq<char>>,
    ct: Seq<Seq<char>>,
    cg: Seq<Seq<char>>,
)
    ensures
        shared_weight(feats, qt, qg, ct, cg) <= total_weight(feats, qt, qg),
    decreases feats.len(),
{
    if feats.len() > 0 {
        lemma_shared_le_total(feats.drop_last(), qt, qg, ct, cg);
    }
}

/// Counting occurrences over the distinct features of a text recovers the
/// numbers of its tokens and of its trigrams.
pub(crate) proof fn lemma_feature_counts(qt: Seq<Seq<char>>, qg: Seq<Seq<char>>)
    ensures
        sum_occ(features_of(qt, qg), qt) == qt.len(),
        sum_occ(features_of(qt, qg), qg) == qg.len(),
{
    let feats = features_of(qt, qg);
    lemma_dedup(qt + qg);
    assert forall|x: Seq<char>| qt.contains(x) implies feats.contains(x) by {
        let k = choose|k: int| 0 <= k < qt.len() && qt[k] == x;
        assert((qt + qg)[k] == x);
        assert((qt + qg).contains(x));
    }
    assert forall|x: Seq<char>| qg.contains(x) implies feats.contains(x) by {
        let k = choose|k: int| 0 <= k < qg.len() && qg[k] == x;
        assert((qt + qg)[qt.len() + k] == x);
        assert((qt + qg).contains(x));
    }
    lemma_sum_occurrences(feats, qt);
    lemma_sum_occurrences(feats, qg);
}

/// The query's total weight is a whole unit per query token and a quarter
/// per query trigram, and the shared weight never exceeds it: the overlap
/// score lies in `[0, 1]`.
pub proof fn lemma_overlap_bounds(qt: Seq<Seq<char>>, qg: Seq<Seq<char>>, ct: Seq<Seq<char>>, cg: Seq<Seq<char>>)
    ensures
        total_weight(features_of(qt, qg), qt, qg) == 4 * qt.len() + qg.len(),
        shared_weight(features_of(qt, qg), qt, qg, ct, cg) <= total_weight(features_of(qt, qg), qt, qg),
{
    let feats = features_of(qt, qg);
    lemma_feature_counts(qt, qg);
    lemma_total_is_sum(feats, qt, qg);
    lemma_shared_le_total(feats, qt, qg, ct, cg);
}

pub(crate) fn count_in(list: &Vec<String>, f: &[char]) -> (n: usize)
    ensures
        n == occurrences(views(list@), f@),
{
    let m = list.len();
    let mut n: usize = 0;
    let mut k: usize = 0;
    while k < m
        invariant
            m == list@.len(),
            k <= m,
            n <= k,
            n == occurrences(views(list@).take(k as int), f@),
        decreases m - k,
    {
        assert(views(list@).take(k + 1).drop_last() =~= views(list@).take(k as int));
        assert(views(list@).take(k + 1).last() == list@[k as int]@);
        if chars_eq(chars_of(list[k].as_str()).as_slice(), f) {
            n += 1;
        }
        k += 1;
    }
    assert(views(list@).take(m as int) =~= views(list@));
    n
}

pub(crate) fn distinct_features(tokens: &Vec<String>, grams: &Vec<String>) -> (out: Vec<Vec<char>>)
    ensures
        crate::chunk::cviews(out@) == features_of(views(tokens@), views(grams@)),
{
    let ghost all = views(tokens@) + views(grams@);
    let mut out: Vec<Vec<char>> = Vec::new();
    let nt = tokens.len();
    let mut k: usize = 0;
    while k < nt
        invariant
            nt == tokens@.len(),
            all == views(tokens@) + views(grams@),
            k <= nt,
            crate::chunk::cviews(out@) == dedup_spec(all.take(k as int)),
        decreases nt - k,
    {
        let item = chars_of(tokens[k].as_str());
        assert(item@ == all[k as int]);
        assert(all.take(k + 1).drop_last() =~= all.take(k as int));
        assert(all.take(k + 1).last() == all[k as int]);
        if !crate::text::list_contains(&out, item.as_slice()) {
            let ghost before = crate::chunk::cviews(out@);
            out.push(item);
            assert(crate::chunk::cviews(out@) =~= before.push(all[k as int]));
        }
        k += 1;
    }
    let ng = grams.len();
    let mut j: usize = 0;
    while j < ng
        invariant
            nt == tokens@.len(),
            ng == grams@.len(),
            all == views(tokens@) + views(grams@),
            j <= ng,
            crate::chunk::cviews(out@) == dedup_spec(all.take(nt + j)),
        decreases ng - j,
    {
        let ghost at: int = nt + j;
        let item = chars_of(grams[j].as_str());
        assert(item@ == all[at]);
        assert(all.take(at + 1).drop_last() =~= all.take(at));
        assert(all.take(at + 1).last() == all[at]);
        if !crate::text::list_contains(&out, item.as_slice()) {
            let ghost before = crate::chunk::cviews(out@);
            out.push(item);
            assert(crate::chunk::cviews(out@) =~= before.push(all[at]));
        }
        j += 1;
    }
    assert(all.take(nt + ng) =~= all);
    out
}

impl LexicalOverlapReranker {
    /// The query/chunk overlap in quarter units: the weight the chunk
    /// shares with the query's features, and the query's total weight
    /// (a whole unit per word token, a quarter per character trigram). Their
    /// ratio is the relevance score, in `[0, 1]`.
    pub fn overlap(query_text: &str, chunk_text: &str) -> (r: (u128, u128))
        ensures
            ({
                let qt = word_tokens(query_text@);
                let qg = trigrams_spec(query_text@);
                let ct = word_tokens(chunk_text@);
                let cg = trigrams_spec(chunk_text@);
                let feats = features_of(qt, qg);
                &&& r.0 == shared_weight(feats, qt, qg, ct, cg)
                &&& r.1 == total_weight(feats, qt, qg)
                &&& r.0 <= r.1
                &&& r.1 == 4 * qt.len() + qg.len()
            }),
    {
        let qt = HashedEmbedder::tokenize(query_text);
        let qg = HashedEmbedder::char_trigrams(query_text);
        let ct = HashedEmbedder::tokenize(chunk_text);
        let cg = HashedEmbedder::char_trigrams(chunk_text);
        let ghost (sqt, sqg, sct, scg) = (views(qt@), views(qg@), views(ct@), views(cg@));
        let feats = distinct_features(&qt, &qg);
        let ghost fv = crate::chunk::cviews(feats@);
        proof {
            lemma_overlap_bounds(sqt, sqg, sct, scg);
        }
        let n = feats.len();
        let mut shared: u128 = 0;
        let mut total: u128 = 0;
        let mut k: usize = 0;
        while k < n
            invariant
                n == feats@.len(),
                fv == crate::chunk::cviews(feats@),
                fv == features_of(sqt, sqg),
                total_weight(fv, sqt, sqg) == 4 * sqt.len() + sqg.len(),
                sqt.len() <= usize::MAX,
                sqg.len() <= usize::MAX,
                sqt == views(qt@),
                sqg == views(qg@),
                sct == views(ct@),
                scg == views(cg@),
                k <= n,
                shared == shared_weight(fv.take(k as int), sqt, sqg, sct, scg),
                total == total_weight(fv.take(k as int), sqt, sqg),
                shared <= total,
            decreases n - k,
        {
            let f = feats[k].as_slice();
            assert(fv.take(k + 1).drop_last() =~= fv.take(k as int));
            assert(fv.take(k + 1).last() == f@);
            proof {
                lemma_total_prefix(fv, sqt, sqg, k as int + 1);
            }
            let q = 4 * (count_in(&qt, f) as u128) + (count_in(&qg, f) as u128);
            let c = 4 * (count_in(&ct, f) as u128) + (count_in(&cg, f) as u128);
            let m = if q < c {
                q
            } else {
                c
            };
            total = total + q;
            shared = shared + m;
            k += 1;
        }
        assert(fv.take(n as int) =~= fv);
        (shared, total)
    }
}

proof fn lemma_total_prefix(feats: Seq<Seq<char>>, qt: Seq<Seq<char>>, qg: Seq<Seq<char>>, k: int)
    requires
        0 <= k <= feats.len(),
    ensures
        total_weight(feats.take(k), qt, qg) <= total_weight(feats, qt, qg),
    decreases feats.len() - k,
{
    if k < feats.len() {
        lemma_total_prefix(feats, qt, qg, k + 1);
        assert(feats.take(k + 1).drop_last() =~= feats.take(k));
    } else {
        assert(feats.take(k) =~= feats);
    }
}

} // verus!
