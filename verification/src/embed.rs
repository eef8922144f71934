//! Feature extraction and hashing for the offline hashed embedder: word
//! unigrams and character trigrams hashed (FNV-1a) into a fixed number of
//! signed slots. Deterministic and script-agnostic (Latin, Devanagari, and
//! Tamil alike).

use vstd::prelude::*;
use vstd::string::StringSliceAdditionalSpecFns;

use crate::rerank::{count_in, distinct_features, features_of, lemma_feature_counts, occurrences, sum_occ};
use crate::text::{
    chars_of, char_is_alphanumeric, char_is_whitespace, char_lowercase, char_to_lowercase,
    is_white_space, string_from, unicode_alphanumeric, views,
};

verus! {

/// FNV-1a 64-bit offset basis.
pub const FNV_OFFSET: u64 = 0xcbf29ce484222325;

/// FNV-1a 64-bit prime.
pub const FNV_PRIME: u64 = 0x100000001b3;

/// FNV-1a 64-bit hash of `bytes`: for each byte, xor it in, then multiply
/// by the prime modulo 2^64.
pub open spec fn fnv1a_spec(bytes: Seq<u8>) -> u64
    decreases bytes.len(),
{
    if bytes.len() == 0 {
        FNV_OFFSET
    } else {
        let h = fnv1a_spec(bytes.drop_last()) ^ (bytes.last() as u64);
        ((h as nat * FNV_PRIME as nat) % 0x1_0000_0000_0000_0000nat) as u64
    }
}

/// FNV-1a 64-bit hash of a byte string.
pub fn fnv1a(bytes: &[u8]) -> (h: u64)
    ensures
        h == fnv1a_spec(bytes@),
{
    let mut hash: u64 = FNV_OFFSET;
    let n = bytes.len();
    let mut i: usize = 0;
    while i < n
        invariant
            n == bytes@.len(),
            i <= n,
            hash == fnv1a_spec(bytes@.take(i as int)),
        decreases n - i,
    {
        assert(bytes@.take(i + 1).drop_last() =~= bytes@.take(i as int));
        assert(bytes@.take(i + 1).last() == bytes@[i as int]);
        hash = hash ^ (bytes[i] as u64);
        hash = hash.wrapping_mul(FNV_PRIME);
        i += 1;
    }
    assert(bytes@.take(n as int) =~= bytes@);
    hash
}

/// The stable vector-store point id of a chunk: FNV-1a of the UTF-8 bytes
/// of its identifier.
pub fn qdrant_point_id(chunk_id: &str) -> (id: u64)
    ensures
        id == fnv1a_spec(chunk_id.spec_bytes()),
{
    fnv1a(chunk_id.as_bytes())
}

/// The scan of `s` into lowercased alphanumeric runs: the finished tokens
/// and the run in progress.
pub open spec fn word_scan(s: Seq<char>) -> (Seq<Seq<char>>, Seq<char>)
    decreases s.len(),
{
    if s.len() == 0 {
        (seq![], seq![])
    } else {
        let (tokens, current) = word_scan(s.drop_last());
        let c = s.last();
        if unicode_alphanumeric(c) {
            (tokens, current + char_lowercase(c))
        } else if current.len() > 0 {
            (tokens.push(current), seq![])
        } else {
            (tokens, current)
        }
    }
}

/// The lowercased word tokens of `s`: maximal runs of alphanumeric chars.
pub open spec fn word_tokens(s: Seq<char>) -> Seq<Seq<char>> {
    let (tokens, current) = word_scan(s);
    if current.len() > 0 {
        tokens.push(current)
    } else {
        tokens
    }
}

/// The lowercased non-white characters of `s`, in order.
pub open spec fn folded_chars(s: Seq<char>) -> Seq<char>
    decreases s.len(),
{
    if s.len() == 0 {
        seq![]
    } else if is_white_space(s.last()) {
        folded_chars(s.drop_last())
    } else {
        folded_chars(s.drop_last()) + char_lowercase(s.last())
    }
}

/// The character trigrams of `s`: every window of three consecutive chars
/// of [`folded_chars`], in order.
pub open spec fn trigrams_spec(s: Seq<char>) -> Seq<Seq<char>> {
    let f = folded_chars(s);
    if f.len() < 3 {
        seq![]
    } else {
        Seq::new((f.len() - 2) as nat, |i: int| f.subrange(i, i + 3))
    }
}

/// The FNV-1a hash of the UTF-8 bytes of the feature `f`.
pub open spec fn feature_hash(f: Seq<char>) -> u64 {
    fnv1a_spec(vstd::utf8::encode_utf8(f))
}

/// The weight of feature `f` of a text with word tokens `tokens` and
/// trigrams `grams`, in half units: two per token occurrence, one per
/// trigram occurrence.
pub open spec fn embed_weight(tokens: Seq<Seq<char>>, grams: Seq<Seq<char>>, f: Seq<char>) -> nat {
    2 * occurrences(tokens, f) + occurrences(grams, f)
}

/// The weight of `f` with the sign its hash's top bit gives it.
pub open spec fn signed_weight(tokens: Seq<Seq<char>>, grams: Seq<Seq<char>>, f: Seq<char>) -> int {
    if feature_hash(f) >= 0x8000_0000_0000_0000 {
        embed_weight(tokens, grams, f) as int
    } else {
        -(embed_weight(tokens, grams, f) as int)
    }
}

/// The sum of the signed weights of the features of `feats` that hash to
/// slot `i` of `dim`.
pub open spec fn slot_total(
    feats: Seq<Seq<char>>,
    tokens: Seq<Seq<char>>,
    grams: Seq<Seq<char>>,
    dim: nat,
    i: int,
) -> int
    decreases feats.len(),
{
    if feats.len() == 0 {
        0
    } else {
        let f = feats.last();
        slot_total(feats.drop_last(), tokens, grams, dim, i) + if feature_hash(f) as int % dim as int
            == i {
            signed_weight(tokens, grams, f)
        } else {
            0
        }
    }
}

/// The sum of the weights of `feats`.
pub open spec fn weight_sum(feats: Seq<Seq<char>>, tokens: Seq<Seq<char>>, grams: Seq<Seq<char>>) -> nat
    decreases feats.len(),
{
    if feats.len() == 0 {
        0
    } else {
        weight_sum(feats.drop_last(), tokens, grams) + embed_weight(tokens, grams, feats.last())
    }
}

proof fn lemma_weight_sum(feats: Seq<Seq<char>>, tokens: Seq<Seq<char>>, grams: Seq<Seq<char>>)
    ensures
        weight_sum(feats, tokens, grams) == 2 * sum_occ(feats, tokens) + sum_occ(feats, grams),
    decreases feats.len(),
{
    if feats.len() > 0 {
        lemma_weight_sum(feats.drop_last(), tokens, grams);
    }
}

proof fn lemma_weight_sum_prefix(feats: Seq<Seq<char>>, tokens: Seq<Seq<char>>, grams: Seq<Seq<char>>, k: int)
    requires
        0 <= k <= feats.len(),
    ensures
        weight_sum(feats.take(k), tokens, grams) <= weight_sum(feats, tokens, grams),
    decreases feats.len() - k,
{
    if k < feats.len() {
        lemma_weight_sum_prefix(feats, tokens, grams, k + 1);
        assert(feats.take(k + 1).drop_last() =~= feats.take(k));
    } else {
        assert(feats.take(k) =~= feats);
    }
}

/// Deterministic hashed embedder over word unigrams + character trigrams.
#[derive(Debug, Clone, Copy, PartialEq, Eq, Structural)]
pub struct HashedEmbedder {
    dim: usize,
}

impl HashedEmbedder {
    /// Creates an embedder producing `dim`-dimensional vectors.
    pub fn new(dim: usize) -> (e: HashedEmbedder)
        ensures
            e.dim_spec() == dim,
    {
        HashedEmbedder { dim }
    }

    /// Dimensionality of produced vectors.
    pub closed spec fn dim_spec(&self) -> usize {
        self.dim
    }

    /// Dimensionality of produced vectors.
    pub fn dim(&self) -> (d: usize)
        ensures
            d == self.dim_spec(),
    {
        self.dim
    }

    /// Backend name used in logs.
    pub fn name(&self) -> (s: &'static str)
        ensures
            s@ == "hashed"@,
    {
        "hashed"
    }

    /// Lowercased word tokens of the text (Unicode-alphanumeric runs).
    pub fn tokenize(text: &str) -> (tokens: Vec<String>)
        ensures
            views(tokens@) == word_tokens(text@),
    {
        let chars = chars_of(text);
        let n = chars.len();
        let mut tokens: Vec<String> = Vec::new();
        let mut current: Vec<char> = Vec::new();
        let mut i: usize = 0;
        while i < n
            invariant
                n == chars@.len(),
                chars@ == text@,
                i <= n,
                (views(tokens@), current@) == word_scan(text@.take(i as int)),
            decreases n - i,
        {
            let c = chars[i];
            assert(text@.take(i + 1).drop_last() =~= text@.take(i as int));
            assert(text@.take(i + 1).last() == c);
            if char_is_alphanumeric(c) {
                let lower = char_to_lowercase(c);
                let mut k: usize = 0;
                let ghost start = current@;
                while k < lower.len()
                    invariant
                        k <= lower@.len(),
                        current@ == start + lower@.take(k as int),
                    decreases lower@.len() - k,
                {
                    current.push(lower[k]);
                    assert(lower@.take(k + 1) =~= lower@.take(k as int).push(lower@[k as int]));
                    k += 1;
                }
                assert(lower@.take(lower@.len() as int) =~= lower@);
            } else if current.len() > 0 {
                let ghost before = views(tokens@);
                tokens.push(string_from(current.as_slice()));
                assert(views(tokens@) =~= before.push(current@));
                current = Vec::new();
            }
            i += 1;
        }
        assert(text@.take(n as int) =~= text@);
        if current.len() > 0 {
            let ghost before = views(tokens@);
            tokens.push(string_from(current.as_slice()));
            assert(views(tokens@) =~= before.push(current@));
        }
        tokens
    }

    /// Character trigrams across the whole text (white space removed,
    /// lowercased), giving sub-word robustness for Indic morphology.
    pub fn char_trigrams(text: &str) -> (trigrams: Vec<String>)
        ensures
            views(trigrams@) == trigrams_spec(text@),
    {
        let chars = chars_of(text);
        let n = chars.len();
        let mut folded: Vec<char> = Vec::new();
        let mut i: usize = 0;
        while i < n
            invariant
                n == chars@.len(),
                chars@ == text@,
                i <= n,
                folded@ == folded_chars(text@.take(i as int)),
            decreases n - i,
        {
            let c = chars[i];
            assert(text@.take(i + 1).drop_last() =~= text@.take(i as int));
            assert(text@.take(i + 1).last() == c);
            if !char_is_whitespace(c) {
                let lower = char_to_lowercase(c);
                let mut k: usize = 0;
                let ghost start = folded@;
                while k < lower.len()
                    invariant
                        k <= lower@.len(),
                        folded@ == start + lower@.take(k as int),
                    decreases lower@.len() - k,
                {
                    folded.push(lower[k]);
                    assert(lower@.take(k + 1) =~= lower@.take(k as int).push(lower@[k as int]));
                    k += 1;
                }
                assert(lower@.take(lower@.len() as int) =~= lower@);
            }
            i += 1;
        }
        assert(text@.take(n as int) =~= text@);
        let mut trigrams: Vec<String> = Vec::new();
        let m = folded.len();
        if m < 3 {
            assert(views(trigrams@) =~= trigrams_spec(text@));
            return trigrams;
        }
        let mut j: usize = 0;
        while j < m - 2
            invariant
                m == folded@.len(),
                m >= 3,
                j <= m - 2,
                folded@ == folded_chars(text@),
                views(trigrams@) =~= trigrams_spec(text@).take(j as int),
            decreases m - j,
        {
            let mut w: Vec<char> = Vec::new();
            w.push(folded[j]);
            w.push(folded[j + 1]);
            w.push(folded[j + 2]);
            assert(w@ =~= folded@.subrange(j as int, j + 3));
            let ghost before = views(trigrams@);
            trigrams.push(string_from(w.as_slice()));
            assert(views(trigrams@) =~= before.push(w@));
            assert(trigrams_spec(text@).take(j + 1) =~= trigrams_spec(text@).take(j as int).push(
                folded@.subrange(j as int, j + 3),
            ));
            j += 1;
        }
        assert(trigrams_spec(text@).take(j as int) =~= trigrams_spec(text@));
        trigrams
    }

    /// The slot a feature hashes to, and whether it counts positively
    /// (the top bit of its hash); none when the dimension is zero.
    pub fn feature_slot(&self, feature: &str) -> (r: Option<(usize, bool)>)
        ensures
            self.dim_spec() == 0 ==> r is None,
            self.dim_spec() > 0 ==> r == Some(
                (
                    (fnv1a_spec(feature.spec_bytes()) % (self.dim_spec() as u64)) as usize,
                    fnv1a_spec(feature.spec_bytes()) >= 0x8000_0000_0000_0000,
                ),
            ),
    {
        if self.dim == 0 {
            return None;
        }
        let hash = fnv1a(feature.as_bytes());
        let index = (hash % (self.dim as u64)) as usize;
        let positive = hash >= 0x8000_0000_0000_0000;
        Some((index, positive))
    }

    /// The embedding of `text` before normalization, in half units: every
    /// distinct feature (word token or character trigram) adds its weight,
    /// two halves per token occurrence and one per trigram occurrence, to
    /// the slot it hashes to, with the sign of its hash's top bit.
    pub fn slot_weights(&self, text: &str) -> (w: Vec<i128>)
        ensures
            w@.len() == self.dim_spec(),
            forall|i: int|
                0 <= i < w@.len() ==> w@[i] == slot_total(
                    features_of(word_tokens(text@), trigrams_spec(text@)),
                    word_tokens(text@),
                    trigrams_spec(text@),
                    self.dim_spec() as nat,
                    i,
                ),
    {
        let tokens = Self::tokenize(text);
        let grams = Self::char_trigrams(text);
        let feats = distinct_features(&tokens, &grams);
        let ghost tv = views(tokens@);
        let ghost gv = views(grams@);
        let ghost fv = crate::chunk::cviews(feats@);
        let ghost dim = self.dim as nat;
        let token_count = tokens.len();
        let gram_count = grams.len();
        proof {
            lemma_feature_counts(tv, gv);
            lemma_weight_sum(fv, tv, gv);
            assert(tv.len() == token_count);
            assert(gv.len() == gram_count);
        }
        let mut w: Vec<i128> = Vec::new();
        let mut z: usize = 0;
        while z < self.dim
            invariant
                z <= self.dim,
                w@.len() == z,
                forall|i: int| 0 <= i < z ==> w@[i] == 0,
            decreases self.dim - z,
        {
            w.push(0);
            z += 1;
        }
        let n = feats.len();
        let mut k: usize = 0;
        while k < n
            invariant
                n == feats@.len(),
                fv == crate::chunk::cviews(feats@),
                fv == features_of(tv, gv),
                tv == views(tokens@),
                gv == views(grams@),
                dim == self.dim_spec(),
                w@.len() == dim,
                weight_sum(fv, tv, gv) == 2 * tv.len() + gv.len(),
                tv.len() <= usize::MAX,
                gv.len() <= usize::MAX,
                k <= n,
                forall|i: int| 0 <= i < dim ==> w@[i] == slot_total(fv.take(k as int), tv, gv, dim, i),
                forall|i: int|
                    0 <= i < dim ==> -(weight_sum(fv.take(k as int), tv, gv) as int) <= #[trigger] w@[i]
                        <= weight_sum(fv.take(k as int), tv, gv),
            decreases n - k,
        {
            let f = feats[k].as_slice();
            let ghost pre = fv.take(k as int);
            assert(fv.take(k + 1).drop_last() =~= pre);
            assert(fv.take(k + 1).last() == f@);
            proof {
                lemma_weight_sum_prefix(fv, tv, gv, k as int + 1);
            }
            let weight = 2 * (count_in(&tokens, f) as i128) + (count_in(&grams, f) as i128);
            let name = string_from(f);
            match self.feature_slot(name.as_str()) {
                Some((slot, positive)) => {
                    let current = w[slot];
                    let updated = if positive {
                        current + weight
                    } else {
                        current - weight
                    };
                    w.set(slot, updated);
                },
                None => {},
            }
            k += 1;
        }
        assert(fv.take(n as int) =~= fv);
        w
    }
}

} // verus!
