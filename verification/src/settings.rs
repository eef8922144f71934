//! Name-to-value setting sources and the splitting of list-valued settings.

use vstd::prelude::*;

use crate::chunk::cviews;
use crate::text::{chars_eq, chars_of, string_from};

verus! {

/// The value bound to `name` in `vars`: the first pair with that name.
pub open spec fn lookup(vars: Seq<(String, String)>, name: Seq<char>) -> Option<Seq<char>>
    decreases vars.len(),
{
    if vars.len() == 0 {
        None
    } else if vars[0].0@ == name {
        Some(vars[0].1@)
    } else {
        lookup(vars.drop_first(), name)
    }
}

/// Looks `name` up in `vars`.
pub fn lookup_var(vars: &[(String, String)], name: &str) -> (r: Option<String>)
    ensures
        match lookup(vars@, name@) {
            None => r is None,
            Some(v) => r matches Some(x) && x@ == v,
        },
{
    let key = chars_of(name);
    let n = vars.len();
    let mut i: usize = 0;
    assert(vars@.subrange(0, n as int) =~= vars@);
    while i < n
        invariant
            n == vars@.len(),
            i <= n,
            key@ == name@,
            lookup(vars@.subrange(i as int, n as int), name@) == lookup(vars@, name@),
        decreases n - i,
    {
        let ghost rest = vars@.subrange(i as int, n as int);
        assert(rest[0] == vars@[i as int]);
        assert(rest.drop_first() =~= vars@.subrange(i + 1, n as int));
        if chars_eq(chars_of(vars[i].0.as_str()).as_slice(), key.as_slice()) {
            return Some(string_from(chars_of(vars[i].1.as_str()).as_slice()));
        }
        i += 1;
    }
    None
}

/// The pieces of `s` between occurrences of `sep` (`str::split` with a
/// char pattern): always at least one, possibly empty.
pub open spec fn segments(s: Seq<char>, sep: char) -> Seq<Seq<char>>
    decreases s.len(),
{
    if s.len() == 0 {
        seq![seq![]]
    } else {
        let segs = segments(s.drop_last(), sep);
        if s.last() == sep {
            segs.push(seq![])
        } else {
            segs.drop_last().push(segs.last().push(s.last()))
        }
    }
}

/// There is always at least one piece.
pub proof fn lemma_segments_nonempty(s: Seq<char>, sep: char)
    ensures
        segments(s, sep).len() >= 1,
    decreases s.len(),
{
    if s.len() > 0 {
        lemma_segments_nonempty(s.drop_last(), sep);
    }
}

/// Splits `s` at every `sep`.
pub fn split_chars(s: &[char], sep: char) -> (out: Vec<Vec<char>>)
    ensures
        cviews(out@) == segments(s@, sep),
        out@.len() >= 1,
{
    let n = s.len();
    let mut out: Vec<Vec<char>> = Vec::new();
    out.push(Vec::new());
    assert(cviews(out@) =~= segments(s@.take(0), sep));
    let mut i: usize = 0;
    while i < n
        invariant
            n == s@.len(),
            i <= n,
            out@.len() >= 1,
            cviews(out@) == segments(s@.take(i as int), sep),
        decreases n - i,
    {
        let c = s[i];
        assert(s@.take(i + 1).drop_last() =~= s@.take(i as int));
        assert(s@.take(i + 1).last() == c);
        let ghost before = cviews(out@);
        if c == sep {
            out.push(Vec::new());
            assert(cviews(out@) =~= before.push(seq![]));
        } else {
            let mut last = out.pop().unwrap();
            assert(cviews(out@) =~= before.drop_last());
            last.push(c);
            out.push(last);
            assert(cviews(out@) =~= before.drop_last().push(before.last().push(c)));
        }
        i += 1;
    }
    assert(s@.take(n as int) =~= s@);
    out
}

} // verus!
