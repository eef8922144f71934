//! Zero-padded positional rendering of unsigned integers (`{n:04}`,
//! `{n:012x}`), with the fact that the rendering determines the number.

use vstd::prelude::*;

use crate::text::{push_char, push_chars};

verus! {

/// The lowercase digit for `d` (`0`-`9`, then `a`-`f`).
pub open spec fn digit_char(d: nat) -> char {
    if d < 10 {
        (d + 48) as char
    } else {
        (d + 87) as char
    }
}

/// The value of a digit char produced by [`digit_char`].
pub open spec fn digit_value(c: char) -> nat {
    if c as u32 <= 57 {
        (c as u32 - 48) as nat
    } else {
        (c as u32 - 87) as nat
    }
}

/// The shortest rendering of `n` in `base`, most significant digit first.
pub open spec fn digits(n: nat, base: nat) -> Seq<char>
    decreases n,
{
    if base < 2 || n < base {
        seq![digit_char(n % 16)]
    } else {
        proof {
            assert(n / base < n) by (nonlinear_arith)
                requires
                    base >= 2,
                    n >= base,
            ;
        }
        digits(n / base, base).push(digit_char(n % base))
    }
}

/// `k` zero digits.
pub open spec fn zeros(k: nat) -> Seq<char> {
    Seq::new(k, |i: int| '0')
}

/// `n` in `base`, left-padded with zeros to at least `width` digits.
pub open spec fn padded(n: nat, base: nat, width: nat) -> Seq<char> {
    let d = digits(n, base);
    if d.len() < width {
        zeros((width - d.len()) as nat) + d
    } else {
        d
    }
}

/// The number that a digit string denotes in `base`.
pub open spec fn value_of(s: Seq<char>, base: nat) -> nat
    decreases s.len(),
{
    if s.len() == 0 {
        0
    } else {
        value_of(s.drop_last(), base) * base + digit_value(s.last())
    }
}

/// Every char of `s` is a digit of `base`.
pub open spec fn all_digits(s: Seq<char>, base: nat) -> bool {
    forall|i: int| 0 <= i < s.len() ==> #[trigger] digit_value(s[i]) < base && s[i] == digit_char(
        digit_value(s[i]),
    )
}

proof fn lemma_digit_roundtrip(d: nat)
    requires
        d < 16,
    ensures
        digit_value(digit_char(d)) == d,
        digit_char(d) != '#',
        digit_char(d) != '-',
{
}

/// The rendering of `n` is non-empty, made of digits, and denotes `n`.
pub proof fn lemma_digits(n: nat, base: nat)
    requires
        2 <= base <= 16,
    ensures
        digits(n, base).len() >= 1,
        all_digits(digits(n, base), base),
        value_of(digits(n, base), base) == n,
    decreases n,
{
    if n < base {
        lemma_digit_roundtrip(n);
        assert(n % 16 == n);
        let d = digits(n, base);
        assert(d.drop_last() =~= Seq::<char>::empty());
        assert(value_of(d.drop_last(), base) == 0);
        assert(value_of(d, base) == 0 * base + digit_value(d.last()));
    } else {
        assert(n / base < n && n % base < base && (n / base) * base + n % base == n)
            by (nonlinear_arith)
            requires
                base >= 2,
                n >= base,
        ;
        lemma_digits(n / base, base);
        lemma_digit_roundtrip(n % base);
        let d = digits(n, base);
        assert(d.drop_last() =~= digits(n / base, base));
        assert(d.last() == digit_char(n % base));
        assert(value_of(d, base) == value_of(digits(n / base, base), base) * base + n % base);
        assert forall|i: int| 0 <= i < d.len() implies #[trigger] digit_value(d[i]) < base
            && d[i] == digit_char(digit_value(d[i])) by {
            if i < d.len() - 1 {
                assert(d[i] == digits(n / base, base)[i]);
            }
        }
    }
}

/// Leading zeros do not change the denoted number.
pub proof fn lemma_value_zeros(k: nat, t: Seq<char>, base: nat)
    ensures
        value_of(zeros(k) + t, base) == value_of(t, base),
    decreases t.len(),
{
    if t.len() == 0 {
        assert(zeros(k) + t =~= zeros(k));
        lemma_value_all_zero(k, base);
    } else {
        assert((zeros(k) + t).drop_last() =~= zeros(k) + t.drop_last());
        lemma_value_zeros(k, t.drop_last(), base);
    }
}

proof fn lemma_value_all_zero(k: nat, base: nat)
    ensures
        value_of(zeros(k), base) == 0,
    decreases k,
{
    if k > 0 {
        assert(zeros(k).drop_last() =~= zeros((k - 1) as nat));
        lemma_value_all_zero((k - 1) as nat, base);
        assert(zeros(k).last() == '0');
        assert(digit_value('0') == 0);
        assert(value_of(zeros(k), base) == 0 * base + 0);
    }
}

/// The padded rendering is made of digits, is at least `width` long, and
/// denotes `n`: distinct numbers render differently.
pub proof fn lemma_padded(n: nat, base: nat, width: nat)
    requires
        2 <= base <= 16,
    ensures
        padded(n, base, width).len() >= width,
        padded(n, base, width).len() >= 1,
        all_digits(padded(n, base, width), base),
        value_of(padded(n, base, width), base) == n,
{
    lemma_digits(n, base);
    let d = digits(n, base);
    if d.len() < width {
        let z = zeros((width - d.len()) as nat);
        lemma_value_zeros((width - d.len()) as nat, d, base);
        lemma_digit_roundtrip(0);
        assert forall|i: int| 0 <= i < (z + d).len() implies #[trigger] digit_value((z + d)[i])
            < base && (z + d)[i] == digit_char(digit_value((z + d)[i])) by {
            if i >= z.len() {
                assert((z + d)[i] == d[i - z.len()]);
            } else {
                assert((z + d)[i] == '0');
            }
        }
    }
}

/// Distinct numbers have distinct padded renderings.
pub proof fn lemma_padded_injective(a: nat, b: nat, base: nat, width: nat)
    requires
        2 <= base <= 16,
        padded(a, base, width) == padded(b, base, width),
    ensures
        a == b,
{
    lemma_padded(a, base, width);
    lemma_padded(b, base, width);
}

fn digit_char_exec(d: u128) -> (c: char)
    requires
        d < 16,
    ensures
        c == digit_char(d as nat),
{
    let b = d as u8;
    if b < 10 {
        (b + 48) as char
    } else {
        (b + 87) as char
    }
}

/// Appends `n`, rendered in `base` and zero-padded to `width` digits.
pub fn push_padded(s: &mut String, n: u128, base: u128, width: usize)
    requires
        2 <= base <= 16,
    ensures
        final(s)@ == old(s)@ + padded(n as nat, base as nat, width as nat),
{
    let mut cur = n;
    let mut acc: Vec<char> = Vec::new();
    while cur >= base
        invariant
            2 <= base <= 16,
            digits(n as nat, base as nat) == digits(cur as nat, base as nat) + acc@,
        decreases cur,
    {
        let ghost before = acc@;
        let c = digit_char_exec(cur % base);
        acc.insert(0, c);
        assert(acc@ =~= seq![c] + before);
        assert(digits(cur as nat, base as nat) == digits((cur / base) as nat, base as nat).push(c));
        assert(digits(cur as nat, base as nat) + before =~= digits((cur / base) as nat, base as nat)
            + acc@);
        cur = cur / base;
    }
    let first = digit_char_exec(cur);
    assert(digits(cur as nat, base as nat) == seq![first]);
    acc.insert(0, first);
    assert(acc@ =~= digits(n as nat, base as nat));
    let len = acc.len();
    if len < width {
        let mut k: usize = 0;
        let pad = width - len;
        let ghost start = s@;
        while k < pad
            invariant
                k <= pad,
                s@ == start + zeros(k as nat),
            decreases pad - k,
        {
            push_char(s, '0');
            assert(zeros((k + 1) as nat) =~= zeros(k as nat).push('0'));
            k += 1;
        }
        push_chars(s, acc.as_slice());
        assert(start + zeros(pad as nat) + acc@ =~= start + (zeros(pad as nat) + acc@));
    } else {
        push_chars(s, acc.as_slice());
    }
}

} // verus!
