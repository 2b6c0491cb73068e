//! Plain-text helpers over character sequences: splitting into lines, trimming
//! blanks, and reading decimal numbers.

use vstd::prelude::*;
use crate::unicode::{is_blank, is_whitespace};

verus! {

/// The index of the first `c` in `s` at or after `i`, or `s.len()`.
pub open spec fn index_of(s: Seq<char>, c: char, i: int) -> int
    decreases s.len() - i,
{
    if i < 0 || i >= s.len() {
        s.len() as int
    } else if s[i] == c {
        i
    } else {
        index_of(s, c, i + 1)
    }
}

/// `s` cut at every `sep`; `k` pieces for `k - 1` separators.
pub open spec fn split(s: Seq<char>, sep: char) -> Seq<Seq<char>>
    decreases s.len(),
{
    let i = index_of(s, sep, 0);
    if i >= s.len() {
        seq![s]
    } else {
        proof {
            lemma_index_of_bounds(s, sep, 0);
        }
        seq![s.take(i)] + split(s.skip(i + 1), sep)
    }
}

/// `index_of` lands between where it started and the end.
pub proof fn lemma_index_of_bounds(s: Seq<char>, c: char, i: int)
    requires
        0 <= i,
    ensures
        i <= index_of(s, c, i) <= s.len() || i > s.len(),
        index_of(s, c, i) < s.len() ==> s[index_of(s, c, i)] == c,
        forall|j: int| i <= j < index_of(s, c, i) ==> s[j] != c,
    decreases s.len() - i,
{
    if i < s.len() && s[i] != c {
        lemma_index_of_bounds(s, c, i + 1);
    }
}

/// `s` without its leading blanks.
pub open spec fn trim_start(s: Seq<char>) -> Seq<char>
    decreases s.len(),
{
    if s.len() > 0 && is_blank(s[0]) {
        trim_start(s.drop_first())
    } else {
        s
    }
}

/// `s` without its trailing blanks.
pub open spec fn trim_end(s: Seq<char>) -> Seq<char>
    decreases s.len(),
{
    if s.len() > 0 && is_blank(s.last()) {
        trim_end(s.drop_last())
    } else {
        s
    }
}

/// `s` without leading and trailing blanks.
pub open spec fn trim(s: Seq<char>) -> Seq<char> {
    trim_end(trim_start(s))
}

/// Whether `c` is an ASCII decimal digit.
pub open spec fn is_digit(c: char) -> bool {
    '0' <= c <= '9'
}

/// The value of the decimal digits `s` (most significant first).
pub open spec fn digits_value(s: Seq<char>) -> nat
    decreases s.len(),
{
    if s.len() == 0 {
        0
    } else {
        digits_value(s.drop_last()) * 10 + ((s.last() as u32) - 48) as nat
    }
}

/// All of `s` is decimal digits.
pub open spec fn all_digits(s: Seq<char>) -> bool {
    forall|i: int| 0 <= i < s.len() ==> is_digit(#[trigger] s[i])
}

proof fn lemma_trim_start_is_suffix(s: Seq<char>)
    ensures
        trim_start(s).len() <= s.len(),
        trim_start(s) == s.skip(s.len() - trim_start(s).len()),
    decreases s.len(),
{
    if s.len() > 0 && is_blank(s[0]) {
        lemma_trim_start_is_suffix(s.drop_first());
        assert(s.drop_first().skip(s.drop_first().len() - trim_start(s.drop_first()).len()) =~= s.skip(
            s.len() - trim_start(s).len(),
        ));
    } else {
        assert(s.skip(0) =~= s);
    }
}

proof fn lemma_trim_end_is_prefix(s: Seq<char>)
    ensures
        trim_end(s).len() <= s.len(),
        trim_end(s) == s.take(trim_end(s).len() as int),
    decreases s.len(),
{
    if s.len() > 0 && is_blank(s.last()) {
        lemma_trim_end_is_prefix(s.drop_last());
        assert(s.drop_last().take(trim_end(s.drop_last()).len() as int) =~= s.take(
            trim_end(s).len() as int,
        ));
    } else {
        assert(s.take(s.len() as int) =~= s);
    }
}

/// The range `[a, b)` of `t[from..to]` that is left once blanks are trimmed
/// from both ends.
pub fn trim_range(t: &Vec<char>, from: usize, to: usize) -> (r: (usize, usize))
    requires
        from <= to <= t.len(),
    ensures
        from <= r.0 <= r.1 <= to,
        t@.subrange(r.0 as int, r.1 as int) == trim(t@.subrange(from as int, to as int)),
{
    let ghost s = t@.subrange(from as int, to as int);
    let mut a = from;
    while a < to && is_whitespace(t[a])
        invariant
            from <= a <= to <= t.len(),
            trim_start(t@.subrange(a as int, to as int)) == trim_start(s),
        decreases to - a,
    {
        proof {
            assert(t@.subrange(a as int, to as int).drop_first() =~= t@.subrange(a + 1, to as int));
        }
        a += 1;
    }
    let ghost st = t@.subrange(a as int, to as int);
    proof {
        assert(trim_start(st) == st);
    }
    let mut b = to;
    while b > a && is_whitespace(t[b - 1])
        invariant
            from <= a <= b <= to <= t.len(),
            trim_end(t@.subrange(a as int, b as int)) == trim_end(st),
        decreases b - a,
    {
        proof {
            assert(t@.subrange(a as int, b as int).drop_last() =~= t@.subrange(a as int, b - 1));
        }
        b -= 1;
    }
    proof {
        assert(trim_end(t@.subrange(a as int, b as int)) == t@.subrange(a as int, b as int));
    }
    (a, b)
}

/// The first `c` in `t[from..to]`, or `to`.
pub fn find_char(t: &Vec<char>, from: usize, to: usize, c: char) -> (r: usize)
    requires
        from <= to <= t.len(),
    ensures
        from <= r <= to,
        r == from + index_of(t@.subrange(from as int, to as int), c, 0),
{
    let ghost s = t@.subrange(from as int, to as int);
    let mut i = from;
    while i < to && t[i] != c
        invariant
            from <= i <= to <= t.len(),
            s == t@.subrange(from as int, to as int),
            index_of(s, c, (i - from) as int) == index_of(s, c, 0),
        decreases to - i,
    {
        proof {
            assert(s[i - from] == t@[i as int]);
        }
        i += 1;
    }
    i
}

/// The first blank in `t[from..to]`, or `to`.
pub fn find_blank(t: &Vec<char>, from: usize, to: usize) -> (r: usize)
    requires
        from <= to <= t.len(),
    ensures
        from <= r <= to,
        forall|j: int| from <= j < r ==> !is_blank(t@[j]),
        r < to ==> is_blank(t@[r as int]),
{
    let mut i = from;
    while i < to && !is_whitespace(t[i])
        invariant
            from <= i <= to <= t.len(),
            forall|j: int| from <= j < i ==> !is_blank(t@[j]),
        decreases to - i,
    {
        i += 1;
    }
    i
}

/// Reads the decimal digits `t[from..to]`; `None` when one of them is not a
/// digit or the value does not fit in 64 bits.
pub fn read_digits(t: &Vec<char>, from: usize, to: usize) -> (r: Option<u64>)
    requires
        from <= to <= t.len(),
    ensures
        match r {
            Some(v) => all_digits(t@.subrange(from as int, to as int)) && v == digits_value(
                t@.subrange(from as int, to as int),
            ),
            None => !all_digits(t@.subrange(from as int, to as int)) || digits_value(
                t@.subrange(from as int, to as int),
            ) > u64::MAX,
        },
{
    let mut v: u64 = 0;
    let mut i = from;
    while i < to
        invariant
            from <= i <= to <= t.len(),
            all_digits(t@.subrange(from as int, i as int)),
            v == digits_value(t@.subrange(from as int, i as int)),
        decreases to - i,
    {
        let c = t[i];
        proof {
            assert(t@.subrange(from as int, i + 1).drop_last() =~= t@.subrange(from as int, i as int));
        }
        if c < '0' || c > '9' {
            proof {
                assert(t@.subrange(from as int, to as int)[i - from] == c);
            }
            return None;
        }
        let d = (c as u32 - 48) as u64;
        if v > (u64::MAX - d) / 10 {
            proof {
                lemma_digits_prefix(t@.subrange(from as int, to as int), (i - from + 1) as int);
                assert(t@.subrange(from as int, to as int).take(i - from + 1) =~= t@.subrange(
                    from as int,
                    i + 1,
                ));
                assert(v * 10 + d > u64::MAX) by (nonlinear_arith)
                    requires
                        v > (u64::MAX - d) / 10,
                        d <= 9,
                ;
                assert(all_digits(t@.subrange(from as int, to as int)) ==> all_digits(t@.subrange(from as int, i + 1)));
            }
            return None;
        }
        proof {
            assert(v * 10 + d <= u64::MAX) by (nonlinear_arith)
                requires
                    v <= (u64::MAX - d) / 10,
                    d <= 9,
            ;
        }
        v = v * 10 + d;
        i += 1;
        proof {
            assert(all_digits(t@.subrange(from as int, i as int)));
        }
    }
    Some(v)
}

/// A longer run of digits is worth at least as much as its prefix.
pub proof fn lemma_digits_prefix(s: Seq<char>, n: int)
    requires
        0 <= n <= s.len(),
    ensures
        all_digits(s) ==> digits_value(s.take(n)) <= digits_value(s),
    decreases s.len() - n,
{
    if n < s.len() {
        lemma_digits_prefix(s, n + 1);
        assert(s.take(n + 1).drop_last() =~= s.take(n));
        if all_digits(s) {
            assert(is_digit(s[n]));
        }
    } else {
        assert(s.take(n) =~= s);
    }
}

} // verus!

verus! {

/// Whether every character of `t[from..to]` is a decimal digit.
pub fn digits_only(t: &Vec<char>, from: usize, to: usize) -> (r: bool)
    requires
        from <= to <= t.len(),
    ensures
        r == all_digits(t@.subrange(from as int, to as int)),
{
    let mut i = from;
    while i < to
        invariant
            from <= i <= to <= t.len(),
            all_digits(t@.subrange(from as int, i as int)),
        decreases to - i,
    {
        if t[i] < '0' || t[i] > '9' {
            proof {
                assert(t@.subrange(from as int, to as int)[i - from] == t@[i as int]);
            }
            return false;
        }
        i += 1;
        proof {
            assert forall|j: int| 0 <= j < i - from implies is_digit(
                #[trigger] t@.subrange(from as int, i as int)[j],
            ) by {
                if j < i - from - 1 {
                    assert(t@.subrange(from as int, i as int)[j] == t@.subrange(from as int, i - 1)[j]);
                }
            }
        }
    }
    true
}

} // verus!
