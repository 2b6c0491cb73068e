//! Characters as the rest of the library sees them: their UTF-8 length, their
//! case-folded form, whether they are blanks and how many terminal cells they
//! take.

use vstd::prelude::*;

verus! {

/// Number of bytes `c` takes in UTF-8.
pub open spec fn utf8_len(c: char) -> nat {
    if (c as u32) < 0x80 {
        1
    } else if (c as u32) < 0x800 {
        2
    } else if (c as u32) < 0x10000 {
        3
    } else {
        4
    }
}

/// Number of bytes the characters `s` take in UTF-8.
pub open spec fn byte_len(s: Seq<char>) -> nat
    decreases s.len(),
{
    if s.len() == 0 {
        0
    } else {
        byte_len(s.drop_last()) + utf8_len(s.last())
    }
}

/// Byte offset of character index `i` in `s`.
pub open spec fn byte_offset(s: Seq<char>, i: int) -> nat {
    byte_len(s.take(i))
}

/// The UTF-8 length of a character, computed from its code point.
pub fn char_len(c: char) -> (n: usize)
    ensures
        n == utf8_len(c),
        1 <= n <= 4,
{
    let v = c as u32;
    if v < 0x80 {
        1
    } else if v < 0x800 {
        2
    } else if v < 0x10000 {
        3
    } else {
        4
    }
}

} // verus!

verus! {

/// `byte_len` of a concatenation is the sum of the parts.
pub proof fn lemma_byte_len_concat(a: Seq<char>, b: Seq<char>)
    ensures
        byte_len(a + b) == byte_len(a) + byte_len(b),
    decreases b.len(),
{
    if b.len() == 0 {
        assert(a + b =~= a);
    } else {
        lemma_byte_len_concat(a, b.drop_last());
        assert((a + b).drop_last() =~= a + b.drop_last());
    }
}

/// Extending a prefix by one character adds that character's length.
pub proof fn lemma_byte_offset_step(s: Seq<char>, i: int)
    requires
        0 <= i < s.len(),
    ensures
        byte_offset(s, i + 1) == byte_offset(s, i) + utf8_len(s[i]),
{
    assert(s.take(i + 1).drop_last() =~= s.take(i));
}

/// Byte offsets grow strictly with the character index.
pub proof fn lemma_byte_offset_mono(s: Seq<char>, i: int, j: int)
    requires
        0 <= i <= j <= s.len(),
    ensures
        byte_offset(s, i) <= byte_offset(s, j),
        i < j ==> byte_offset(s, i) < byte_offset(s, j),
    decreases j - i,
{
    if i < j {
        lemma_byte_offset_mono(s, i, j - 1);
        lemma_byte_offset_step(s, j - 1);
    }
}

/// The characters of `s`, in order.
pub fn chars_of(s: &str) -> (v: Vec<char>)
    ensures
        v@ == s@,
{
    broadcast use vstd::string::group_string_axioms;
    let mut v: Vec<char> = Vec::new();
    for c in it: s.chars()
        invariant
            v@ == it.seq().take(it.index() as int),
    {
        v.push(c);
    }
    v
}

} // verus!

verus! {

/// The UTF-8 encoding vstd gives a `str` has `byte_len` bytes.
pub proof fn lemma_encoded_len(s: Seq<char>)
    ensures
        vstd::utf8::encode_utf8(s).len() == byte_len(s),
    decreases s.len(),
{
    if s.len() > 0 {
        lemma_encoded_len(s.drop_first());
        vstd::utf8::char_is_scalar(s[0]);
        let v = s[0] as u32;
        assert(vstd::utf8::encode_scalar(v).len() == utf8_len(s[0]));
        assert(s =~= seq![s[0]] + s.drop_first());
        lemma_byte_len_concat(seq![s[0]], s.drop_first());
        assert(seq![s[0]].drop_last() =~= Seq::<char>::empty());
        assert(byte_len(Seq::<char>::empty()) == 0);
        assert(seq![s[0]].last() == s[0]);
        assert(byte_len(seq![s[0]]) == utf8_len(s[0]));
        assert(byte_len(s) == utf8_len(s[0]) + byte_len(s.drop_first()));
    }
}

/// The length in bytes of a string slice.
pub fn str_byte_len(s: &str) -> (n: usize)
    ensures
        n == byte_len(s@),
{
    proof {
        lemma_encoded_len(s@);
    }
    s.as_bytes().len()
}

/// Appends `c` to `s`: a wrapper around `String::push`, which the standard
/// library documents as appending the character to the end of the string.
#[verifier::external_body]
pub(crate) fn push_char(s: &mut String, c: char)
    ensures
        final(s)@ == old(s)@.push(c),
{
    s.push(c)
}

/// A `String` holding exactly the characters `chars`.
pub fn string_of(chars: &[char]) -> (s: String)
    ensures
        s@ == chars@,
{
    let mut s = String::new();
    let mut i: usize = 0;
    while i < chars.len()
        invariant
            i <= chars.len(),
            s@ == chars@.take(i as int),
        decreases chars.len() - i,
    {
        push_char(&mut s, chars[i]);
        i += 1;
        assert(s@ =~= chars@.take(i as int));
    }
    assert(chars@.take(i as int) =~= chars@);
    s
}

} // verus!

verus! {

/// The lowercase mapping of `c`, as `char::to_lowercase` yields it.
pub uninterp spec fn lowercase(c: char) -> Seq<char>;

/// Whether `c` has the Unicode `White_Space` property, which is what
/// `char::is_whitespace` reports: tab through carriage return, space, next
/// line, no-break space, ogham space mark, the spaces U+2000 to U+200A, the
/// line and paragraph separators, narrow no-break space, medium mathematical
/// space and ideographic space.
#[verifier::opaque]
pub open spec fn is_blank(c: char) -> bool {
    let u = c as u32;
    ||| 0x09 <= u <= 0x0d
    ||| u == 0x20
    ||| u == 0x85
    ||| u == 0xa0
    ||| u == 0x1680
    ||| 0x2000 <= u <= 0x200a
    ||| u == 0x2028
    ||| u == 0x2029
    ||| u == 0x202f
    ||| u == 0x205f
    ||| u == 0x3000
}

/// The display width `unicode_width` gives a single character (`None` for a
/// control character).
pub uninterp spec fn char_cells(c: char) -> Option<usize>;

/// The display width `unicode_width` gives a whole string.
pub uninterp spec fn str_cells(s: Seq<char>) -> usize;

/// Calls `char::to_lowercase` and collects what it yields. The standard
/// library documents the mapping as one or more characters, the character
/// itself where it has no lowercase mapping; in ASCII that maps `A`-`Z` to
/// `a`-`z` and leaves every other character as it is. The rest of the
/// Unicode lowercase mapping is left to the name `lowercase`.
#[verifier::external_body]
pub(crate) fn to_lowercase(c: char) -> (r: Vec<char>)
    ensures
        r@ == lowercase(c),
        r@.len() >= 1,
        0x41 <= (c as u32) <= 0x5a ==> r@ == seq![((c as u32) + 32) as char],
        (c as u32) < 0x80 && !(0x41 <= (c as u32) <= 0x5a) ==> r@ == seq![c],
{
    c.to_lowercase().collect()
}

/// Whether `c` is white space (the same answer as `char::is_whitespace`).
pub fn is_whitespace(c: char) -> (r: bool)
    ensures
        r == is_blank(c),
{
    proof {
        reveal(is_blank);
    }
    let u = c as u32;
    (0x09 <= u && u <= 0x0d) || u == 0x20 || u == 0x85 || u == 0xa0 || u == 0x1680 || (0x2000 <= u
        && u <= 0x200a) || u == 0x2028 || u == 0x2029 || u == 0x202f || u == 0x205f || u == 0x3000
}

/// Calls `UnicodeWidthChar::width` of the `unicode-width` crate. Its source
/// gives printable ASCII one cell, C0 and C1 control characters `None`, and
/// never more than three cells to any character; the rest of its table is
/// left to the name `char_cells`.
#[verifier::external_body]
pub(crate) fn char_width(c: char) -> (r: Option<usize>)
    ensures
        r == char_cells(c),
        r matches Some(w) ==> w <= 3,
        0x20 <= (c as u32) < 0x7f ==> r == Some(1usize),
        (c as u32) < 0x20 || (0x7f <= (c as u32) < 0xa0) ==> r is None,
{
    unicode_width::UnicodeWidthChar::width(c)
}

} // verus!

verus! {

/// The byte offset of every character index of `t`, end included.
pub fn byte_offsets(t: &Vec<char>) -> (r: Vec<usize>)
    requires
        byte_len(t@) <= usize::MAX,
    ensures
        r@.len() == t@.len() + 1,
        forall|i: int| 0 <= i <= t@.len() ==> r@[i] == byte_offset(t@, i),
{
    let mut r: Vec<usize> = Vec::new();
    let mut b: usize = 0;
    let mut i: usize = 0;
    proof {
        assert(t@.take(0) =~= Seq::<char>::empty());
    }
    while i < t.len()
        invariant
            i <= t.len(),
            r@.len() == i,
            b == byte_offset(t@, i as int),
            byte_len(t@) <= usize::MAX,
            forall|j: int| 0 <= j < i ==> r@[j] == byte_offset(t@, j),
        decreases t.len() - i,
    {
        r.push(b);
        proof {
            lemma_byte_offset_step(t@, i as int);
            lemma_byte_offset_mono(t@, i as int + 1, t@.len() as int);
            assert(t@.take(t@.len() as int) =~= t@);
        }
        b = b + char_len(t[i]);
        i += 1;
    }
    r.push(b);
    r
}

/// A `String` holding the characters `t[from..to]`.
pub fn string_of_range(t: &Vec<char>, from: usize, to: usize) -> (s: String)
    requires
        from <= to <= t.len(),
    ensures
        s@ == t@.subrange(from as int, to as int),
{
    let mut s = String::new();
    let mut j = from;
    while j < to
        invariant
            from <= j <= to <= t.len(),
            s@ == t@.subrange(from as int, j as int),
        decreases to - j,
    {
        push_char(&mut s, t[j]);
        proof {
            assert(t@.subrange(from as int, j as int + 1) =~= t@.subrange(from as int, j as int).push(t@[j as int]));
        }
        j += 1;
    }
    s
}


/// The empty text takes no bytes.
pub proof fn lemma_byte_len_empty()
    ensures
        byte_len(Seq::<char>::empty()) == 0,
{
}


/// Every character takes at least one byte.
pub proof fn lemma_len_le_byte_len(s: Seq<char>)
    ensures
        s.len() <= byte_len(s),
    decreases s.len(),
{
    if s.len() > 0 {
        lemma_len_le_byte_len(s.drop_last());
    }
}

} // verus!

verus! {

/// Whether two string slices hold the same characters.
pub fn str_eq(a: &str, b: &str) -> (r: bool)
    ensures
        r == (a@ == b@),
{
    let x = chars_of(a);
    let y = chars_of(b);
    if x.len() != y.len() {
        return false;
    }
    let mut i: usize = 0;
    while i < x.len()
        invariant
            x@.len() == y@.len(),
            x@ == a@,
            y@ == b@,
            i <= x.len(),
            forall|j: int| 0 <= j < i ==> x@[j] == y@[j],
        decreases x.len() - i,
    {
        if x[i] != y[i] {
            return false;
        }
        i += 1;
    }
    proof {
        assert(x@ =~= y@);
    }
    true
}

/// Appends `t` to `s`: a wrapper around `String::push_str`, which the standard
/// library documents as appending the slice to the end of the string.
#[verifier::external_body]
pub(crate) fn push_str(s: &mut String, t: &str)
    ensures
        final(s)@ == old(s)@ + t@,
{
    s.push_str(t)
}

} // verus!
