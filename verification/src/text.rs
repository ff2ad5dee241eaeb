//! Characters and positions: the character classes both components read, the
//! conversions between text and character vectors, and the line and column of
//! an offset.
use vstd::prelude::*;
use vstd::std_specs::iter::IteratorSpec;
use vstd::string::StrSliceExecFns;

verus! {

/// Whether a character beyond ASCII has the Unicode property White_Space.
pub uninterp spec fn unicode_white_space(c: char) -> bool;

/// Whether a character beyond ASCII has the Unicode property Alphabetic.
pub uninterp spec fn unicode_alphabetic(c: char) -> bool;

/// White space as `char::is_whitespace` sees it: within ASCII the space and the
/// five controls from tab to carriage return, beyond ASCII the Unicode property.
pub open spec fn white_space(c: char) -> bool {
    if (c as u32) < 0x80 {
        c == ' ' || ('\t' <= c && c <= '\r')
    } else {
        unicode_white_space(c)
    }
}

/// A letter as `char::is_alphabetic` sees it: within ASCII the fifty-two
/// letters, beyond ASCII the Unicode property.
pub open spec fn alphabetic(c: char) -> bool {
    if (c as u32) < 0x80 {
        ('a' <= c && c <= 'z') || ('A' <= c && c <= 'Z')
    } else {
        unicode_alphabetic(c)
    }
}

/// A decimal digit.
pub open spec fn decimal_digit(c: char) -> bool {
    '0' <= c && c <= '9'
}

/// An ASCII letter.
pub open spec fn ascii_letter(c: char) -> bool {
    ('a' <= c && c <= 'z') || ('A' <= c && c <= 'Z')
}

/// An ASCII letter or decimal digit.
pub open spec fn ascii_alphanumeric(c: char) -> bool {
    ascii_letter(c) || decimal_digit(c)
}

/// One of the four blanks that the grammar skips: space, tab, carriage return,
/// line feed.
pub open spec fn blank(c: char) -> bool {
    c == ' ' || c == '\t' || c == '\r' || c == '\n'
}

/// `char::is_whitespace` of std. Trusted: the result is the Unicode property
/// White_Space, which within ASCII holds of the space and of tab, line feed,
/// vertical tab, form feed and carriage return only.
pub assume_specification[ char::is_whitespace ](c: char) -> (r: bool)
    ensures
        r == white_space(c),
        (c as u32) >= 0x80 ==> r == unicode_white_space(c),
;

/// `char::is_alphabetic` of std. Trusted: the result is the Unicode property
/// Alphabetic, which within ASCII holds of the letters `a` to `z` and `A` to
/// `Z` only.
pub assume_specification[ char::is_alphabetic ](c: char) -> (r: bool)
    ensures
        r == alphabetic(c),
        (c as u32) >= 0x80 ==> r == unicode_alphabetic(c),
;

/// `String::push` of std. Trusted: the character is appended at the end.
pub assume_specification[ String::push ](s: &mut String, c: char)
    ensures
        final(s)@ == old(s)@.push(c),
;

/// Whether `c` is a decimal digit.
pub fn is_decimal_digit(c: char) -> (r: bool)
    ensures
        r == decimal_digit(c),
{
    '0' <= c && c <= '9'
}

/// Whether `c` is an ASCII letter.
pub fn is_ascii_letter(c: char) -> (r: bool)
    ensures
        r == ascii_letter(c),
{
    ('a' <= c && c <= 'z') || ('A' <= c && c <= 'Z')
}

/// Whether `c` is one of the four blanks.
pub fn is_blank(c: char) -> (r: bool)
    ensures
        r == blank(c),
{
    c == ' ' || c == '\t' || c == '\r' || c == '\n'
}

/// The characters of a text, in order.
pub fn to_chars(s: &str) -> (v: Vec<char>)
    ensures
        v@ == s@,
{
    let mut v: Vec<char> = Vec::new();
    for c in it: s.chars()
        invariant
            v@ == it.seq().take(it.index() as int),
            it.seq() == s@,
    {
        v.push(c);
    }
    v
}

/// The text made of the characters from `from` up to `to`.
pub fn collect(s: &Vec<char>, from: usize, to: usize) -> (r: String)
    requires
        from <= to <= s@.len(),
    ensures
        r@ == s@.subrange(from as int, to as int),
{
    let mut r = String::new();
    let mut i: usize = from;
    while i < to
        invariant
            from <= i <= to <= s@.len(),
            r@ == s@.subrange(from as int, i as int),
        decreases to - i,
    {
        r.push(s[i]);
        i += 1;
        assert(s@.subrange(from as int, i as int) == s@.subrange(from as int, i - 1).push(
            s@[i - 1],
        ));
    }
    r
}

/// Whether two texts hold the same characters.
pub fn same_text(a: &str, b: &str) -> (r: bool)
    ensures
        r == (a@ == b@),
{
    let n = a.unicode_len();
    if n != b.unicode_len() {
        return false;
    }
    let mut i: usize = 0;
    while i < n
        invariant
            i <= n,
            n == a@.len(),
            n == b@.len(),
            forall|k: int| 0 <= k < i ==> a@[k] == b@[k],
        decreases n - i,
    {
        if a.get_char(i) != b.get_char(i) {
            return false;
        }
        i += 1;
    }
    assert(a@ =~= b@);
    true
}

/// The end of the longest run of characters of one class that starts at `i`.
pub open spec fn run_end(s: Seq<char>, i: int, class: spec_fn(char) -> bool) -> int
    decreases s.len() - i,
{
    if 0 <= i < s.len() && class(s[i]) {
        run_end(s, i + 1, class)
    } else {
        i
    }
}

/// A run ends at or after its start and within the text; every character of it
/// is of the class, and the character after it, if there is one, is not.
pub proof fn lemma_run_end(s: Seq<char>, i: int, class: spec_fn(char) -> bool)
    requires
        0 <= i <= s.len(),
    ensures
        i <= run_end(s, i, class) <= s.len(),
        forall|k: int| i <= k < run_end(s, i, class) ==> class(#[trigger] s[k]),
        run_end(s, i, class) < s.len() ==> !class(s[run_end(s, i, class)]),
    decreases s.len() - i,
{
    if i < s.len() && class(s[i]) {
        lemma_run_end(s, i + 1, class);
    }
}

/// A run ends at `e` where every character from `i` up to `e` is of the class
/// and the character at `e`, if there is one, is not.
pub proof fn lemma_run_is(s: Seq<char>, i: int, e: int, class: spec_fn(char) -> bool)
    requires
        0 <= i <= e <= s.len(),
        forall|k: int| i <= k < e ==> class(#[trigger] s[k]),
        e < s.len() ==> !class(s[e]),
    ensures
        run_end(s, i, class) == e,
    decreases e - i,
{
    if i < e {
        lemma_run_is(s, i + 1, e, class);
    }
}

/// A run in a text without its first `d` characters ends where it ends in the
/// whole text.
pub proof fn lemma_run_shift(s: Seq<char>, d: int, i: int, class: spec_fn(char) -> bool)
    requires
        0 <= d <= i <= s.len(),
    ensures
        run_end(s.skip(d), i - d, class) == run_end(s, i, class) - d,
    decreases s.len() - i,
{
    if i < s.len() {
        assert(s.skip(d)[i - d] == s[i]);
        if class(s[i]) {
            lemma_run_shift(s, d, i + 1, class);
        }
    }
}

/// The line of the character at offset `i`, counted from 1: one more than the
/// number of line feeds before it.
pub open spec fn line_at(s: Seq<char>, i: int) -> int
    decreases i,
{
    if i <= 0 {
        1
    } else if s[i - 1] == '\n' {
        line_at(s, i - 1) + 1
    } else {
        line_at(s, i - 1)
    }
}

/// The column of the character at offset `i`, counted from 1: one more than the
/// number of characters between the last line feed before it and itself.
pub open spec fn column_at(s: Seq<char>, i: int) -> int
    decreases i,
{
    if i <= 0 {
        1
    } else if s[i - 1] == '\n' {
        1
    } else {
        column_at(s, i - 1) + 1
    }
}

/// Lines and columns start at 1 and never run ahead of the offset.
pub proof fn lemma_position_bounds(s: Seq<char>, i: int)
    requires
        0 <= i <= s.len(),
    ensures
        1 <= line_at(s, i) <= i + 1,
        1 <= column_at(s, i) <= i + 1,
    decreases i,
{
    if i > 0 {
        lemma_position_bounds(s, i - 1);
    }
}

} // verus!
