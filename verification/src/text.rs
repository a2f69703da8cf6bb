//! Character-level helpers shared by the transcript, configuration and
//! protocol code: ASCII classification, Unicode white space, trimming,
//! decimal rendering and conversions between `str`, `String` and `Vec<char>`.

use vstd::prelude::*;
use vstd::string::*;

verus! {

/// An ASCII letter, `A`-`Z` or `a`-`z`.
pub open spec fn is_ascii_letter(c: char) -> bool {
    ('a' <= c && c <= 'z') || ('A' <= c && c <= 'Z')
}

/// ASCII lower-casing of one character; every other character is unchanged.
pub open spec fn lower_ascii(c: char) -> char {
    if 'A' <= c && c <= 'Z' {
        ((c as u32) + 32) as char
    } else {
        c
    }
}

/// ASCII lower-casing of a whole sequence.
pub open spec fn lower_ascii_seq(s: Seq<char>) -> Seq<char> {
    s.map_values(|c: char| lower_ascii(c))
}

/// The characters that carry the Unicode `White_Space` property.
pub open spec fn is_unicode_white_space(c: char) -> bool {
    ||| ('\u{9}' <= c && c <= '\u{d}')
    ||| c == ' '
    ||| c == '\u{85}'
    ||| c == '\u{a0}'
    ||| c == '\u{1680}'
    ||| ('\u{2000}' <= c && c <= '\u{200a}')
    ||| c == '\u{2028}'
    ||| c == '\u{2029}'
    ||| c == '\u{202f}'
    ||| c == '\u{205f}'
    ||| c == '\u{3000}'
}

/// The decimal digit character for a value below ten.
pub open spec fn digit_char(d: nat) -> char {
    if d == 0 {
        '0'
    } else if d == 1 {
        '1'
    } else if d == 2 {
        '2'
    } else if d == 3 {
        '3'
    } else if d == 4 {
        '4'
    } else if d == 5 {
        '5'
    } else if d == 6 {
        '6'
    } else if d == 7 {
        '7'
    } else if d == 8 {
        '8'
    } else {
        '9'
    }
}

fn digit_to_char(d: u64) -> (c: char)
    requires
        d < 10,
    ensures
        c == digit_char(d as nat),
{
    if d == 0 {
        '0'
    } else if d == 1 {
        '1'
    } else if d == 2 {
        '2'
    } else if d == 3 {
        '3'
    } else if d == 4 {
        '4'
    } else if d == 5 {
        '5'
    } else if d == 6 {
        '6'
    } else if d == 7 {
        '7'
    } else if d == 8 {
        '8'
    } else {
        '9'
    }
}

/// The decimal rendering of a natural number, without sign or leading zeros.
pub open spec fn decimal(n: nat) -> Seq<char>
    decreases n,
{
    if n < 10 {
        seq![digit_char(n)]
    } else {
        decimal(n / 10).push(digit_char(n % 10))
    }
}

/// Index of the first character of `s` that is not white space, or `s.len()`.
pub open spec fn trim_start_index(s: Seq<char>, from: int) -> int
    decreases s.len() - from,
{
    if from >= s.len() {
        s.len() as int
    } else if is_unicode_white_space(s[from]) {
        trim_start_index(s, from + 1)
    } else {
        from
    }
}

/// One past the index of the last character of `s[..to]` that is not white
/// space, or 0.
pub open spec fn trim_end_index(s: Seq<char>, to: int) -> int
    decreases to,
{
    if to <= 0 {
        0
    } else if is_unicode_white_space(s[to - 1]) {
        trim_end_index(s, to - 1)
    } else {
        to
    }
}

/// `s` without leading and trailing Unicode white space, as `str::trim` gives it.
pub open spec fn trimmed(s: Seq<char>) -> Seq<char> {
    let a = trim_start_index(s, 0);
    let b = trim_end_index(s, s.len() as int);
    if a < b {
        s.subrange(a, b)
    } else {
        Seq::empty()
    }
}

/// Whether the Unicode `White_Space` property holds for `c`, as
/// `char::is_whitespace` tells it.
pub fn is_white_space(c: char) -> (r: bool)
    ensures
        r == is_unicode_white_space(c),
{
    ('\u{9}' <= c && c <= '\u{d}') || c == ' ' || c == '\u{85}' || c == '\u{a0}' || c == '\u{1680}' || (
    '\u{2000}' <= c && c <= '\u{200a}') || c == '\u{2028}' || c == '\u{2029}' || c == '\u{202f}' || c
        == '\u{205f}' || c == '\u{3000}'
}

/// Appends one character to a `String` (`String::push`).
#[verifier::external_body]
pub(crate) fn push_char(s: &mut String, c: char)
    ensures
        final(s)@ == old(s)@.push(c),
{
    s.push(c);
}

pub fn is_letter(c: char) -> (r: bool)
    ensures
        r == is_ascii_letter(c),
{
    ('a' <= c && c <= 'z') || ('A' <= c && c <= 'Z')
}

pub fn to_lower_ascii(c: char) -> (r: char)
    ensures
        r == lower_ascii(c),
{
    if 'A' <= c && c <= 'Z' {
        let b: u8 = c as u8;
        (b + 32) as char
    } else {
        c
    }
}

/// The characters of `s`, in order.
pub fn chars_of(s: &str) -> (r: Vec<char>)
    ensures
        r@ == s@,
{
    let mut out: Vec<char> = Vec::new();
    for c in it: s.chars()
        invariant
            out@ == it.seq().take(it.index() as int),
    {
        out.push(c);
    }
    out
}

/// A `String` holding exactly the characters of `v`.
pub fn string_of(v: &Vec<char>) -> (r: String)
    ensures
        r@ == v@,
{
    let mut s = String::new();
    let mut i: usize = 0;
    while i < v.len()
        invariant
            i <= v@.len(),
            s@ == v@.take(i as int),
        decreases v.len() - i,
    {
        push_char(&mut s, v[i]);
        assert(v@.take(i + 1) =~= v@.take(i as int).push(v@[i as int]));
        i += 1;
    }
    assert(v@.take(v@.len() as int) =~= v@);
    s
}

/// Whether `w` holds exactly the characters of the literal `lit`.
pub fn word_is(w: &Vec<char>, lit: &str) -> (r: bool)
    ensures
        r == (w@ == lit@),
{
    let n = lit.unicode_len();
    if n != w.len() {
        return false;
    }
    let mut i: usize = 0;
    while i < n
        invariant
            n == lit@.len(),
            n == w@.len(),
            i <= n,
            forall|j: int| 0 <= j < i ==> w@[j] == lit@[j],
        decreases n - i,
    {
        if w[i] != lit.get_char(i) {
            return false;
        }
        i += 1;
    }
    assert(w@ =~= lit@);
    true
}

/// Appends the characters of `src` to `dst`.
pub fn extend_chars(dst: &mut Vec<char>, src: &Vec<char>)
    ensures
        final(dst)@ == old(dst)@ + src@,
{
    let mut i: usize = 0;
    while i < src.len()
        invariant
            i <= src@.len(),
            dst@ == old(dst)@ + src@.take(i as int),
        decreases src.len() - i,
    {
        dst.push(src[i]);
        assert(src@.take(i + 1) =~= src@.take(i as int).push(src@[i as int]));
        i += 1;
    }
    assert(src@.take(src@.len() as int) =~= src@);
}

/// Appends `s[from..to]` to `dst`.
pub fn extend_range(dst: &mut Vec<char>, s: &Vec<char>, from: usize, to: usize)
    requires
        from <= to <= s@.len(),
    ensures
        final(dst)@ == old(dst)@ + s@.subrange(from as int, to as int),
{
    let mut i: usize = from;
    while i < to
        invariant
            from <= i <= to <= s@.len(),
            dst@ == old(dst)@ + s@.subrange(from as int, i as int),
        decreases to - i,
    {
        dst.push(s[i]);
        assert(s@.subrange(from as int, i + 1) =~= s@.subrange(from as int, i as int).push(s@[i as int]));
        i += 1;
    }
}

/// Appends the characters of the literal `lit` to `dst`.
pub fn extend_str(dst: &mut Vec<char>, lit: &str)
    ensures
        final(dst)@ == old(dst)@ + lit@,
{
    let v = chars_of(lit);
    extend_chars(dst, &v);
}

proof fn lemma_decimal_len_pos(n: nat)
    ensures
        decimal(n).len() >= 1,
    decreases n,
{
    if n >= 10 {
        lemma_decimal_len_pos(n / 10);
    }
}

/// The decimal digits of `n`.
pub fn decimal_chars(n: u64) -> (r: Vec<char>)
    ensures
        r@ == decimal(n as nat),
    decreases n,
{
    if n < 10 {
        let c = digit_to_char(n);
        let mut v = Vec::new();
        v.push(c);
        assert(v@ =~= seq![digit_char(n as nat)]);
        v
    } else {
        let mut v = decimal_chars(n / 10);
        let c = digit_to_char(n % 10);
        v.push(c);
        v
    }
}

/// The index of the first character of `s[from..]` that is not white space.
fn first_non_space(s: &Vec<char>) -> (r: usize)
    ensures
        r as int == trim_start_index(s@, 0),
        r <= s@.len(),
{
    let mut i: usize = 0;
    while i < s.len() && is_white_space(s[i])
        invariant
            i <= s@.len(),
            trim_start_index(s@, 0) == trim_start_index(s@, i as int),
        decreases s.len() - i,
    {
        i += 1;
    }
    i
}

fn last_non_space_end(s: &Vec<char>) -> (r: usize)
    ensures
        r as int == trim_end_index(s@, s@.len() as int),
        r <= s@.len(),
{
    let mut j: usize = s.len();
    while j > 0 && is_white_space(s[j - 1])
        invariant
            j <= s@.len(),
            trim_end_index(s@, s@.len() as int) == trim_end_index(s@, j as int),
        decreases j,
    {
        j -= 1;
    }
    j
}

/// `s` without leading Unicode white space, as `str::trim_start` gives it.
pub open spec fn trimmed_start(s: Seq<char>) -> Seq<char> {
    s.subrange(trim_start_index(s, 0), s.len() as int)
}

proof fn lemma_trim_start_index(s: Seq<char>, from: int)
    requires
        0 <= from <= s.len(),
    ensures
        from <= trim_start_index(s, from) <= s.len(),
    decreases s.len() - from,
{
    if from < s.len() && is_unicode_white_space(s[from]) {
        lemma_trim_start_index(s, from + 1);
    }
}

/// `s` without leading Unicode white space.
pub fn trim_start_str(s: &str) -> (r: String)
    ensures
        r@ == trimmed_start(s@),
{
    let chars = chars_of(s);
    let a = first_non_space(&chars);
    let mut out = Vec::new();
    extend_range(&mut out, &chars, a, chars.len());
    assert(out@ =~= trimmed_start(s@));
    string_of(&out)
}

/// `s` without leading and trailing Unicode white space.
pub fn trim_chars(s: &Vec<char>) -> (r: Vec<char>)
    ensures
        r@ == trimmed(s@),
{
    let a = first_non_space(s);
    let b = last_non_space_end(s);
    let mut out = Vec::new();
    if a < b {
        extend_range(&mut out, s, a, b);
        assert(out@ =~= s@.subrange(a as int, b as int));
    } else {
        assert(out@ =~= Seq::<char>::empty());
    }
    out
}

/// What `str::to_lowercase` returns for a string: its full Unicode lower-case
/// mapping, which the Unicode character tables define.
pub uninterp spec fn unicode_lowercase(s: Seq<char>) -> Seq<char>;

/// What `format!("{:?}", s)` renders for a string: the string in double
/// quotes with the escapes of `char::escape_debug`.
pub uninterp spec fn debug_quoted(s: Seq<char>) -> Seq<char>;

/// `str::to_lowercase`: the Unicode lower-case form of `s`.
#[verifier::external_body]
pub(crate) fn to_lowercase(s: &str) -> (r: String)
    ensures
        r@ == unicode_lowercase(s@),
{
    s.to_lowercase()
}

/// The `Debug` rendering of a string (`format!("{:?}", s)`).
#[verifier::external_body]
pub(crate) fn debug_string(s: &str) -> (r: String)
    ensures
        r@ == debug_quoted(s@),
{
    format!("{:?}", s)
}

/// Whether `needle` occurs in `hay` as a contiguous run.
pub open spec fn occurs_in(needle: Seq<char>, hay: Seq<char>) -> bool {
    exists|i: int| 0 <= i <= hay.len() - needle.len() && #[trigger] hay.subrange(i, i + needle.len()) == needle
}

/// Whether `needle` occurs in `hay` (`str::contains` with a string pattern).
pub fn contains_chars(hay: &Vec<char>, needle: &Vec<char>) -> (r: bool)
    ensures
        r == occurs_in(needle@, hay@),
{
    if needle.len() > hay.len() {
        return false;
    }
    if needle.len() == 0 {
        assert(hay@.subrange(0, 0int + needle@.len()) =~= needle@);
        return true;
    }
    let last = hay.len() - needle.len();
    let mut i: usize = 0;
    while i <= last
        invariant
            last == hay@.len() - needle@.len(),
            needle@.len() >= 1,
            hay@.len() <= usize::MAX,
            i <= last + 1,
            forall|k: int| 0 <= k < i ==> #[trigger] hay@.subrange(k, k + needle@.len()) != needle@,
        decreases last + 1 - i,
    {
        let mut j: usize = 0;
        let mut same = true;
        while j < needle.len()
            invariant
                i <= last,
                last == hay@.len() - needle@.len(),
                i + needle@.len() <= hay@.len(),
                hay@.len() <= usize::MAX,
                j <= needle@.len(),
                same == (forall|m: int| 0 <= m < j ==> hay@[i + m] == needle@[m]),
            decreases needle.len() - j,
        {
            if hay[i + j] != needle[j] {
                same = false;
            }
            j += 1;
        }
        if same {
            assert(hay@.subrange(i as int, i + needle@.len()) =~= needle@);
            return true;
        }
        proof {
            let k = choose|m: int| 0 <= m < needle@.len() && hay@[i + m] != needle@[m];
            assert(hay@.subrange(i as int, i + needle@.len())[k] != needle@[k]);
        }
        i += 1;
    }
    false
}

/// A `String` concatenating `a` and `b`.
pub fn concat_str(a: &str, b: &str) -> (r: String)
    ensures
        r@ == a@ + b@,
{
    let mut v = chars_of(a);
    extend_str(&mut v, b);
    string_of(&v)
}

} // verus!
