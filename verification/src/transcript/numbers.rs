//! Rendering of spoken number phrases ("one one eight decimal five") as
//! digits ("118.5") inside otherwise unchanged transcript text.

use vstd::prelude::*;
use crate::text::{
    chars_of, decimal, decimal_chars, extend_chars, extend_range, extend_str, is_ascii_letter, is_letter,
    is_unicode_white_space, is_white_space, lower_ascii_seq, string_of, to_lower_ascii, word_is,
};

verus! {

// ---------------------------------------------------------------------------
// Vocabulary
// ---------------------------------------------------------------------------

/// The digit that a spoken digit word (including ICAO variants) stands for.
pub open spec fn digit_word(w: Seq<char>) -> Option<char> {
    if w == "zero"@ || w == "oh"@ || w == "nought"@ || w == "nil"@ {
        Some('0')
    } else if w == "one"@ {
        Some('1')
    } else if w == "two"@ {
        Some('2')
    } else if w == "three"@ || w == "tree"@ {
        Some('3')
    } else if w == "four"@ || w == "fower"@ {
        Some('4')
    } else if w == "five"@ || w == "fife"@ {
        Some('5')
    } else if w == "six"@ {
        Some('6')
    } else if w == "seven"@ {
        Some('7')
    } else if w == "eight"@ {
        Some('8')
    } else if w == "nine"@ || w == "niner"@ || w == "nineer"@ {
        Some('9')
    } else {
        None
    }
}

/// The numeric value of a digit character `'0'`..`'9'`.
pub open spec fn digit_value(c: char) -> u64 {
    ((c as u32) - ('0' as u32)) as u64
}

/// The value of a cardinal number word below one hundred.
pub open spec fn cardinal_word(w: Seq<char>) -> Option<u64> {
    if digit_word(w) is Some {
        Some(digit_value(digit_word(w)->0))
    } else if w == "ten"@ {
        Some(10)
    } else if w == "eleven"@ {
        Some(11)
    } else if w == "twelve"@ {
        Some(12)
    } else if w == "thirteen"@ {
        Some(13)
    } else if w == "fourteen"@ {
        Some(14)
    } else if w == "fifteen"@ {
        Some(15)
    } else if w == "sixteen"@ {
        Some(16)
    } else if w == "seventeen"@ {
        Some(17)
    } else if w == "eighteen"@ {
        Some(18)
    } else if w == "nineteen"@ {
        Some(19)
    } else if w == "twenty"@ {
        Some(20)
    } else if w == "thirty"@ {
        Some(30)
    } else if w == "forty"@ {
        Some(40)
    } else if w == "fifty"@ {
        Some(50)
    } else if w == "sixty"@ {
        Some(60)
    } else if w == "seventy"@ {
        Some(70)
    } else if w == "eighty"@ {
        Some(80)
    } else if w == "ninety"@ {
        Some(90)
    } else {
        None
    }
}

pub open spec fn scale_word(w: Seq<char>) -> bool {
    w == "hundred"@ || w == "thousand"@ || w == "million"@
}

pub open spec fn connector_word(w: Seq<char>) -> bool {
    w == "and"@ || w == "decimal"@ || w == "point"@
}

pub open spec fn repeat_word(w: Seq<char>) -> bool {
    w == "double"@ || w == "triple"@
}

pub open spec fn decimal_word(w: Seq<char>) -> bool {
    w == "decimal"@ || w == "point"@
}

/// A word that may continue a number phrase.
pub open spec fn number_word(w: Seq<char>) -> bool {
    cardinal_word(w) is Some || scale_word(w) || connector_word(w) || repeat_word(w)
}

/// A word that may begin a number phrase.
pub open spec fn number_start(w: Seq<char>) -> bool {
    cardinal_word(w) is Some || repeat_word(w)
}

fn spoken_digit(w: &Vec<char>) -> (r: Option<char>)
    ensures
        r == digit_word(w@),
{
    if word_is(w, "zero") || word_is(w, "oh") || word_is(w, "nought") || word_is(w, "nil") {
        Some('0')
    } else if word_is(w, "one") {
        Some('1')
    } else if word_is(w, "two") {
        Some('2')
    } else if word_is(w, "three") || word_is(w, "tree") {
        Some('3')
    } else if word_is(w, "four") || word_is(w, "fower") {
        Some('4')
    } else if word_is(w, "five") || word_is(w, "fife") {
        Some('5')
    } else if word_is(w, "six") {
        Some('6')
    } else if word_is(w, "seven") {
        Some('7')
    } else if word_is(w, "eight") {
        Some('8')
    } else if word_is(w, "nine") || word_is(w, "niner") || word_is(w, "nineer") {
        Some('9')
    } else {
        None
    }
}

fn cardinal_value(w: &Vec<char>) -> (r: Option<u64>)
    ensures
        r == cardinal_word(w@),
        r is Some ==> r->0 <= 90,
{
    if let Some(d) = spoken_digit(w) {
        let v: u32 = (d as u32) - ('0' as u32);
        return Some(v as u64);
    }
    if word_is(w, "ten") {
        Some(10)
    } else if word_is(w, "eleven") {
        Some(11)
    } else if word_is(w, "twelve") {
        Some(12)
    } else if word_is(w, "thirteen") {
        Some(13)
    } else if word_is(w, "fourteen") {
        Some(14)
    } else if word_is(w, "fifteen") {
        Some(15)
    } else if word_is(w, "sixteen") {
        Some(16)
    } else if word_is(w, "seventeen") {
        Some(17)
    } else if word_is(w, "eighteen") {
        Some(18)
    } else if word_is(w, "nineteen") {
        Some(19)
    } else if word_is(w, "twenty") {
        Some(20)
    } else if word_is(w, "thirty") {
        Some(30)
    } else if word_is(w, "forty") {
        Some(40)
    } else if word_is(w, "fifty") {
        Some(50)
    } else if word_is(w, "sixty") {
        Some(60)
    } else if word_is(w, "seventy") {
        Some(70)
    } else if word_is(w, "eighty") {
        Some(80)
    } else if word_is(w, "ninety") {
        Some(90)
    } else {
        None
    }
}

fn is_scale(w: &Vec<char>) -> (r: bool)
    ensures
        r == scale_word(w@),
{
    word_is(w, "hundred") || word_is(w, "thousand") || word_is(w, "million")
}

fn is_connector(w: &Vec<char>) -> (r: bool)
    ensures
        r == connector_word(w@),
{
    word_is(w, "and") || word_is(w, "decimal") || word_is(w, "point")
}

fn is_repeat(w: &Vec<char>) -> (r: bool)
    ensures
        r == repeat_word(w@),
{
    word_is(w, "double") || word_is(w, "triple")
}

fn is_number_word(w: &Vec<char>) -> (r: bool)
    ensures
        r == number_word(w@),
{
    cardinal_value(w).is_some() || is_scale(w) || is_connector(w) || is_repeat(w)
}

fn is_number_start(w: &Vec<char>) -> (r: bool)
    ensures
        r == number_start(w@),
{
    cardinal_value(w).is_some() || is_repeat(w)
}


// ---------------------------------------------------------------------------
// Token sequences
// ---------------------------------------------------------------------------

/// The character sequences held by a vector of words.
pub open spec fn words(v: Seq<Vec<char>>) -> Seq<Seq<char>> {
    v.map_values(|w: Vec<char>| w@)
}

pub open spec fn opt_words(v: Option<Vec<Vec<char>>>) -> Option<Seq<Seq<char>>> {
    match v {
        Some(v) => Some(words(v@)),
        None => None,
    }
}

pub open spec fn prepend<T>(a: Seq<T>, rest: Option<Seq<T>>) -> Option<Seq<T>> {
    match rest {
        Some(r) => Some(a + r),
        None => None,
    }
}

/// `toks[i..]` with every "double d" written as "d d" and every "triple d" as
/// "d d d"; `None` when a repeat word is not followed by a digit word.
pub open spec fn expand_from(toks: Seq<Seq<char>>, i: int) -> Option<Seq<Seq<char>>>
    decreases toks.len() - i,
{
    if i < 0 || i >= toks.len() {
        Some(Seq::empty())
    } else if !repeat_word(toks[i]) {
        prepend(seq![toks[i]], expand_from(toks, i + 1))
    } else if i + 1 >= toks.len() || digit_word(toks[i + 1]) is None {
        None
    } else {
        let n: nat = if toks[i] == "double"@ { 2 } else { 3 };
        prepend(Seq::new(n, |k: int| toks[i + 1]), expand_from(toks, i + 2))
    }
}

/// The words of `s` other than "and", in order.
pub open spec fn without_and(s: Seq<Seq<char>>) -> Seq<Seq<char>>
    decreases s.len(),
{
    if s.len() == 0 {
        s
    } else if s.last() == "and"@ {
        without_and(s.drop_last())
    } else {
        without_and(s.drop_last()).push(s.last())
    }
}

/// Whether every word of `s` is a spoken digit.
pub open spec fn all_digit_words(s: Seq<Seq<char>>) -> bool {
    forall|k: int| 0 <= k < s.len() ==> (#[trigger] digit_word(s[k])) is Some
}

/// The digits that a run of spoken digit words spells.
pub open spec fn digits_of(s: Seq<Seq<char>>) -> Seq<char>
    decreases s.len(),
{
    if s.len() == 0 {
        Seq::empty()
    } else {
        digits_of(s.drop_last()).push(digit_word(s.last())->0)
    }
}

pub open spec fn at_least_one(v: int) -> int {
    if v < 1 { 1 } else { v }
}

pub open spec fn fits_u64(v: int) -> bool {
    0 <= v <= u64::MAX
}

/// One step of the running total of a cardinal phrase: the pair is the
/// completed total and the group under construction; `None` on a word that
/// is no cardinal, or when a value would leave `u64`.
pub open spec fn cardinal_step(acc: (int, int), w: Seq<char>) -> Option<(int, int)> {
    let (total, current) = acc;
    if cardinal_word(w) is Some {
        let v = current + cardinal_word(w)->0;
        if fits_u64(v) { Some((total, v)) } else { None }
    } else if w == "hundred"@ {
        let v = at_least_one(current) * 100;
        if fits_u64(v) { Some((total, v)) } else { None }
    } else if w == "thousand"@ {
        let m = at_least_one(current) * 1000;
        if fits_u64(m) && fits_u64(total + m) { Some((total + m, 0)) } else { None }
    } else if w == "million"@ {
        let a = total + at_least_one(current);
        if fits_u64(a) && fits_u64(a * 1000000) { Some((a * 1000000, 0)) } else { None }
    } else {
        None
    }
}

pub open spec fn cardinal_fold(s: Seq<Seq<char>>) -> Option<(int, int)>
    decreases s.len(),
{
    if s.len() == 0 {
        Some((0, 0))
    } else {
        match cardinal_fold(s.drop_last()) {
            Some(acc) => cardinal_step(acc, s.last()),
            None => None,
        }
    }
}

/// The digits of a whole number spoken as words: a run of digit words is
/// read digit by digit, anything else as a cardinal ("six thousand").
pub open spec fn integer_words(toks: Seq<Seq<char>>) -> Option<Seq<char>> {
    let f = without_and(toks);
    if f.len() == 0 {
        None
    } else if all_digit_words(f) {
        Some(digits_of(f))
    } else {
        match cardinal_fold(f) {
            Some((total, current)) => if fits_u64(total + current) {
                Some(decimal((total + current) as nat))
            } else {
                None
            },
            None => None,
        }
    }
}

fn copy_word(w: &Vec<char>) -> (r: Vec<char>)
    ensures
        r@ == w@,
{
    let mut r: Vec<char> = Vec::new();
    extend_chars(&mut r, w);
    assert(r@ =~= w@);
    r
}

fn expand_repeated_digits(tokens: &Vec<Vec<char>>) -> (r: Option<Vec<Vec<char>>>)
    ensures
        opt_words(r) == expand_from(words(tokens@), 0),
{
    let ghost t = words(tokens@);
    let mut expanded: Vec<Vec<char>> = Vec::new();
    let mut index: usize = 0;
    while index < tokens.len()
        invariant
            t == words(tokens@),
            index <= tokens@.len(),
            expand_from(t, 0) == prepend(words(expanded@), expand_from(t, index as int)),
        decreases tokens.len() - index,
    {
        let token = &tokens[index];
        if !is_repeat(token) {
            let ghost before = words(expanded@);
            expanded.push(copy_word(token));
            assert(words(expanded@) =~= before + seq![t[index as int]]);
            assert(expand_from(t, index as int) == prepend(seq![t[index as int]], expand_from(t, index as int + 1)));
            proof {
                match expand_from(t, index as int + 1) {
                    Some(r) => assert(before + (seq![t[index as int]] + r) =~= (before + seq![t[index as int]]) + r),
                    None => {},
                }
            }
            index += 1;
            continue;
        }
        if index + 1 >= tokens.len() {
            return None;
        }
        let digit = &tokens[index + 1];
        if spoken_digit(digit).is_none() {
            return None;
        }
        let repetitions: usize = if word_is(token, "double") { 2 } else { 3 };
        let ghost before = words(expanded@);
        let ghost rep = Seq::new(repetitions as nat, |k: int| t[index + 1]);
        let mut k: usize = 0;
        while k < repetitions
            invariant
                k <= repetitions,
                index + 1 < tokens@.len(),
                t == words(tokens@),
                digit@ == t[index + 1],
                words(expanded@) == before + Seq::new(k as nat, |j: int| t[index + 1]),
            decreases repetitions - k,
        {
            let ghost old_e = expanded@;
            expanded.push(copy_word(digit));
            assert(expanded@ == old_e.push(expanded@.last()));
            assert(words(expanded@) =~= words(old_e).push(t[index + 1]));
            assert(words(expanded@) =~= before + Seq::new((k + 1) as nat, |j: int| t[index + 1]));
            k += 1;
        }
        assert(words(expanded@) == before + rep);
        proof {
            match expand_from(t, index as int + 2) {
                Some(r) => assert(before + (rep + r) =~= (before + rep) + r),
                None => {},
            }
        }
        index += 2;
    }
    assert(words(expanded@) + Seq::empty() =~= words(expanded@));
    Some(expanded)
}

/// The words of `tokens` other than "and".
fn drop_and_words(tokens: &Vec<Vec<char>>) -> (r: Vec<Vec<char>>)
    ensures
        words(r@) == without_and(words(tokens@)),
{
    let ghost t = words(tokens@);
    let mut kept: Vec<Vec<char>> = Vec::new();
    let mut i: usize = 0;
    while i < tokens.len()
        invariant
            t == words(tokens@),
            i <= tokens@.len(),
            words(kept@) == without_and(t.take(i as int)),
        decreases tokens.len() - i,
    {
        assert(t.take(i + 1).drop_last() =~= t.take(i as int));
        if !word_is(&tokens[i], "and") {
            kept.push(copy_word(&tokens[i]));
            assert(words(kept@) =~= without_and(t.take(i as int)).push(t[i as int]));
        }
        i += 1;
    }
    assert(t.take(tokens@.len() as int) =~= t);
    kept
}

/// The digits spelled by `kept` when every word is a spoken digit.
fn digit_run(kept: &Vec<Vec<char>>) -> (r: Option<Vec<char>>)
    ensures
        r is Some <==> all_digit_words(words(kept@)),
        r is Some ==> r->0@ == digits_of(words(kept@)),
{
    let ghost f = words(kept@);
    let mut digits: Vec<char> = Vec::new();
    let mut j: usize = 0;
    while j < kept.len()
        invariant
            f == words(kept@),
            j <= kept@.len(),
            all_digit_words(f.take(j as int)),
            digits@ == digits_of(f.take(j as int)),
        decreases kept.len() - j,
    {
        match spoken_digit(&kept[j]) {
            Some(d) => {
                assert(f.take(j + 1).drop_last() =~= f.take(j as int));
                digits.push(d);
                assert(all_digit_words(f.take(j + 1))) by {
                    assert forall|k: int| 0 <= k < j + 1 implies (#[trigger] digit_word(f.take(j + 1)[k])) is Some by {
                        if k < j {
                            assert(f.take(j + 1)[k] == f.take(j as int)[k]);
                        }
                    }
                }
            },
            None => {
                assert(digit_word(f[j as int]) is None);
                return None;
            },
        }
        j += 1;
    }
    assert(f.take(kept@.len() as int) =~= f);
    Some(digits)
}

fn parse_integer_words(tokens: &Vec<Vec<char>>) -> (r: Option<Vec<char>>)
    ensures
        match r {
            Some(v) => integer_words(words(tokens@)) == Some(v@),
            None => integer_words(words(tokens@)) is None,
        },
{
    let ghost t = words(tokens@);
    let kept = drop_and_words(tokens);
    let ghost f = words(kept@);
    if kept.len() == 0 {
        return None;
    }
    if let Some(digits) = digit_run(&kept) {
        return Some(digits);
    }
    // a cardinal phrase
    let mut total: u64 = 0;
    let mut current: u64 = 0;
    let mut k: usize = 0;
    while k < kept.len()
        invariant
            f == words(kept@),
            t == words(tokens@),
            f == without_and(t),
            !all_digit_words(f),
            k <= kept@.len(),
            cardinal_fold(f.take(k as int)) == Some((total as int, current as int)),
        decreases kept.len() - k,
    {
        let tok = &kept[k];
        assert(f.take(k + 1).drop_last() =~= f.take(k as int));
        assert(f.take(k + 1).last() == f[k as int]);
        if let Some(value) = cardinal_value(tok) {
            match current.checked_add(value) {
                Some(v) => current = v,
                None => {
                    proof { lemma_fold_none_extends(f, k as int + 1); }
                    return None;
                },
            }
        } else {
            let base: u64 = if current < 1 { 1 } else { current };
            if word_is(tok, "hundred") {
                match base.checked_mul(100) {
                    Some(v) => current = v,
                    None => {
                        proof { lemma_fold_none_extends(f, k as int + 1); }
                        return None;
                    },
                }
            } else if word_is(tok, "thousand") {
                match base.checked_mul(1000) {
                    Some(m) => match total.checked_add(m) {
                        Some(v) => {
                            total = v;
                            current = 0;
                        },
                        None => {
                            proof { lemma_fold_none_extends(f, k as int + 1); }
                            return None;
                        },
                    },
                    None => {
                        proof { lemma_fold_none_extends(f, k as int + 1); }
                        return None;
                    },
                }
            } else if word_is(tok, "million") {
                match total.checked_add(base) {
                    Some(a) => match a.checked_mul(1000000) {
                        Some(v) => {
                            total = v;
                            current = 0;
                        },
                        None => {
                            proof { lemma_fold_none_extends(f, k as int + 1); }
                            return None;
                        },
                    },
                    None => {
                        proof { lemma_fold_none_extends(f, k as int + 1); }
                        return None;
                    },
                }
            } else {
                proof { lemma_fold_none_extends(f, k as int + 1); }
                return None;
            }
        }
        k += 1;
    }
    assert(f.take(kept@.len() as int) =~= f);
    match total.checked_add(current) {
        Some(v) => Some(decimal_chars(v)),
        None => None,
    }
}

/// Once the running total of a prefix fails, so does that of every longer prefix.
proof fn lemma_fold_none_extends(f: Seq<Seq<char>>, k: int)
    requires
        0 <= k <= f.len(),
        cardinal_fold(f.take(k)) is None,
    ensures
        cardinal_fold(f) is None,
    decreases f.len() - k,
{
    if k < f.len() {
        assert(f.take(k + 1).drop_last() =~= f.take(k));
        lemma_fold_none_extends(f, k + 1);
    } else {
        assert(f.take(k) =~= f);
    }
}

/// Indices of the "decimal" and "point" words of `s`, in order.
pub open spec fn decimal_positions(s: Seq<Seq<char>>) -> Seq<int>
    decreases s.len(),
{
    if s.len() == 0 {
        Seq::empty()
    } else if decimal_word(s.last()) {
        decimal_positions(s.drop_last()).push(s.len() - 1)
    } else {
        decimal_positions(s.drop_last())
    }
}

/// The runs of words between the "and"s of `s` (one run more than there are "and"s).
pub open spec fn and_groups(s: Seq<Seq<char>>) -> Seq<Seq<Seq<char>>>
    decreases s.len(),
{
    if s.len() == 0 {
        seq![Seq::empty()]
    } else {
        let g = and_groups(s.drop_last());
        if s.last() == "and"@ {
            g.push(Seq::empty())
        } else {
            g.update(g.len() - 1, g.last().push(s.last()))
        }
    }
}

/// The number spelled by each group, when every group spells one.
pub open spec fn group_numbers(gs: Seq<Seq<Seq<char>>>) -> Option<Seq<Seq<char>>>
    decreases gs.len(),
{
    if gs.len() == 0 {
        Some(Seq::empty())
    } else {
        match (group_numbers(gs.drop_last()), integer_words(gs.last())) {
            (Some(vs), Some(v)) => Some(vs.push(v)),
            _ => None,
        }
    }
}

pub open spec fn and_separator() -> Seq<char> {
    seq![' ', 'a', 'n', 'd', ' ']
}

/// The numbers of `vs` joined by " and ".
pub open spec fn join_with_and(vs: Seq<Seq<char>>) -> Seq<char>
    decreases vs.len(),
{
    if vs.len() == 0 {
        Seq::empty()
    } else if vs.len() == 1 {
        vs[0]
    } else {
        join_with_and(vs.drop_last()) + and_separator() + vs.last()
    }
}

pub open spec fn has_and(s: Seq<Seq<char>>) -> bool {
    exists|k: int| 0 <= k < s.len() && s[k] == "and"@
}

pub open spec fn has_scale(s: Seq<Seq<char>>) -> bool {
    exists|k: int| 0 <= k < s.len() && #[trigger] scale_word(s[k])
}

/// The digits for a number phrase whose repeat words are already expanded.
pub open spec fn expanded_number(e: Seq<Seq<char>>) -> Option<Seq<char>> {
    let p = decimal_positions(e);
    if p.len() == 1 {
        match integer_words(e.take(p[0])) {
            Some(whole) => {
                let fraction = without_and(e.skip(p[0] + 1));
                if fraction.len() > 0 && all_digit_words(fraction) {
                    Some(whole + seq!['.'] + digits_of(fraction))
                } else {
                    None
                }
            },
            None => None,
        }
    } else if p.len() > 1 {
        None
    } else if has_and(e) && !has_scale(e) {
        match group_numbers(and_groups(e)) {
            Some(vs) => Some(join_with_and(vs)),
            None => None,
        }
    } else {
        integer_words(e)
    }
}

/// The digits for a number phrase, `None` when the words spell no number.
pub open spec fn phrase_number(toks: Seq<Seq<char>>) -> Option<Seq<char>> {
    match expand_from(toks, 0) {
        Some(e) => expanded_number(e),
        None => None,
    }
}

/// Copies of the words `tokens[lo..hi]`.
fn words_range(tokens: &Vec<Vec<char>>, lo: usize, hi: usize) -> (r: Vec<Vec<char>>)
    requires
        lo <= hi <= tokens@.len(),
    ensures
        words(r@) == words(tokens@).subrange(lo as int, hi as int),
{
    let mut r: Vec<Vec<char>> = Vec::new();
    let mut i = lo;
    while i < hi
        invariant
            lo <= i <= hi <= tokens@.len(),
            words(r@) == words(tokens@).subrange(lo as int, i as int),
        decreases hi - i,
    {
        let ghost old_r = r@;
        r.push(copy_word(&tokens[i]));
        assert(r@ == old_r.push(r@.last()));
        assert(words(r@) =~= words(old_r).push(tokens@[i as int]@));
        assert(words(r@) =~= words(tokens@).subrange(lo as int, i + 1));
        i += 1;
    }
    r
}

proof fn lemma_and_groups_nonempty(s: Seq<Seq<char>>)
    ensures
        and_groups(s).len() >= 1,
    decreases s.len(),
{
    if s.len() > 0 {
        lemma_and_groups_nonempty(s.drop_last());
    }
}

#[verifier::loop_isolation(false)]
fn convert_number_tokens(tokens: &Vec<Vec<char>>) -> (r: Option<Vec<char>>)
    ensures
        match r {
            Some(v) => phrase_number(words(tokens@)) == Some(v@),
            None => phrase_number(words(tokens@)) is None,
        },
{
    let expanded = match expand_repeated_digits(tokens) {
        Some(e) => e,
        None => return None,
    };
    let ghost e = words(expanded@);
    // positions of "decimal" / "point"
    let mut positions: Vec<usize> = Vec::new();
    let mut i: usize = 0;
    while i < expanded.len()
        invariant
            e == words(expanded@),
            i <= expanded@.len(),
            positions@.map_values(|x: usize| x as int) == decimal_positions(e.take(i as int)),
            forall|k: int| 0 <= k < positions@.len() ==> positions@[k] < i,
        decreases expanded.len() - i,
    {
        assert(e.take(i + 1).drop_last() =~= e.take(i as int));
        let w = &expanded[i];
        if word_is(w, "decimal") || word_is(w, "point") {
            positions.push(i);
            assert(positions@.map_values(|x: usize| x as int) =~= decimal_positions(e.take(i as int)).push(i as int));
        }
        i += 1;
    }
    assert(e.take(expanded@.len() as int) =~= e);
    let ghost p = decimal_positions(e);
    if positions.len() == 1 {
        let di = positions[0];
        assert(p[0] == di as int);
        let whole_words = words_range(&expanded, 0, di);
        assert(words(whole_words@) =~= e.take(di as int));
        let whole = match parse_integer_words(&whole_words) {
            Some(w) => w,
            None => return None,
        };
        let rest = words_range(&expanded, di + 1, expanded.len());
        assert(words(rest@) =~= e.skip(di as int + 1));
        let fraction_words = drop_and_words(&rest);
        if fraction_words.len() == 0 {
            return None;
        }
        let fraction = match digit_run(&fraction_words) {
            Some(f) => f,
            None => return None,
        };
        let mut out = whole;
        out.push('.');
        extend_chars(&mut out, &fraction);
        return Some(out);
    }
    if positions.len() > 1 {
        return None;
    }
    // "and" without a scale word separates numbers
    let mut any_and = false;
    let mut any_scale = false;
    let mut j: usize = 0;
    while j < expanded.len()
        invariant
            e == words(expanded@),
            j <= expanded@.len(),
            any_and == (exists|k: int| 0 <= k < j && e[k] == "and"@),
            any_scale == (exists|k: int| 0 <= k < j && #[trigger] scale_word(e[k])),
        decreases expanded.len() - j,
    {
        let is_and = word_is(&expanded[j], "and");
        let scale = is_scale(&expanded[j]);
        assert(e[j as int] == expanded@[j as int]@);
        if is_and {
            any_and = true;
        }
        if scale {
            any_scale = true;
        }
        j += 1;
    }
    if any_and && !any_scale {
        let mut groups: Vec<Vec<Vec<char>>> = Vec::new();
        groups.push(Vec::new());
        let mut k: usize = 0;
        assert(e.take(0) =~= Seq::<Seq<char>>::empty());
        assert(words(groups@[0]@) =~= Seq::<Seq<char>>::empty());
        assert(groups@.map_values(|g: Vec<Vec<char>>| words(g@)) =~= and_groups(e.take(0)));
        while k < expanded.len()
            invariant
                e == words(expanded@),
                k <= expanded@.len(),
                groups@.len() >= 1,
                groups@.map_values(|g: Vec<Vec<char>>| words(g@)) == and_groups(e.take(k as int)),
            decreases expanded.len() - k,
        {
            assert(e.take(k + 1).drop_last() =~= e.take(k as int));
            proof { lemma_and_groups_nonempty(e.take(k as int)); }
            if word_is(&expanded[k], "and") {
                let ghost before = groups@;
                groups.push(Vec::new());
                assert(groups@ == before.push(groups@.last()));
                assert(words(groups@.last()@) =~= Seq::<Seq<char>>::empty());
                assert(groups@.map_values(|g: Vec<Vec<char>>| words(g@)) =~= and_groups(e.take(k as int)).push(Seq::empty()));
            } else {
                let ghost before = groups@.map_values(|g: Vec<Vec<char>>| words(g@));
                let mut last = groups.pop().unwrap();
                let ghost last_before = words(last@);
                last.push(copy_word(&expanded[k]));
                assert(words(last@) =~= last_before.push(e[k as int]));
                groups.push(last);
                assert(groups@.map_values(|g: Vec<Vec<char>>| words(g@)) =~= before.update(before.len() - 1, before.last().push(e[k as int])));
            }
            k += 1;
        }
        assert(e.take(expanded@.len() as int) =~= e);
        let ghost gs = and_groups(e);
        // each group must spell a number
        let mut out: Vec<char> = Vec::new();
        let mut g: usize = 0;
        while g < groups.len()
            invariant
                gs == groups@.map_values(|g: Vec<Vec<char>>| words(g@)),
                g <= groups@.len(),
                group_numbers(gs.take(g as int)) is Some,
                out@ == join_with_and(group_numbers(gs.take(g as int))->0),
                group_numbers(gs.take(g as int))->0.len() == g,
            decreases groups.len() - g,
        {
            assert(gs.take(g + 1).drop_last() =~= gs.take(g as int));
            assert(gs.take(g + 1).last() == words(groups@[g as int]@));
            let value = match parse_integer_words(&groups[g]) {
                Some(v) => v,
                None => {
                    proof { lemma_groups_none_extends(gs, g as int + 1); }
                    return None;
                },
            };
            let ghost vs = group_numbers(gs.take(g as int))->0;
            if g > 0 {
                extend_str(&mut out, " and ");
                proof { reveal_strlit(" and "); }
                assert(" and "@ =~= and_separator());
            }
            extend_chars(&mut out, &value);
            assert(vs.push(value@).drop_last() =~= vs);
            g += 1;
        }
        assert(gs.take(groups@.len() as int) =~= gs);
        return Some(out);
    }
    parse_integer_words(&expanded)
}

proof fn lemma_groups_none_extends(gs: Seq<Seq<Seq<char>>>, k: int)
    requires
        0 <= k <= gs.len(),
        group_numbers(gs.take(k)) is None,
    ensures
        group_numbers(gs) is None,
    decreases gs.len() - k,
{
    if k < gs.len() {
        assert(gs.take(k + 1).drop_last() =~= gs.take(k));
        lemma_groups_none_extends(gs, k + 1);
    } else {
        assert(gs.take(k) =~= gs);
    }
}

// ---------------------------------------------------------------------------
// Words in the text
// ---------------------------------------------------------------------------

/// The first position at or after `from` that holds an ASCII letter, or `t.len()`.
pub open spec fn letter_start(t: Seq<char>, from: int) -> int
    decreases t.len() - from,
{
    if from < 0 || from >= t.len() {
        t.len() as int
    } else if is_ascii_letter(t[from]) {
        from
    } else {
        letter_start(t, from + 1)
    }
}

/// The first position at or after `from` that holds no ASCII letter, or `t.len()`.
pub open spec fn letter_end(t: Seq<char>, from: int) -> int
    decreases t.len() - from,
{
    if from < 0 || from >= t.len() {
        t.len() as int
    } else if is_ascii_letter(t[from]) {
        letter_end(t, from + 1)
    } else {
        from
    }
}

/// The span of the first run of ASCII letters at or after `from`.
pub open spec fn next_word(t: Seq<char>, from: int) -> Option<(int, int)> {
    let a = letter_start(t, from);
    if a >= t.len() {
        None
    } else {
        Some((a, letter_end(t, a)))
    }
}

/// The lower-cased word in the span `sp` of `t`.
pub open spec fn word_at(t: Seq<char>, sp: (int, int)) -> Seq<char> {
    lower_ascii_seq(t.subrange(sp.0, sp.1))
}

pub open spec fn span_words(t: Seq<char>, spans: Seq<(int, int)>) -> Seq<Seq<char>> {
    spans.map_values(|sp: (int, int)| word_at(t, sp))
}

/// Text that may stand between two words of one number phrase: white space
/// and hyphens, at least one character.
pub open spec fn number_separator(s: Seq<char>) -> bool {
    s.len() > 0 && forall|k: int| 0 <= k < s.len() ==> is_unicode_white_space(#[trigger] s[k]) || s[k] == '-'
}

/// The spans of the words that continue a number phrase after position `pos`.
pub open spec fn phrase_spans(t: Seq<char>, pos: int) -> Seq<(int, int)>
    decreases t.len() - pos,
{
    match next_word(t, pos) {
        Some((a, b)) => if pos < b <= t.len() && number_separator(t.subrange(pos, a)) && number_word(
            word_at(t, (a, b)),
        ) {
            seq![(a, b)] + phrase_spans(t, b)
        } else {
            Seq::empty()
        },
        None => Seq::empty(),
    }
}

/// One step of the normalisation from `cursor`: the text it emits and the
/// position where the next step starts; `None` once no word is left.
///
/// A word that starts no number phrase is copied with the text before it. A
/// phrase is the longest run of number words joined by separators, less a
/// trailing connector ("and", "decimal", "point"); it becomes its digits when
/// its words spell a number, and is copied unchanged otherwise.
pub open spec fn scan_step(t: Seq<char>, cursor: int) -> Option<(Seq<char>, int)> {
    match next_word(t, cursor) {
        None => None,
        Some((s, e)) => if !number_start(word_at(t, (s, e))) {
            Some((t.subrange(cursor, e), e))
        } else {
            let (spans, phrase_end) = phrase_parts(t, s, e);
            let last_end = spans.last().1;
            match phrase_number(span_words(t, spans)) {
                Some(digits) => Some((t.subrange(cursor, s) + digits + t.subrange(last_end, phrase_end), phrase_end)),
                None => Some((t.subrange(cursor, last_end), last_end)),
            }
        },
    }
}

/// The spans of the words of the number phrase that starts with the word
/// at `(s, e)`, and the position where the text after the phrase begins.
pub open spec fn phrase_parts(t: Seq<char>, s: int, e: int) -> (Seq<(int, int)>, int) {
    let all = seq![(s, e)] + phrase_spans(t, e);
    let popped = all.len() > 1 && connector_word(word_at(t, all.last()));
    let spans = if popped { all.drop_last() } else { all };
    (spans, if popped { all.last().0 } else { spans.last().1 })
}

/// The normalisation of `t[cursor..]`.
pub open spec fn normalized_from(t: Seq<char>, cursor: int) -> Seq<char>
    decreases t.len() - cursor,
{
    match scan_step(t, cursor) {
        // every step moves forward
        Some((piece, next)) => if cursor < next <= t.len() {
            piece + normalized_from(t, next)
        } else {
            t.subrange(cursor, t.len() as int)
        },
        None => t.subrange(cursor, t.len() as int),
    }
}

/// The text `t` with every spoken number phrase rendered as digits.
pub open spec fn normalized(t: Seq<char>) -> Seq<char> {
    normalized_from(t, 0)
}

proof fn lemma_letter_start(t: Seq<char>, from: int)
    requires
        0 <= from <= t.len(),
    ensures
        from <= letter_start(t, from) <= t.len(),
        letter_start(t, from) < t.len() ==> is_ascii_letter(t[letter_start(t, from)]),
        forall|k: int| from <= k < letter_start(t, from) ==> !is_ascii_letter(#[trigger] t[k]),
    decreases t.len() - from,
{
    if from < t.len() && !is_ascii_letter(t[from]) {
        lemma_letter_start(t, from + 1);
    }
}

proof fn lemma_letter_end(t: Seq<char>, from: int)
    requires
        0 <= from <= t.len(),
    ensures
        from <= letter_end(t, from) <= t.len(),
        from < t.len() && is_ascii_letter(t[from]) ==> from < letter_end(t, from),
    decreases t.len() - from,
{
    if from < t.len() && is_ascii_letter(t[from]) {
        lemma_letter_end(t, from + 1);
    }
}

proof fn lemma_next_word(t: Seq<char>, from: int)
    requires
        0 <= from <= t.len(),
    ensures
        next_word(t, from) matches Some((a, b)) ==> from <= a < b <= t.len(),
{
    lemma_letter_start(t, from);
    let a = letter_start(t, from);
    if a < t.len() {
        lemma_letter_end(t, a);
    }
}

/// The next run of ASCII letters at or after `from`, with its span and its
/// lower-cased letters.
fn next_ascii_word(t: &Vec<char>, from: usize) -> (r: Option<(usize, usize, Vec<char>)>)
    requires
        from <= t@.len(),
    ensures
        match r {
            Some((a, b, w)) => next_word(t@, from as int) == Some((a as int, b as int)) && w@ == word_at(
                t@,
                (a as int, b as int),
            ) && from <= a < b <= t@.len(),
            None => next_word(t@, from as int) is None,
        },
{
    proof {
        lemma_next_word(t@, from as int);
    }
    let mut start = from;
    while start < t.len() && !is_letter(t[start])
        invariant
            from <= start <= t@.len(),
            letter_start(t@, from as int) == letter_start(t@, start as int),
        decreases t.len() - start,
    {
        start += 1;
    }
    if start == t.len() {
        return None;
    }
    let mut end = start;
    while end < t.len() && is_letter(t[end])
        invariant
            start <= end <= t@.len(),
            letter_end(t@, start as int) == letter_end(t@, end as int),
        decreases t.len() - end,
    {
        end += 1;
    }
    let mut word: Vec<char> = Vec::new();
    let mut i = start;
    while i < end
        invariant
            start <= i <= end <= t@.len(),
            word@ == lower_ascii_seq(t@.subrange(start as int, i as int)),
        decreases end - i,
    {
        word.push(to_lower_ascii(t[i]));
        assert(word@ =~= lower_ascii_seq(t@.subrange(start as int, i + 1)));
        i += 1;
    }
    Some((start, end, word))
}

fn is_number_separator(t: &Vec<char>, from: usize, to: usize) -> (r: bool)
    requires
        from <= to <= t@.len(),
    ensures
        r == number_separator(t@.subrange(from as int, to as int)),
{
    if from == to {
        return false;
    }
    let ghost sub = t@.subrange(from as int, to as int);
    let mut i = from;
    while i < to
        invariant
            from <= i <= to <= t@.len(),
            sub == t@.subrange(from as int, to as int),
            forall|k: int| 0 <= k < i - from ==> is_unicode_white_space(#[trigger] sub[k]) || sub[k] == '-',
        decreases to - i,
    {
        let c = t[i];
        if !(is_white_space(c) || c == '-') {
            assert(sub[i - from] == c);
            return false;
        }
        i += 1;
    }
    true
}

/// The words of the number phrase that starts with `word` at `(start, end)`,
/// the end of its last word and the position where the text after it begins.
fn scan_number_phrase(t: &Vec<char>, start: usize, end: usize, word: Vec<char>) -> (r: (
    Vec<Vec<char>>,
    usize,
    usize,
))
    requires
        next_word(t@, start as int) == Some((start as int, end as int)),
        start < end <= t@.len(),
        word@ == word_at(t@, (start as int, end as int)),
    ensures
        ({
            let (tokens, last_end, phrase_end) = r;
            let (spans, pe) = phrase_parts(t@, start as int, end as int);
            &&& words(tokens@) == span_words(t@, spans)
            &&& spans.len() >= 1
            &&& spans.last().1 == last_end as int
            &&& pe == phrase_end as int
            &&& end <= last_end <= phrase_end <= t@.len()
        }),
{
    let ghost tv = t@;
    let mut phrase_end = end;
    let mut last_start = start;
    let mut prev_end = start;
    let mut tokens: Vec<Vec<char>> = Vec::new();
    tokens.push(word);
    let ghost mut spans: Seq<(int, int)> = seq![(start as int, end as int)];
    let ghost mut consumed: Seq<(int, int)> = Seq::empty();
    assert(words(tokens@) =~= span_words(tv, spans));
    loop
        invariant
            tv == t@,
            start < end <= phrase_end <= tv.len(),
            start <= last_start < phrase_end,
            spans == seq![(start as int, end as int)] + consumed,
            phrase_spans(tv, end as int) == consumed + phrase_spans(tv, phrase_end as int),
            spans.last() == (last_start as int, phrase_end as int),
            spans.len() >= 2 ==> spans[spans.len() - 2].1 == prev_end as int && end <= prev_end < last_start,
            spans.len() == 1 ==> last_start == start && phrase_end == end,
            words(tokens@) == span_words(tv, spans),
            tokens@.len() == spans.len(),
        ensures
            phrase_spans(tv, phrase_end as int) == Seq::<(int, int)>::empty(),
        decreases tv.len() - phrase_end,
    {
        let (next_start, next_end, next_word) = match next_ascii_word(t, phrase_end) {
            Some(found) => found,
            None => {
                assert(phrase_spans(tv, phrase_end as int) == Seq::<(int, int)>::empty());
                break;
            },
        };
        if !is_number_separator(t, phrase_end, next_start) || !is_number_word(&next_word) {
            assert(phrase_spans(tv, phrase_end as int) == Seq::<(int, int)>::empty());
            break;
        }
        proof {
            assert(phrase_spans(tv, phrase_end as int) == seq![(next_start as int, next_end as int)]
                + phrase_spans(tv, next_end as int));
            assert(consumed + (seq![(next_start as int, next_end as int)] + phrase_spans(tv, next_end as int))
                =~= consumed.push((next_start as int, next_end as int)) + phrase_spans(tv, next_end as int));
            consumed = consumed.push((next_start as int, next_end as int));
            spans = spans.push((next_start as int, next_end as int));
        }
        let ghost old_tokens = tokens@;
        let ghost old_spans = spans.drop_last();
        let ghost nw = next_word@;
        tokens.push(next_word);
        assert(tokens@ == old_tokens.push(tokens@.last()));
        assert(words(tokens@) =~= words(old_tokens).push(nw));
        assert(span_words(tv, spans) =~= span_words(tv, old_spans).push(nw));
        prev_end = phrase_end;
        last_start = next_start;
        phrase_end = next_end;
    }
    assert(consumed + Seq::<(int, int)>::empty() =~= consumed);
    let ghost all = spans;
    assert(all == seq![(start as int, end as int)] + phrase_spans(tv, end as int));
    // a trailing connector does not belong to the number
    let mut last_end = phrase_end;
    let popped = tokens.len() > 1 && is_connector(&tokens[tokens.len() - 1]);
    assert(words(tokens@)[tokens@.len() - 1] == word_at(tv, all.last()));
    if popped {
        let ghost old_tokens = tokens@;
        let ghost old_spans = spans;
        tokens.pop();
        assert(tokens@ == old_tokens.drop_last());
        proof {
            spans = spans.drop_last();
        }
        assert(words(tokens@) =~= words(old_tokens).drop_last());
        assert(span_words(tv, spans) =~= span_words(tv, old_spans).drop_last());
        last_end = prev_end;
        phrase_end = last_start;
    }
    (tokens, last_end, phrase_end)
}

/// Render spoken number phrases as digits while preserving all other text.
///
/// "contact tower one one eight decimal five zero five" becomes
/// "contact tower 118.505"; text without number words is returned unchanged.
pub fn normalize_spoken_numbers(text: &str) -> (r: String)
    ensures
        r@ == normalized(text@),
{
    let t = chars_of(text);
    let ghost tv = t@;
    let mut out: Vec<char> = Vec::new();
    let mut cursor: usize = 0;
    loop
        invariant_except_break
            cursor <= tv.len(),
            normalized(tv) == out@ + normalized_from(tv, cursor as int),
        invariant
            tv == t@,
        ensures
            out@ == normalized(tv),
        decreases tv.len() - cursor,
    {
        let (start, end, word) = match next_ascii_word(&t, cursor) {
            Some(found) => found,
            None => {
                assert(normalized_from(tv, cursor as int) == tv.subrange(cursor as int, tv.len() as int));
                extend_range(&mut out, &t, cursor, t.len());
                break;
            },
        };
        let ghost before = out@;
        if !is_number_start(&word) {
            extend_range(&mut out, &t, cursor, end);
            assert(scan_step(tv, cursor as int) == Some((tv.subrange(cursor as int, end as int), end as int)));
            assert(before + (tv.subrange(cursor as int, end as int) + normalized_from(tv, end as int))
                =~= out@ + normalized_from(tv, end as int));
            cursor = end;
            continue;
        }
        let (tokens, last_end, phrase_end) = scan_number_phrase(&t, start, end, word);
        let ghost step = scan_step(tv, cursor as int);
        match convert_number_tokens(&tokens) {
            Some(converted) => {
                extend_range(&mut out, &t, cursor, start);
                extend_chars(&mut out, &converted);
                extend_range(&mut out, &t, last_end, phrase_end);
                let ghost piece = tv.subrange(cursor as int, start as int) + converted@ + tv.subrange(
                    last_end as int,
                    phrase_end as int,
                );
                assert(step == Some((piece, phrase_end as int)));
                assert(out@ =~= before + piece);
                assert(before + (piece + normalized_from(tv, phrase_end as int)) =~= out@ + normalized_from(
                    tv,
                    phrase_end as int,
                ));
                cursor = phrase_end;
            },
            None => {
                extend_range(&mut out, &t, cursor, last_end);
                assert(step == Some((tv.subrange(cursor as int, last_end as int), last_end as int)));
                assert(before + (tv.subrange(cursor as int, last_end as int) + normalized_from(tv, last_end as int))
                    =~= out@ + normalized_from(tv, last_end as int));
                cursor = last_end;
            },
        }
    }
    string_of(&out)
}

/// Whether no word of `t[cursor..]` (a maximal run of ASCII letters) can
/// start a number phrase.
pub open spec fn no_number_words_from(t: Seq<char>, cursor: int) -> bool
    decreases t.len() - cursor,
{
    match next_word(t, cursor) {
        None => true,
        Some((a, b)) => if cursor < b <= t.len() {
            !number_start(word_at(t, (a, b))) && no_number_words_from(t, b)
        } else {
            true
        },
    }
}

/// Text in which no word can start a number phrase is left exactly as it is.
pub proof fn normalization_keeps_text_without_numbers(t: Seq<char>, cursor: int)
    requires
        0 <= cursor <= t.len(),
        no_number_words_from(t, cursor),
    ensures
        normalized_from(t, cursor) == t.subrange(cursor, t.len() as int),
    decreases t.len() - cursor,
{
    lemma_next_word(t, cursor);
    match next_word(t, cursor) {
        None => {},
        Some((a, b)) => {
            normalization_keeps_text_without_numbers(t, b);
            assert(t.subrange(cursor, b) + t.subrange(b, t.len() as int) =~= t.subrange(cursor, t.len() as int));
        },
    }
}

// ---------------------------------------------------------------------------
// Laws of the normalization on phrases of words
// ---------------------------------------------------------------------------

/// Whether every character of `w` is a lower-case ASCII letter.
pub open spec fn lower_letters(w: Seq<char>) -> bool
    decreases w.len(),
{
    w.len() == 0 || ('a' <= w[0] <= 'z' && lower_letters(w.skip(1)))
}

/// Whether `w` is a non-empty run of lower-case ASCII letters.
pub open spec fn lower_word(w: Seq<char>) -> bool {
    w.len() > 0 && lower_letters(w)
}

proof fn lemma_lower_letters(w: Seq<char>)
    requires
        lower_letters(w),
    ensures
        forall|k: int| 0 <= k < w.len() ==> 'a' <= #[trigger] w[k] <= 'z',
    decreases w.len(),
{
    if w.len() > 0 {
        lemma_lower_letters(w.skip(1));
        assert forall|k: int| 0 <= k < w.len() implies 'a' <= #[trigger] w[k] <= 'z' by {
            if k > 0 {
                assert(w[k] == w.skip(1)[k - 1]);
            }
        }
    }
}

/// The words of `ws` joined by single spaces.
pub open spec fn spaced(ws: Seq<Seq<char>>) -> Seq<char>
    decreases ws.len(),
{
    if ws.len() == 0 {
        Seq::empty()
    } else if ws.len() == 1 {
        ws[0]
    } else {
        ws[0] + seq![' '] + spaced(ws.skip(1))
    }
}

proof fn lemma_lower_from_chars(w: Seq<char>)
    requires
        forall|k: int| 0 <= k < w.len() ==> 'a' <= #[trigger] w[k] <= 'z',
    ensures
        lower_letters(w),
    decreases w.len(),
{
    if w.len() > 0 {
        assert forall|k: int| 0 <= k < w.skip(1).len() implies 'a' <= #[trigger] w.skip(1)[k] <= 'z' by {
            assert(w.skip(1)[k] == w[k + 1]);
        }
        lemma_lower_from_chars(w.skip(1));
    }
}

/// What the words "and", "thousand" and "hundred" are to the normalization.
proof fn lemma_structure_words()
    ensures
        lower_word("and"@),
        lower_word("thousand"@),
        lower_word("hundred"@),
        digit_word("and"@) is None && cardinal_word("and"@) is None,
        digit_word("thousand"@) is None && cardinal_word("thousand"@) is None,
        digit_word("hundred"@) is None && cardinal_word("hundred"@) is None,
        connector_word("and"@) && !decimal_word("and"@) && !repeat_word("and"@) && !scale_word("and"@),
        scale_word("thousand"@) && !connector_word("thousand"@) && !repeat_word("thousand"@),
        !decimal_word("thousand"@) && "thousand"@ != "hundred"@ && "thousand"@ != "and"@,
        scale_word("hundred"@) && !connector_word("hundred"@) && !repeat_word("hundred"@),
        !decimal_word("hundred"@) && "hundred"@ != "and"@,
{
    reveal_strlit("zero");
    reveal_strlit("oh");
    reveal_strlit("nought");
    reveal_strlit("nil");
    reveal_strlit("one");
    reveal_strlit("two");
    reveal_strlit("three");
    reveal_strlit("tree");
    reveal_strlit("four");
    reveal_strlit("fower");
    reveal_strlit("five");
    reveal_strlit("fife");
    reveal_strlit("six");
    reveal_strlit("seven");
    reveal_strlit("eight");
    reveal_strlit("nine");
    reveal_strlit("niner");
    reveal_strlit("nineer");
    reveal_strlit("ten");
    reveal_strlit("eleven");
    reveal_strlit("twelve");
    reveal_strlit("thirteen");
    reveal_strlit("fourteen");
    reveal_strlit("fifteen");
    reveal_strlit("sixteen");
    reveal_strlit("seventeen");
    reveal_strlit("eighteen");
    reveal_strlit("nineteen");
    reveal_strlit("twenty");
    reveal_strlit("thirty");
    reveal_strlit("forty");
    reveal_strlit("fifty");
    reveal_strlit("sixty");
    reveal_strlit("seventy");
    reveal_strlit("eighty");
    reveal_strlit("ninety");
    reveal_strlit("hundred");
    reveal_strlit("thousand");
    reveal_strlit("million");
    reveal_strlit("and");
    reveal_strlit("decimal");
    reveal_strlit("point");
    reveal_strlit("double");
    reveal_strlit("triple");
    assert("thousand"@[2] != "thirteen"@[2]);
    assert("thousand"@[0] != "fourteen"@[0]);
    assert("thousand"@[0] != "eighteen"@[0]);
    assert("thousand"@[0] != "nineteen"@[0]);
    assert("hundred"@[0] != "fifteen"@[0]);
    assert("hundred"@[0] != "sixteen"@[0]);
    assert("hundred"@[0] != "seventy"@[0]);
    assert("hundred"@[0] != "million"@[0]);
    assert("hundred"@[0] != "decimal"@[0]);
    assert("and"@[0] != "nil"@[0]);
    assert("and"@[0] != "one"@[0]);
    assert("and"@[0] != "two"@[0]);
    assert("and"@[0] != "six"@[0]);
    assert("and"@[0] != "ten"@[0]);
    assert(lower_word("and"@)) by {
        reveal_strlit("and");
        assert forall|k: int| 0 <= k < "and"@.len() implies 'a' <= #[trigger] "and"@[k] <= 'z' by {
            if k == 0 {} else if k == 1 {} else {}
        }
        lemma_lower_from_chars("and"@);
    }
    assert(lower_word("thousand"@)) by {
        reveal_strlit("thousand");
        assert forall|k: int| 0 <= k < "thousand"@.len() implies 'a' <= #[trigger] "thousand"@[k] <= 'z' by {
            if k == 0 {} else if k == 1 {} else if k == 2 {} else if k == 3 {} else if k == 4 {} else if k == 5 {} else if k == 6 {} else {}
        }
        lemma_lower_from_chars("thousand"@);
    }
    assert(lower_word("hundred"@)) by {
        reveal_strlit("hundred");
        assert forall|k: int| 0 <= k < "hundred"@.len() implies 'a' <= #[trigger] "hundred"@[k] <= 'z' by {
            if k == 0 {} else if k == 1 {} else if k == 2 {} else if k == 3 {} else if k == 4 {} else if k == 5 {} else {}
        }
        lemma_lower_from_chars("hundred"@);
    }
}

/// A spoken digit word is a lower-case word and a cardinal of its digit's
/// value, and no other kind of number word.
proof fn lemma_digit_word(w: Seq<char>)
    requires
        digit_word(w) is Some,
    ensures
        lower_word(w),
        cardinal_word(w) == Some(digit_value(digit_word(w)->0)),
        0 <= digit_value(digit_word(w)->0) <= 9,
        digit_word(w)->0 == '0' <==> digit_value(digit_word(w)->0) == 0,
        !scale_word(w) && !connector_word(w) && !repeat_word(w) && !decimal_word(w),
        w != "and"@ && w != "hundred"@ && w != "thousand"@ && w != "million"@,
{
    reveal_strlit("zero");
    reveal_strlit("oh");
    reveal_strlit("nought");
    reveal_strlit("nil");
    reveal_strlit("one");
    reveal_strlit("two");
    reveal_strlit("three");
    reveal_strlit("tree");
    reveal_strlit("four");
    reveal_strlit("fower");
    reveal_strlit("five");
    reveal_strlit("fife");
    reveal_strlit("six");
    reveal_strlit("seven");
    reveal_strlit("eight");
    reveal_strlit("nine");
    reveal_strlit("niner");
    reveal_strlit("nineer");
    reveal_strlit("ten");
    reveal_strlit("eleven");
    reveal_strlit("twelve");
    reveal_strlit("thirteen");
    reveal_strlit("fourteen");
    reveal_strlit("fifteen");
    reveal_strlit("sixteen");
    reveal_strlit("seventeen");
    reveal_strlit("eighteen");
    reveal_strlit("nineteen");
    reveal_strlit("twenty");
    reveal_strlit("thirty");
    reveal_strlit("forty");
    reveal_strlit("fifty");
    reveal_strlit("sixty");
    reveal_strlit("seventy");
    reveal_strlit("eighty");
    reveal_strlit("ninety");
    reveal_strlit("hundred");
    reveal_strlit("thousand");
    reveal_strlit("million");
    reveal_strlit("and");
    reveal_strlit("decimal");
    reveal_strlit("point");
    reveal_strlit("double");
    reveal_strlit("triple");
    assert(lower_word("zero"@)) by {
        reveal_strlit("zero");
        assert forall|k: int| 0 <= k < "zero"@.len() implies 'a' <= #[trigger] "zero"@[k] <= 'z' by {
            if k == 0 {} else if k == 1 {} else if k == 2 {} else {}
        }
        lemma_lower_from_chars("zero"@);
    }
    assert(lower_word("oh"@)) by {
        reveal_strlit("oh");
        assert forall|k: int| 0 <= k < "oh"@.len() implies 'a' <= #[trigger] "oh"@[k] <= 'z' by {
            if k == 0 {} else {}
        }
        lemma_lower_from_chars("oh"@);
    }
    assert(lower_word("nought"@)) by {
        reveal_strlit("nought");
        assert forall|k: int| 0 <= k < "nought"@.len() implies 'a' <= #[trigger] "nought"@[k] <= 'z' by {
            if k == 0 {} else if k == 1 {} else if k == 2 {} else if k == 3 {} else if k == 4 {} else {}
        }
        lemma_lower_from_chars("nought"@);
    }
    assert(lower_word("nil"@)) by {
        reveal_strlit("nil");
        assert forall|k: int| 0 <= k < "nil"@.len() implies 'a' <= #[trigger] "nil"@[k] <= 'z' by {
            if k == 0 {} else if k == 1 {} else {}
        }
        lemma_lower_from_chars("nil"@);
    }
    assert(lower_word("one"@)) by {
        reveal_strlit("one");
        assert forall|k: int| 0 <= k < "one"@.len() implies 'a' <= #[trigger] "one"@[k] <= 'z' by {
            if k == 0 {} else if k == 1 {} else {}
        }
        lemma_lower_from_chars("one"@);
    }
    assert(lower_word("two"@)) by {
        reveal_strlit("two");
        assert forall|k: int| 0 <= k < "two"@.len() implies 'a' <= #[trigger] "two"@[k] <= 'z' by {
            if k == 0 {} else if k == 1 {} else {}
        }
        lemma_lower_from_chars("two"@);
    }
    assert(lower_word("three"@)) by {
        reveal_strlit("three");
        assert forall|k: int| 0 <= k < "three"@.len() implies 'a' <= #[trigger] "three"@[k] <= 'z' by {
            if k == 0 {} else if k == 1 {} else if k == 2 {} else if k == 3 {} else {}
        }
        lemma_lower_from_chars("three"@);
    }
    assert(lower_word("tree"@)) by {
        reveal_strlit("tree");
        assert forall|k: int| 0 <= k < "tree"@.len() implies 'a' <= #[trigger] "tree"@[k] <= 'z' by {
            if k == 0 {} else if k == 1 {} else if k == 2 {} else {}
        }
        lemma_lower_from_chars("tree"@);
    }
    assert(lower_word("four"@)) by {
        reveal_strlit("four");
        assert forall|k: int| 0 <= k < "four"@.len() implies 'a' <= #[trigger] "four"@[k] <= 'z' by {
            if k == 0 {} else if k == 1 {} else if k == 2 {} else {}
        }
        lemma_lower_from_chars("four"@);
    }
    assert(lower_word("fower"@)) by {
        reveal_strlit("fower");
        assert forall|k: int| 0 <= k < "fower"@.len() implies 'a' <= #[trigger] "fower"@[k] <= 'z' by {
            if k == 0 {} else if k == 1 {} else if k == 2 {} else if k == 3 {} else {}
        }
        lemma_lower_from_chars("fower"@);
    }
    assert(lower_word("five"@)) by {
        reveal_strlit("five");
        assert forall|k: int| 0 <= k < "five"@.len() implies 'a' <= #[trigger] "five"@[k] <= 'z' by {
            if k == 0 {} else if k == 1 {} else if k == 2 {} else {}
        }
        lemma_lower_from_chars("five"@);
    }
    assert(lower_word("fife"@)) by {
        reveal_strlit("fife");
        assert forall|k: int| 0 <= k < "fife"@.len() implies 'a' <= #[trigger] "fife"@[k] <= 'z' by {
            if k == 0 {} else if k == 1 {} else if k == 2 {} else {}
        }
        lemma_lower_from_chars("fife"@);
    }
    assert(lower_word("six"@)) by {
        reveal_strlit("six");
        assert forall|k: int| 0 <= k < "six"@.len() implies 'a' <= #[trigger] "six"@[k] <= 'z' by {
            if k == 0 {} else if k == 1 {} else {}
        }
        lemma_lower_from_chars("six"@);
    }
    assert(lower_word("seven"@)) by {
        reveal_strlit("seven");
        assert forall|k: int| 0 <= k < "seven"@.len() implies 'a' <= #[trigger] "seven"@[k] <= 'z' by {
            if k == 0 {} else if k == 1 {} else if k == 2 {} else if k == 3 {} else {}
        }
        lemma_lower_from_chars("seven"@);
    }
    assert(lower_word("eight"@)) by {
        reveal_strlit("eight");
        assert forall|k: int| 0 <= k < "eight"@.len() implies 'a' <= #[trigger] "eight"@[k] <= 'z' by {
            if k == 0 {} else if k == 1 {} else if k == 2 {} else if k == 3 {} else {}
        }
        lemma_lower_from_chars("eight"@);
    }
    assert(lower_word("nine"@)) by {
        reveal_strlit("nine");
        assert forall|k: int| 0 <= k < "nine"@.len() implies 'a' <= #[trigger] "nine"@[k] <= 'z' by {
            if k == 0 {} else if k == 1 {} else if k == 2 {} else {}
        }
        lemma_lower_from_chars("nine"@);
    }
    assert(lower_word("niner"@)) by {
        reveal_strlit("niner");
        assert forall|k: int| 0 <= k < "niner"@.len() implies 'a' <= #[trigger] "niner"@[k] <= 'z' by {
            if k == 0 {} else if k == 1 {} else if k == 2 {} else if k == 3 {} else {}
        }
        lemma_lower_from_chars("niner"@);
    }
    assert(lower_word("nineer"@)) by {
        reveal_strlit("nineer");
        assert forall|k: int| 0 <= k < "nineer"@.len() implies 'a' <= #[trigger] "nineer"@[k] <= 'z' by {
            if k == 0 {} else if k == 1 {} else if k == 2 {} else if k == 3 {} else if k == 4 {} else {}
        }
        lemma_lower_from_chars("nineer"@);
    }
    if w == "zero"@ {
    } else if w == "oh"@ {
    } else if w == "nought"@ {
    } else if w == "nil"@ {
    } else if w == "one"@ {
    } else if w == "two"@ {
    } else if w == "three"@ {
    } else if w == "tree"@ {
    } else if w == "four"@ {
    } else if w == "fower"@ {
    } else if w == "five"@ {
    } else if w == "fife"@ {
    } else if w == "six"@ {
    } else if w == "seven"@ {
    } else if w == "eight"@ {
    } else if w == "nine"@ {
    } else if w == "niner"@ {
    } else {
        assert(w == "nineer"@);
    }
}

/// The spans of the words of `spaced(ws)` when it starts at `o`.
spec fn word_spans(ws: Seq<Seq<char>>, o: int) -> Seq<(int, int)>
    decreases ws.len(),
{
    if ws.len() == 0 {
        Seq::empty()
    } else {
        seq![(o, o + ws[0].len())] + word_spans(ws.skip(1), o + ws[0].len() + 1)
    }
}

proof fn lemma_letter_start_at(t: Seq<char>, from: int, a: int)
    requires
        0 <= from <= a < t.len(),
        forall|k: int| from <= k < a ==> !is_ascii_letter(#[trigger] t[k]),
        is_ascii_letter(t[a]),
    ensures
        letter_start(t, from) == a,
    decreases a - from,
{
    if from < a {
        lemma_letter_start_at(t, from + 1, a);
    }
}

proof fn lemma_letter_end_at(t: Seq<char>, a: int, b: int)
    requires
        0 <= a <= b <= t.len(),
        forall|k: int| a <= k < b ==> is_ascii_letter(#[trigger] t[k]),
        b == t.len() || !is_ascii_letter(t[b]),
    ensures
        letter_end(t, a) == b,
    decreases b - a,
{
    if a < b {
        lemma_letter_end_at(t, a + 1, b);
    }
}

proof fn lemma_no_word(t: Seq<char>, from: int)
    requires
        0 <= from <= t.len(),
        forall|k: int| from <= k < t.len() ==> !is_ascii_letter(#[trigger] t[k]),
    ensures
        next_word(t, from) is None,
    decreases t.len() - from,
{
    if from < t.len() {
        lemma_no_word(t, from + 1);
    }
}

/// The word `w` standing at `a` in `t`, after non-letters from `from`.
proof fn lemma_word_span(t: Seq<char>, from: int, a: int, w: Seq<char>)
    requires
        0 <= from <= a,
        a + w.len() <= t.len(),
        lower_word(w),
        t.subrange(a, a + w.len()) == w,
        forall|k: int| from <= k < a ==> !is_ascii_letter(#[trigger] t[k]),
        a + w.len() == t.len() || !is_ascii_letter(t[a + w.len()]),
    ensures
        next_word(t, from) == Some((a, a + w.len())),
        word_at(t, (a, a + w.len())) == w,
{
    lemma_lower_letters(w);
    assert forall|k: int| a <= k < a + w.len() implies is_ascii_letter(#[trigger] t[k]) by {
        assert(t[k] == w[k - a]);
    }
    lemma_letter_start_at(t, from, a);
    lemma_letter_end_at(t, a, a + w.len());
    assert(lower_ascii_seq(t.subrange(a, a + w.len())) =~= w);
}

proof fn lemma_spaced_nonempty(ws: Seq<Seq<char>>)
    requires
        ws.len() >= 1,
    ensures
        spaced(ws).len() >= ws[0].len(),
        ws.len() == 1 ==> spaced(ws) == ws[0],
        ws.len() > 1 ==> spaced(ws) == ws[0] + seq![' '] + spaced(ws.skip(1)),
{
}

/// Scanning a run of number words joined by single spaces: the phrase that
/// starts with its first word takes every word of the run, then goes on as
/// it would after the run.
proof fn lemma_phrase_run(t: Seq<char>, ws: Seq<Seq<char>>, o: int)
    requires
        ws.len() >= 1,
        forall|k: int| 0 <= k < ws.len() ==> lower_word(#[trigger] ws[k]) && number_word(ws[k]),
        0 <= o,
        o + spaced(ws).len() <= t.len(),
        t.subrange(o, o + spaced(ws).len()) == spaced(ws),
        o + spaced(ws).len() == t.len() || !is_ascii_letter(t[o + spaced(ws).len()]),
    ensures
        next_word(t, o) == Some((o, o + ws[0].len())),
        word_at(t, (o, o + ws[0].len())) == ws[0],
        seq![(o, o + ws[0].len())] + phrase_spans(t, o + ws[0].len()) == word_spans(ws, o) + phrase_spans(
            t,
            o + spaced(ws).len(),
        ),
        word_spans(ws, o).len() == ws.len(),
        word_spans(ws, o).last().1 == o + spaced(ws).len(),
        span_words(t, word_spans(ws, o)) == ws,
    decreases ws.len(),
{
    let w0 = ws[0];
    let e0 = o + w0.len();
    let n = spaced(ws).len();
    lemma_spaced_nonempty(ws);
    assert(lower_word(ws[0]));
    if ws.len() == 1 {
        lemma_word_span(t, o, o, w0);
        assert(word_spans(ws.skip(1), e0 + 1) =~= Seq::<(int, int)>::empty());
        assert(word_spans(ws, o) =~= seq![(o, e0)]);
        assert(span_words(t, word_spans(ws, o)) =~= seq![w0]);
        assert(ws =~= seq![w0]);
    } else {
        let rest = ws.skip(1);
        let o1 = e0 + 1;
        let m = spaced(rest).len();
        assert(n == w0.len() + 1 + m);
        assert(t.subrange(o, e0) =~= w0) by {
            assert forall|k: int| 0 <= k < w0.len() implies t.subrange(o, e0)[k] == w0[k] by {
                assert(t.subrange(o, o + n)[k] == spaced(ws)[k]);
            }
        }
        assert(t[e0] == ' ') by {
            assert(t.subrange(o, o + n)[w0.len() as int] == spaced(ws)[w0.len() as int]);
        }
        assert(t.subrange(o1, o1 + m) =~= spaced(rest)) by {
            assert forall|k: int| 0 <= k < m implies t.subrange(o1, o1 + m)[k] == spaced(rest)[k] by {
                assert(t.subrange(o, o + n)[w0.len() + 1 + k] == spaced(ws)[w0.len() + 1 + k]);
            }
        }
        assert(!is_ascii_letter(t[e0]));
        lemma_word_span(t, o, o, w0);
        assert forall|k: int| 0 <= k < rest.len() implies lower_word(#[trigger] rest[k]) && number_word(rest[k]) by {
            assert(rest[k] == ws[k + 1]);
        }
        lemma_phrase_run(t, rest, o1);
        let e1 = o1 + rest[0].len();
        assert(letter_start(t, e0) == letter_start(t, o1));
        assert(next_word(t, e0) == Some((o1, e1)));
        assert(t.subrange(e0, o1) =~= seq![' ']);
        assert(number_separator(t.subrange(e0, o1)));
        assert(number_word(word_at(t, (o1, e1))));
        assert(phrase_spans(t, e0) == seq![(o1, e1)] + phrase_spans(t, e1));
        let tail = phrase_spans(t, o + n);
        assert(word_spans(ws, o) == seq![(o, e0)] + word_spans(rest, o1));
        assert(seq![(o, e0)] + phrase_spans(t, e0) =~= word_spans(ws, o) + tail);
        assert(word_spans(ws, o).last() == word_spans(rest, o1).last());
        assert(span_words(t, word_spans(ws, o)) =~= seq![w0] + span_words(t, word_spans(rest, o1)));
        assert(seq![w0] + rest =~= ws);
    }
}

proof fn lemma_spaced_push(ws: Seq<Seq<char>>, z: Seq<char>)
    requires
        ws.len() >= 1,
    ensures
        spaced(ws.push(z)) == spaced(ws) + seq![' '] + z,
    decreases ws.len(),
{
    let wz = ws.push(z);
    if ws.len() == 1 {
        assert(wz.skip(1) =~= seq![z]);
        assert(spaced(seq![z]) == z);
        assert(spaced(wz) =~= ws[0] + seq![' '] + z);
    } else {
        lemma_spaced_push(ws.skip(1), z);
        assert(wz.skip(1) =~= ws.skip(1).push(z));
        assert(wz[0] == ws[0]);
        assert(spaced(wz) =~= spaced(ws) + seq![' '] + z);
    }
}

proof fn lemma_word_spans_push(ws: Seq<Seq<char>>, z: Seq<char>, o: int)
    requires
        ws.len() >= 1,
    ensures
        word_spans(ws.push(z), o) == word_spans(ws, o).push(
            (o + spaced(ws).len() + 1, o + spaced(ws).len() + 1 + z.len()),
        ),
    decreases ws.len(),
{
    let wz = ws.push(z);
    assert(wz.skip(1) =~= ws.skip(1).push(z));
    assert(wz[0] == ws[0]);
    if ws.len() == 1 {
        assert(ws.skip(1) =~= Seq::<Seq<char>>::empty());
        assert(word_spans(ws.skip(1), o + ws[0].len() + 1) =~= Seq::<(int, int)>::empty());
        let zs = seq![z];
        assert(wz.skip(1) =~= zs);
        assert(zs.skip(1) =~= Seq::<Seq<char>>::empty());
        assert(word_spans(zs.skip(1), o + ws[0].len() + 1 + z.len() + 1) =~= Seq::<(int, int)>::empty());
        assert(word_spans(zs, o + ws[0].len() + 1) =~= seq![(o + ws[0].len() + 1, o + ws[0].len() + 1 + z.len())]);
        assert(word_spans(ws, o) =~= seq![(o, o + ws[0].len())]);
        assert(spaced(ws) == ws[0]);
        assert(word_spans(wz, o) =~= word_spans(ws, o).push(
            (o + spaced(ws).len() + 1, o + spaced(ws).len() + 1 + z.len()),
        ));
    } else {
        lemma_spaced_nonempty(ws);
        lemma_word_spans_push(ws.skip(1), z, o + ws[0].len() + 1);
        assert(word_spans(wz, o) =~= word_spans(ws, o).push(
            (o + spaced(ws).len() + 1, o + spaced(ws).len() + 1 + z.len()),
        ));
    }
}

proof fn lemma_expand_plain(toks: Seq<Seq<char>>, i: int)
    requires
        0 <= i <= toks.len(),
        forall|k: int| 0 <= k < toks.len() ==> !repeat_word(#[trigger] toks[k]),
    ensures
        expand_from(toks, i) == Some(toks.skip(i)),
    decreases toks.len() - i,
{
    if i < toks.len() {
        lemma_expand_plain(toks, i + 1);
        assert(seq![toks[i]] + toks.skip(i + 1) =~= toks.skip(i));
    } else {
        assert(toks.skip(i) =~= Seq::<Seq<char>>::empty());
    }
}

proof fn lemma_no_decimals(s: Seq<Seq<char>>)
    requires
        forall|k: int| 0 <= k < s.len() ==> !decimal_word(#[trigger] s[k]),
    ensures
        decimal_positions(s) == Seq::<int>::empty(),
    decreases s.len(),
{
    if s.len() > 0 {
        assert forall|k: int| 0 <= k < s.drop_last().len() implies !decimal_word(#[trigger] s.drop_last()[k]) by {
            assert(s.drop_last()[k] == s[k]);
        }
        lemma_no_decimals(s.drop_last());
        assert(!decimal_word(s[s.len() - 1]));
    }
}

proof fn lemma_no_and(s: Seq<Seq<char>>)
    requires
        forall|k: int| 0 <= k < s.len() ==> #[trigger] s[k] != "and"@,
    ensures
        without_and(s) == s,
        !has_and(s),
    decreases s.len(),
{
    if s.len() > 0 {
        assert forall|k: int| 0 <= k < s.drop_last().len() implies #[trigger] s.drop_last()[k] != "and"@ by {
            assert(s.drop_last()[k] == s[k]);
        }
        lemma_no_and(s.drop_last());
        assert(s[s.len() - 1] != "and"@);
        assert(s.drop_last().push(s.last()) =~= s);
    }
}

/// A run of spoken digit words spells its digits.
proof fn lemma_digit_run_number(p: Seq<Seq<char>>)
    requires
        p.len() >= 1,
        forall|k: int| 0 <= k < p.len() ==> (#[trigger] digit_word(p[k])) is Some,
    ensures
        phrase_number(p) == Some(digits_of(p)),
{
    assert forall|k: int| 0 <= k < p.len() implies !repeat_word(#[trigger] p[k]) && !decimal_word(p[k]) && p[k]
        != "and"@ by {
        lemma_digit_word(p[k]);
    }
    lemma_expand_plain(p, 0);
    assert(p.skip(0) =~= p);
    lemma_no_decimals(p);
    lemma_no_and(p);
    assert(all_digit_words(p));
}

/// A run of spoken digit words alone becomes its digits.
proof fn lemma_run_alone(p: Seq<Seq<char>>)
    requires
        p.len() >= 1,
        forall|k: int| 0 <= k < p.len() ==> (#[trigger] digit_word(p[k])) is Some,
    ensures
        normalized(spaced(p)) == digits_of(p),
{
    assert forall|k: int| 0 <= k < p.len() implies lower_word(#[trigger] p[k]) && number_word(p[k]) by {
        lemma_digit_word(p[k]);
    }
    lemma_digit_run_number(p);
    let digits = digits_of(p);
    let t0 = spaced(p);
    let l: int = t0.len() as int;
    assert(t0.subrange(0, l) =~= t0);
    lemma_phrase_run(t0, p, 0);
    lemma_no_word(t0, l);
    assert(phrase_spans(t0, l) == Seq::<(int, int)>::empty());
    let all0 = word_spans(p, 0);
    assert(seq![(0int, p[0].len() as int)] + phrase_spans(t0, p[0].len() as int) =~= all0);
    lemma_digit_word(p[p.len() - 1]);
    assert(span_words(t0, all0).last() == p.last());
    assert(!connector_word(word_at(t0, all0.last())));
    assert(phrase_parts(t0, 0, p[0].len() as int) == (all0, l));
    assert(span_words(t0, all0) == p);
    assert(scan_step(t0, 0) == Some((t0.subrange(0, 0) + digits + t0.subrange(l, l), l)));
    assert(scan_step(t0, l) is None);
    assert(normalized_from(t0, l) =~= Seq::<char>::empty());
    assert(normalized(t0) =~= digits);
}

/// The first step over a run of digit words, " and " and a word that is no
/// number word: the run becomes its digits and the step stops before "and".
#[verifier::rlimit(40)]
proof fn lemma_run_and_first_step(p: Seq<Seq<char>>, w: Seq<char>)
    requires
        p.len() >= 1,
        forall|k: int| 0 <= k < p.len() ==> (#[trigger] digit_word(p[k])) is Some,
        lower_word(w),
        !number_word(w),
    ensures
        ({
            let t = spaced(p) + " and "@ + w;
            let l = spaced(p).len() as int;
            &&& t.len() == l + 5 + w.len()
            &&& t.subrange(l, l + 5) == " and "@
            &&& t.subrange(l + 5, t.len() as int) == w
            &&& scan_step(t, 0) == Some((digits_of(p) + t.subrange(l, l + 1), l + 1))
        }),
{
    lemma_structure_words();
    reveal_strlit(" and ");
    reveal_strlit("and");
    assert forall|k: int| 0 <= k < p.len() implies lower_word(#[trigger] p[k]) && number_word(p[k]) by {
        lemma_digit_word(p[k]);
    }
    lemma_digit_run_number(p);
    let digits = digits_of(p);
    let l: int = spaced(p).len() as int;
    let all0 = word_spans(p, 0);
    let ws = p.push("and"@);
    lemma_spaced_push(p, "and"@);
    let t = spaced(p) + " and "@ + w;
    let m: int = spaced(ws).len() as int;
    assert(m == l + 4);
    assert(t =~= spaced(ws) + seq![' '] + w);
    assert(t.subrange(0, m) =~= spaced(ws));
    assert(t[m] == ' ');
    assert(t.subrange(l, l + 5) =~= " and "@);
    assert(t.subrange(l + 5, t.len() as int) =~= w);
    assert forall|k: int| 0 <= k < ws.len() implies lower_word(#[trigger] ws[k]) && number_word(ws[k]) by {
        if k < p.len() {
            assert(ws[k] == p[k]);
        }
    }
    lemma_phrase_run(t, ws, 0);
    lemma_word_span(t, m, m + 1, w);
    assert(phrase_spans(t, m) == Seq::<(int, int)>::empty());
    let all = word_spans(ws, 0);
    lemma_word_spans_push(p, "and"@, 0);
    assert(all == all0.push((l + 1, l + 4)));
    assert(span_words(t, all).last() == "and"@);
    assert(connector_word(word_at(t, all.last())));
    assert(all.drop_last() =~= all0);
    assert(phrase_parts(t, 0, p[0].len() as int) == (all0, l + 1));
    assert(span_words(t, all0) =~= span_words(t, all).drop_last());
    assert(span_words(t, all0) =~= p);
    lemma_spaced_nonempty(p);
    assert(t.subrange(0, l) =~= spaced(p));
    assert(spaced(p).len() <= t.len());
    assert(!is_ascii_letter(t[l]));
    lemma_phrase_run(t, p, 0);
    assert(all0.last().1 == l);
    assert(t.subrange(0, 0) + digits + t.subrange(l, l + 1) =~= digits + t.subrange(l, l + 1));
}

/// A trailing "and" does not stop a number: a run of spoken digit words
/// followed by " and " and a word that is no number word becomes its digits
/// followed by the same " and " and word, just as the run alone becomes its
/// digits.
pub proof fn trailing_and_keeps_number(p: Seq<Seq<char>>, w: Seq<char>)
    requires
        p.len() >= 1,
        forall|k: int| 0 <= k < p.len() ==> (#[trigger] digit_word(p[k])) is Some,
        lower_word(w),
        !number_word(w),
    ensures
        normalized(spaced(p)) == digits_of(p),
        normalized(spaced(p) + " and "@ + w) == normalized(spaced(p)) + " and "@ + w,
{
    lemma_structure_words();
    reveal_strlit(" and ");
    reveal_strlit("and");
    lemma_run_alone(p);
    lemma_run_and_first_step(p, w);
    let digits = digits_of(p);
    let t = spaced(p) + " and "@ + w;
    let l: int = spaced(p).len() as int;
    let n: int = t.len() as int;
    // "and" is copied.
    assert(t.subrange(l + 1, l + 4) =~= "and"@);
    assert(!is_ascii_letter(t[l]));
    lemma_word_span(t, l + 1, l + 1, "and"@);
    assert(scan_step(t, l + 1) == Some((t.subrange(l + 1, l + 4), l + 4)));
    // The word is copied.
    assert(t.subrange(l + 5, l + 5 + w.len()) =~= w);
    assert(!is_ascii_letter(t[l + 4]));
    lemma_word_span(t, l + 4, l + 5, w);
    assert(!number_start(w));
    assert(scan_step(t, l + 4) == Some((t.subrange(l + 4, n), n)));
    lemma_no_word(t, n);
    assert(normalized_from(t, n) =~= Seq::<char>::empty());
    assert(normalized_from(t, l + 4) == t.subrange(l + 4, n) + normalized_from(t, n));
    assert(normalized_from(t, l + 1) == t.subrange(l + 1, l + 4) + normalized_from(t, l + 4));
    assert(normalized_from(t, 0) == digits + t.subrange(l, l + 1) + normalized_from(t, l + 1));
    assert(normalized(t) =~= digits + " and "@ + w);
}

/// The words "X thousand Y hundred" for digit words X and Y spell
/// 1000·X + 100·Y.
proof fn lemma_thousand_hundred_number(x: Seq<char>, y: Seq<char>)
    requires
        digit_word(x) is Some,
        digit_word(y) is Some,
        digit_word(x) != Some('0'),
        digit_word(y) != Some('0'),
    ensures
        phrase_number(seq![x, "thousand"@, y, "hundred"@]) == Some(
            decimal((1000 * digit_value(digit_word(x)->0) + 100 * digit_value(digit_word(y)->0)) as nat),
        ),
{
    lemma_structure_words();
    lemma_digit_word(x);
    lemma_digit_word(y);
    let vx = digit_value(digit_word(x)->0) as int;
    let vy = digit_value(digit_word(y)->0) as int;
    let ws = seq![x, "thousand"@, y, "hundred"@];
    assert forall|k: int| 0 <= k < ws.len() implies !repeat_word(#[trigger] ws[k]) && !decimal_word(ws[k]) && ws[k]
        != "and"@ by {
        if k == 0 {
        } else if k == 1 {
        } else if k == 2 {
        } else {
        }
    }
    lemma_expand_plain(ws, 0);
    assert(ws.skip(0) =~= ws);
    lemma_no_decimals(ws);
    lemma_no_and(ws);
    assert(!all_digit_words(ws)) by {
        assert(digit_word(ws[1]) is None);
    }
    let s1 = seq![x];
    let s2 = seq![x, "thousand"@];
    let s3 = seq![x, "thousand"@, y];
    assert(s1.drop_last() =~= Seq::<Seq<char>>::empty());
    assert(s2.drop_last() =~= s1);
    assert(s3.drop_last() =~= s2);
    assert(ws.drop_last() =~= s3);
    assert(cardinal_fold(Seq::<Seq<char>>::empty()) == Some((0int, 0int)));
    assert(cardinal_step((0int, 0int), x) == Some((0int, vx)));
    assert(cardinal_fold(s1) == Some((0int, vx)));
    assert(cardinal_fold(s2) == Some((1000 * vx, 0int)));
    assert(cardinal_fold(s3) == Some((1000 * vx, vy)));
    assert(cardinal_fold(ws) == Some((1000 * vx, 100 * vy)));
}

/// A spoken "hundred" multiplies the group before it by one hundred, and
/// "thousand" by one thousand: "X thousand Y hundred", for non-zero digit
/// words X and Y, becomes the decimal digits of 1000·X + 100·Y
/// ("two thousand five hundred" becomes "2500").
pub proof fn thousand_and_hundred_scale(x: Seq<char>, y: Seq<char>)
    requires
        digit_word(x) is Some,
        digit_word(y) is Some,
        digit_word(x) != Some('0'),
        digit_word(y) != Some('0'),
    ensures
        normalized(x + " thousand "@ + y + " hundred"@) == decimal(
            (1000 * digit_value(digit_word(x)->0) + 100 * digit_value(digit_word(y)->0)) as nat,
        ),
{
    lemma_structure_words();
    lemma_digit_word(x);
    lemma_digit_word(y);
    reveal_strlit(" thousand ");
    reveal_strlit(" hundred");
    reveal_strlit("thousand");
    reveal_strlit("hundred");
    lemma_thousand_hundred_number(x, y);
    let ws = seq![x, "thousand"@, y, "hundred"@];
    let t = x + " thousand "@ + y + " hundred"@;
    assert(ws.skip(1) =~= seq!["thousand"@, y, "hundred"@]);
    assert(ws.skip(1).skip(1) =~= seq![y, "hundred"@]);
    assert(ws.skip(1).skip(1).skip(1) =~= seq!["hundred"@]);
    assert(spaced(seq!["hundred"@]) == "hundred"@);
    assert(spaced(seq![y, "hundred"@]) == y + seq![' '] + "hundred"@);
    assert(spaced(seq!["thousand"@, y, "hundred"@]) == "thousand"@ + seq![' '] + (y + seq![' '] + "hundred"@));
    assert(spaced(ws) == x + seq![' '] + ("thousand"@ + seq![' '] + (y + seq![' '] + "hundred"@)));
    assert(t =~= spaced(ws));
    let n: int = t.len() as int;
    assert(t.subrange(0, n) =~= t);
    assert forall|k: int| 0 <= k < ws.len() implies lower_word(#[trigger] ws[k]) && number_word(ws[k]) by {
        if k == 0 {
        } else if k == 1 {
        } else if k == 2 {
        } else {
        }
    }
    lemma_phrase_run(t, ws, 0);
    lemma_no_word(t, n);
    assert(phrase_spans(t, n) == Seq::<(int, int)>::empty());
    let all = word_spans(ws, 0);
    assert(seq![(0int, x.len() as int)] + phrase_spans(t, x.len() as int) =~= all);
    assert(span_words(t, all).last() == "hundred"@);
    assert(!connector_word(word_at(t, all.last())));
    assert(phrase_parts(t, 0, x.len() as int) == (all, n));
    let digits = decimal((1000 * digit_value(digit_word(x)->0) + 100 * digit_value(digit_word(y)->0)) as nat);
    assert(scan_step(t, 0) == Some((t.subrange(0, 0) + digits + t.subrange(n, n), n)));
    assert(normalized_from(t, n) =~= Seq::<char>::empty());
    assert(normalized(t) =~= digits);
}

} // verus!
