//! The user-editable keyword list and transcription prompt.

use vstd::prelude::*;
use crate::text::{
    chars_of, concat_str, debug_quoted, debug_string, extend_chars, is_unicode_white_space, string_of, to_lowercase,
    trim_chars, trim_end_index, trim_start_index, trimmed, unicode_lowercase,
};
use crate::DEFAULT_PROMPT;

verus! {

/// The pieces of `s` between line feeds, in order; a final line feed leaves
/// an empty last piece.
pub open spec fn line_pieces(s: Seq<char>) -> Seq<Seq<char>>
    decreases s.len(),
{
    if s.len() == 0 {
        seq![Seq::empty()]
    } else {
        let g = line_pieces(s.drop_last());
        if s.last() == '\n' {
            g.push(Seq::empty())
        } else {
            g.update(g.len() - 1, g.last().push(s.last()))
        }
    }
}

proof fn lemma_line_pieces_nonempty(s: Seq<char>)
    ensures
        line_pieces(s).len() >= 1,
    decreases s.len(),
{
    if s.len() > 0 {
        lemma_line_pieces_nonempty(s.drop_last());
    }
}

/// The lines of `s`.
fn split_lines(s: &Vec<char>) -> (r: Vec<Vec<char>>)
    ensures
        r@.map_values(|l: Vec<char>| l@) == line_pieces(s@),
{
    let mut lines: Vec<Vec<char>> = Vec::new();
    lines.push(Vec::new());
    assert(s@.take(0) =~= Seq::<char>::empty());
    assert(lines@.map_values(|l: Vec<char>| l@) =~= line_pieces(s@.take(0)));
    let mut i: usize = 0;
    while i < s.len()
        invariant
            i <= s@.len(),
            lines@.len() >= 1,
            lines@.map_values(|l: Vec<char>| l@) == line_pieces(s@.take(i as int)),
        decreases s.len() - i,
    {
        assert(s@.take(i + 1).drop_last() =~= s@.take(i as int));
        proof {
            lemma_line_pieces_nonempty(s@.take(i as int));
        }
        let ghost before = lines@.map_values(|l: Vec<char>| l@);
        if s[i] == '\n' {
            let ghost old_lines = lines@;
            lines.push(Vec::new());
            assert(lines@ == old_lines.push(lines@.last()));
            assert(lines@.map_values(|l: Vec<char>| l@) =~= before.push(Seq::empty()));
        } else {
            let mut last = lines.pop().unwrap();
            last.push(s[i]);
            lines.push(last);
            assert(lines@.map_values(|l: Vec<char>| l@) =~= before.update(before.len() - 1, before.last().push(s@[i as int])));
        }
        i += 1;
    }
    assert(s@.take(s@.len() as int) =~= s@);
    lines
}

/// Why a keyword file is refused.
#[derive(Debug, Clone, PartialEq, Eq)]
pub enum KeywordError {
    /// A keyword holds `<` or `>`; the keyword.
    Invalid(String),
}

impl KeywordError {
    /// The error as a sentence.
    pub fn message(&self) -> (r: String)
        ensures
            match self {
                KeywordError::Invalid(k) => r@ == "invalid keyword: "@ + debug_quoted(k@),
            },
    {
        match self {
            KeywordError::Invalid(k) => concat_str("invalid keyword: ", debug_string(k.as_str()).as_str()),
        }
    }
}

/// Whether a trimmed line holds no keyword: it is blank or a `#` comment.
pub open spec fn skipped_line(k: Seq<char>) -> bool {
    k.len() == 0 || k[0] == '#'
}

pub open spec fn has_angle_bracket(k: Seq<char>) -> bool {
    exists|j: int| 0 <= j < k.len() && (k[j] == '<' || k[j] == '>')
}

/// The keywords of the lines `lines`, each once ignoring case (the first
/// spelling wins), with the lower-cased forms already taken; or the first
/// keyword that holds `<` or `>`.
pub open spec fn keyword_scan(lines: Seq<Seq<char>>) -> Result<(Seq<Seq<char>>, Seq<Seq<char>>), Seq<char>>
    decreases lines.len(),
{
    if lines.len() == 0 {
        Ok((Seq::empty(), Seq::empty()))
    } else {
        match keyword_scan(lines.drop_last()) {
            Err(bad) => Err(bad),
            Ok((keywords, keys)) => {
                let k = trimmed(lines.last());
                if skipped_line(k) {
                    Ok((keywords, keys))
                } else if has_angle_bracket(k) {
                    Err(k)
                } else if keys.contains(unicode_lowercase(k)) {
                    Ok((keywords, keys))
                } else {
                    Ok((keywords.push(k), keys.push(unicode_lowercase(k))))
                }
            },
        }
    }
}

proof fn lemma_scan_keys(lines: Seq<Seq<char>>)
    ensures
        keyword_scan(lines) matches Ok((keywords, keys)) ==> {
            &&& keys == keywords.map_values(|k: Seq<char>| unicode_lowercase(k))
            &&& forall|i: int, j: int|
                0 <= i < j < keys.len() ==> #[trigger] keys[i] != #[trigger] keys[j]
            &&& forall|i: int|
                0 <= i < keywords.len() ==> !skipped_line(#[trigger] keywords[i]) && !has_angle_bracket(
                    keywords[i],
                )
        },
    decreases lines.len(),
{
    if lines.len() > 0 {
        lemma_scan_keys(lines.drop_last());
        match keyword_scan(lines.drop_last()) {
            Ok((keywords, keys)) => {
                let k = trimmed(lines.last());
                if !skipped_line(k) && !has_angle_bracket(k) && !keys.contains(unicode_lowercase(k)) {
                    let nk = keywords.push(k);
                    let nkeys = keys.push(unicode_lowercase(k));
                    assert(nkeys =~= nk.map_values(|w: Seq<char>| unicode_lowercase(w)));
                    assert forall|i: int, j: int| 0 <= i < j < nkeys.len() implies #[trigger] nkeys[i]
                        != #[trigger] nkeys[j] by {
                        if j == nkeys.len() - 1 {
                            assert(keys[i] == nkeys[i]);
                        } else {
                            assert(keys[i] == nkeys[i] && keys[j] == nkeys[j]);
                        }
                    }
                    assert forall|i: int| 0 <= i < nk.len() implies !skipped_line(#[trigger] nk[i])
                        && !has_angle_bracket(nk[i]) by {
                        if i < keywords.len() {
                            assert(nk[i] == keywords[i]);
                        }
                    }
                }
            },
            Err(_) => {},
        }
    }
}

/// The keywords read from a keyword file's text are distinct when case is
/// ignored, and none of them is blank, a `#` comment, or holds `<` or `>`.
pub proof fn keywords_are_distinct_ignoring_case(content: Seq<char>)
    ensures
        keyword_scan(line_pieces(content)) matches Ok((keywords, _)) ==> {
            &&& forall|i: int, j: int|
                0 <= i < j < keywords.len() ==> unicode_lowercase(#[trigger] keywords[i]) != unicode_lowercase(
                    #[trigger] keywords[j],
                )
            &&& forall|i: int|
                0 <= i < keywords.len() ==> !skipped_line(#[trigger] keywords[i]) && !has_angle_bracket(
                    keywords[i],
                )
        },
{
    let lines = line_pieces(content);
    lemma_scan_keys(lines);
    match keyword_scan(lines) {
        Ok((keywords, keys)) => {
            assert forall|i: int, j: int| 0 <= i < j < keywords.len() implies unicode_lowercase(
                #[trigger] keywords[i],
            ) != unicode_lowercase(#[trigger] keywords[j]) by {
                assert(keys[i] == unicode_lowercase(keywords[i]));
                assert(keys[j] == unicode_lowercase(keywords[j]));
            }
        },
        Err(_) => {},
    }
}

/// The keywords of a keyword file's text: one per line, trimmed, skipping
/// blank lines and `#` comments and later repeats that differ only in case.
#[verifier::loop_isolation(false)]
pub fn parse_keywords(content: &str) -> (r: Result<Vec<String>, KeywordError>)
    ensures
        match keyword_scan(line_pieces(content@)) {
            Ok((keywords, _)) => r matches Ok(v) && v@.map_values(|k: String| k@) == keywords,
            Err(bad) => r matches Err(KeywordError::Invalid(k)) && k@ == bad,
        },
{
    let chars = chars_of(content);
    let lines = split_lines(&chars);
    let ghost ls = line_pieces(content@);
    let mut keywords: Vec<String> = Vec::new();
    let mut keys: Vec<Vec<char>> = Vec::new();
    let mut i: usize = 0;
    assert(ls.take(0) =~= Seq::<Seq<char>>::empty());
    assert(keywords@.map_values(|k: String| k@) =~= Seq::<Seq<char>>::empty());
    assert(keys@.map_values(|k: Vec<char>| k@) =~= Seq::<Seq<char>>::empty());
    while i < lines.len()
        invariant
            ls == lines@.map_values(|l: Vec<char>| l@),
            i <= lines@.len(),
            keyword_scan(ls.take(i as int)) == Ok::<(Seq<Seq<char>>, Seq<Seq<char>>), Seq<char>>(
                (keywords@.map_values(|k: String| k@), keys@.map_values(|k: Vec<char>| k@)),
            ),
        decreases lines.len() - i,
    {
        assert(ls.take(i + 1).drop_last() =~= ls.take(i as int));
        assert(ls.take(i + 1).last() == lines@[i as int]@);
        let keyword = trim_chars(&lines[i]);
        if keyword.len() == 0 || keyword[0] == '#' {
            i += 1;
            continue;
        }
        let mut j: usize = 0;
        while j < keyword.len()
            invariant
                j <= keyword@.len(),
                forall|m: int| 0 <= m < j ==> keyword@[m] != '<' && keyword@[m] != '>',
            decreases keyword.len() - j,
        {
            if keyword[j] == '<' || keyword[j] == '>' {
                proof {
                    lemma_scan_error_extends(ls, i as int + 1);
                }
                return Err(KeywordError::Invalid(string_of(&keyword)));
            }
            j += 1;
        }
        let text = string_of(&keyword);
        let key_string = to_lowercase(text.as_str());
        let key = chars_of(key_string.as_str());
        let ghost key_views = keys@.map_values(|k: Vec<char>| k@);
        let mut seen = false;
        let mut m: usize = 0;
        while m < keys.len()
            invariant
                m <= keys@.len(),
                key_views == keys@.map_values(|k: Vec<char>| k@),
                key@ == key_string@,
                seen == (exists|q: int| 0 <= q < m && key_views[q] == key@),
            decreases keys.len() - m,
        {
            let candidate = string_of(&keys[m]);
            assert(key_views[m as int] == keys@[m as int]@);
            if crate::text_map::same_text(candidate.as_str(), key_string.as_str()) {
                seen = true;
            }
            m += 1;
        }
        assert(seen == key_views.contains(key@));
        if !seen {
            let ghost kw_before = keywords@;
            let ghost keys_before = keys@;
            keywords.push(text);
            keys.push(key);
            assert(keywords@.map_values(|k: String| k@) =~= kw_before.map_values(|k: String| k@).push(keyword@));
            assert(keys@.map_values(|k: Vec<char>| k@) =~= keys_before.map_values(|k: Vec<char>| k@).push(
                unicode_lowercase(keyword@),
            ));
        }
        i += 1;
    }
    assert(ls.take(lines@.len() as int) =~= ls);
    Ok(keywords)
}

proof fn lemma_scan_error_extends(ls: Seq<Seq<char>>, k: int)
    requires
        0 <= k <= ls.len(),
        keyword_scan(ls.take(k)) is Err,
    ensures
        keyword_scan(ls) == keyword_scan(ls.take(k)),
    decreases ls.len() - k,
{
    if k < ls.len() {
        assert(ls.take(k + 1).drop_last() =~= ls.take(k));
        lemma_scan_error_extends(ls, k + 1);
    } else {
        assert(ls.take(k) =~= ls);
    }
}

/// Why a prompt file is refused.
#[derive(Debug, Clone, Copy, PartialEq, Eq, Structural)]
pub enum PromptError {
    /// The file holds nothing but white space.
    Empty,
}

impl PromptError {
    /// The error as a sentence.
    pub fn message(&self) -> (r: &'static str)
        ensures
            r@ == "the prompt file is empty"@,
    {
        "the prompt file is empty"
    }
}

/// The trimmed lines of `lines` joined by single spaces.
pub open spec fn joined_lines(lines: Seq<Seq<char>>) -> Seq<char>
    decreases lines.len(),
{
    if lines.len() == 0 {
        Seq::empty()
    } else if lines.len() == 1 {
        trimmed(lines[0])
    } else {
        joined_lines(lines.drop_last()) + seq![' '] + trimmed(lines.last())
    }
}

/// The prompt a prompt file's text gives: its trimmed lines joined by single
/// spaces, trimmed as a whole.
pub open spec fn file_prompt(content: Seq<char>) -> Seq<char> {
    trimmed(joined_lines(line_pieces(content)))
}

/// The transcription prompt: the default prompt without a prompt file, or
/// the prompt file's text as one line; an all-blank file is refused.
pub fn prompt_text(content: Option<&str>) -> (r: Result<String, PromptError>)
    ensures
        content is None ==> (r matches Ok(p) && p@ == DEFAULT_PROMPT@),
        content matches Some(c) ==> if file_prompt(c@).len() == 0 {
            r == Err::<String, PromptError>(PromptError::Empty)
        } else {
            r matches Ok(p) && p@ == file_prompt(c@)
        },
{
    let content = match content {
        Some(c) => c,
        None => return Ok(string_of(&chars_of(DEFAULT_PROMPT))),
    };
    let chars = chars_of(content);
    let lines = split_lines(&chars);
    let ghost ls = line_pieces(content@);
    let mut joined: Vec<char> = Vec::new();
    let mut i: usize = 0;
    assert(ls.take(0) =~= Seq::<Seq<char>>::empty());
    while i < lines.len()
        invariant
            ls == lines@.map_values(|l: Vec<char>| l@),
            i <= lines@.len(),
            joined@ == joined_lines(ls.take(i as int)),
        decreases lines.len() - i,
    {
        assert(ls.take(i + 1).drop_last() =~= ls.take(i as int));
        assert(ls.take(i + 1).last() == lines@[i as int]@);
        if i > 0 {
            joined.push(' ');
        } else {
            assert(ls.take(1) =~= seq![ls[0]]);
        }
        let line = trim_chars(&lines[i]);
        extend_chars(&mut joined, &line);
        i += 1;
    }
    assert(ls.take(lines@.len() as int) =~= ls);
    let prompt = trim_chars(&joined);
    if prompt.len() == 0 {
        return Err(PromptError::Empty);
    }
    Ok(string_of(&prompt))
}

// ---------------------------------------------------------------------------
// Laws of the prompt file
// ---------------------------------------------------------------------------

proof fn lemma_start_index_bounds(s: Seq<char>, from: int)
    requires
        0 <= from <= s.len(),
    ensures
        from <= trim_start_index(s, from) <= s.len(),
        trim_start_index(s, from) < s.len() ==> !is_unicode_white_space(s[trim_start_index(s, from)]),
        forall|k: int| from <= k < trim_start_index(s, from) ==> is_unicode_white_space(#[trigger] s[k]),
    decreases s.len() - from,
{
    if from < s.len() && is_unicode_white_space(s[from]) {
        lemma_start_index_bounds(s, from + 1);
    }
}

proof fn lemma_end_index_bounds(s: Seq<char>, to: int)
    requires
        0 <= to <= s.len(),
    ensures
        0 <= trim_end_index(s, to) <= to,
        trim_end_index(s, to) > 0 ==> !is_unicode_white_space(s[trim_end_index(s, to) - 1]),
        forall|k: int| trim_end_index(s, to) <= k < to ==> is_unicode_white_space(#[trigger] s[k]),
    decreases to,
{
    if to > 0 && is_unicode_white_space(s[to - 1]) {
        lemma_end_index_bounds(s, to - 1);
    }
}

/// `trim_start_index` stops at the first character that is not white space.
proof fn lemma_start_index_at(s: Seq<char>, from: int, a: int)
    requires
        0 <= from <= a <= s.len(),
        forall|k: int| from <= k < a ==> is_unicode_white_space(#[trigger] s[k]),
        a == s.len() || !is_unicode_white_space(s[a]),
    ensures
        trim_start_index(s, from) == a,
    decreases a - from,
{
    if from < a {
        lemma_start_index_at(s, from + 1, a);
    }
}

/// `trim_end_index` stops after the last character that is not white space.
proof fn lemma_end_index_at(s: Seq<char>, to: int, b: int)
    requires
        0 <= b <= to <= s.len(),
        forall|k: int| b <= k < to ==> is_unicode_white_space(#[trigger] s[k]),
        b == 0 || !is_unicode_white_space(s[b - 1]),
    ensures
        trim_end_index(s, to) == b,
    decreases to - b,
{
    if b < to {
        lemma_end_index_at(s, to - 1, b);
    }
}

/// Trimming twice trims once.
proof fn lemma_trimmed_twice(s: Seq<char>)
    ensures
        trimmed(trimmed(s)) == trimmed(s),
{
    lemma_start_index_bounds(s, 0);
    lemma_end_index_bounds(s, s.len() as int);
    let a = trim_start_index(s, 0);
    let b = trim_end_index(s, s.len() as int);
    let u = trimmed(s);
    if a < b {
        assert(u.len() == b - a);
        lemma_start_index_at(u, 0, 0);
        lemma_end_index_at(u, u.len() as int, u.len() as int);
        assert(u.subrange(0, u.len() as int) =~= u);
    } else {
        assert(u.len() == 0);
    }
}

/// White space added at the end is trimmed away.
proof fn lemma_trimmed_push_space(x: Seq<char>, c: char)
    requires
        is_unicode_white_space(c),
    ensures
        trimmed(x.push(c)) == trimmed(x),
{
    let y = x.push(c);
    lemma_start_index_bounds(x, 0);
    lemma_end_index_bounds(x, x.len() as int);
    let a = trim_start_index(x, 0);
    let b = trim_end_index(x, x.len() as int);
    assert forall|k: int| b <= k < y.len() implies is_unicode_white_space(#[trigger] y[k]) by {
        if k < x.len() {
            assert(y[k] == x[k]);
        }
    }
    if b > 0 {
        assert(y[b - 1] == x[b - 1]);
    }
    lemma_end_index_at(y, y.len() as int, b);
    if a < x.len() {
        assert forall|k: int| 0 <= k < a implies is_unicode_white_space(#[trigger] y[k]) by {
            assert(y[k] == x[k]);
        }
        assert(y[a] == x[a]);
        lemma_start_index_at(y, 0, a);
        assert(trim_start_index(y, 0) == a);
        assert(trim_end_index(y, y.len() as int) == b);
        if a < b {
            assert(y.subrange(a, b) =~= x.subrange(a, b));
            assert(trimmed(y) == y.subrange(a, b));
            assert(trimmed(x) == x.subrange(a, b));
        }
    } else {
        // `x` is all white space, and so is `y`.
        assert(b == 0) by {
            if b > 0 {
                assert(is_unicode_white_space(x[b - 1]));
            }
        }
        assert(trim_end_index(y, y.len() as int) == 0);
        lemma_start_index_bounds(y, 0);
        assert(trimmed(y) =~= Seq::<char>::empty());
        assert(trimmed(x) =~= Seq::<char>::empty());
    }
}

/// A text without line feeds is one line.
proof fn lemma_one_line(s: Seq<char>)
    requires
        forall|k: int| 0 <= k < s.len() ==> s[k] != '\n',
    ensures
        line_pieces(s) == seq![s],
    decreases s.len(),
{
    if s.len() > 0 {
        lemma_one_line(s.drop_last());
        assert(s.drop_last().push(s.last()) =~= s);
        assert(seq![s.drop_last()].update(0, s.drop_last().push(s.last())) =~= seq![s]);
    } else {
        assert(s =~= Seq::<char>::empty());
    }
}

/// Every line of a prompt file counts, the last one too: a text of one
/// line gives that line, trimmed; and a line feed at the end of any text
/// changes nothing.
pub proof fn prompt_keeps_every_line(s: Seq<char>, content: Seq<char>)
    requires
        forall|k: int| 0 <= k < s.len() ==> s[k] != '\n',
    ensures
        file_prompt(s) == trimmed(s),
        file_prompt(content.push('\n')) == file_prompt(content),
{
    lemma_one_line(s);
    assert(joined_lines(seq![s]) == trimmed(s));
    lemma_trimmed_twice(s);
    lemma_line_pieces_nonempty(content);
    let lines = line_pieces(content);
    assert(content.push('\n').drop_last() =~= content);
    assert(line_pieces(content.push('\n')) == lines.push(Seq::<char>::empty()));
    let extended = lines.push(Seq::<char>::empty());
    assert(extended.drop_last() =~= lines);
    assert(trimmed(Seq::<char>::empty()) =~= Seq::<char>::empty());
    assert(joined_lines(extended) =~= joined_lines(lines).push(' '));
    lemma_trimmed_push_space(joined_lines(lines), ' ');
}

} // verus!
