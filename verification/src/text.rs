use vstd::prelude::*;

verus! {

/// Unicode white space, the characters that `str::trim` removes.
pub open spec fn is_whitespace(c: char) -> bool {
    ||| ('\u{9}' <= c && c <= '\u{d}')
    ||| c == ' '
    ||| c == '\u{85}'
    ||| c == '\u{a0}'
    ||| c == '\u{1680}'
    ||| ('\u{2000}' <= c && c <= '\u{200a}')
    ||| c == '\u{2028}'
    ||| c == '\u{2029}'
    ||| c == '\u{202f}'
    ||| c == '\u{205f}'
    ||| c == '\u{3000}'
}

/// ASCII white space: space, tab, line feed, form feed, carriage return.
pub open spec fn is_ascii_whitespace(c: char) -> bool {
    c == ' ' || c == '\t' || c == '\n' || c == '\u{c}' || c == '\r'
}

/// The first index at or after `from`, and before `to`, whose character
/// satisfies `stop`; `to` if there is none.
pub open spec fn first_index(s: Seq<char>, stop: spec_fn(char) -> bool, from: int, to: int) -> int
    decreases to - from,
{
    if from < to && !stop(s[from]) {
        first_index(s, stop, from + 1, to)
    } else {
        from
    }
}

/// `first_index` lies within its bounds, nothing before it satisfies
/// `stop`, and the character at it does, unless it is `to`.
pub proof fn lemma_first_index(s: Seq<char>, stop: spec_fn(char) -> bool, from: int, to: int)
    requires
        0 <= from <= to <= s.len(),
    ensures
        from <= first_index(s, stop, from, to) <= to,
        forall|i: int| from <= i < first_index(s, stop, from, to) ==> !stop(#[trigger] s[i]),
        first_index(s, stop, from, to) < to ==> stop(s[first_index(s, stop, from, to)]),
    decreases to - from,
{
    if from < to && !stop(s[from]) {
        lemma_first_index(s, stop, from + 1, to);
    }
}

/// An index with nothing that satisfies `stop` before it, and with such a
/// character at it unless it is `to`, is the first index.
pub proof fn lemma_first_index_is(
    s: Seq<char>,
    stop: spec_fn(char) -> bool,
    from: int,
    to: int,
    at: int,
)
    requires
        0 <= from <= at <= to <= s.len(),
        forall|i: int| from <= i < at ==> !stop(#[trigger] s[i]),
        at < to ==> stop(s[at]),
    ensures
        first_index(s, stop, from, to) == at,
    decreases to - from,
{
    if from < at {
        assert(!stop(s[from]));
        lemma_first_index_is(s, stop, from + 1, to, at);
    }
}

/// The first index at or after `from`, and before `to`, whose character is
/// not white space; `to` if there is none.
pub open spec fn skip_whitespace(s: Seq<char>, from: int, to: int) -> int {
    first_index(s, |c: char| !is_whitespace(c), from, to)
}

/// The first index at or after `from`, and before `to`, that holds `c`;
/// `to` if there is none.
pub open spec fn find_char(s: Seq<char>, c: char, from: int, to: int) -> int {
    first_index(s, |x: char| x == c, from, to)
}

/// An index with no `c` before it, and with `c` at it unless it is `to`,
/// is where `find_char` finds `c`.
pub proof fn lemma_find_char_is(s: Seq<char>, c: char, from: int, to: int, at: int)
    requires
        0 <= from <= at <= to <= s.len(),
        forall|i: int| from <= i < at ==> #[trigger] s[i] != c,
        at < to ==> s[at] == c,
    ensures
        find_char(s, c, from, to) == at,
    decreases to - from,
{
    if from < at {
        assert(s[from] != c);
        lemma_find_char_is(s, c, from + 1, to, at);
    }
}

/// The end of `s[from..to]` once trailing white space is dropped.
pub open spec fn skip_whitespace_back(s: Seq<char>, from: int, to: int) -> int
    decreases to - from,
{
    if from < to && is_whitespace(s[to - 1]) {
        skip_whitespace_back(s, from, to - 1)
    } else {
        to
    }
}

/// Where the text starts once leading white space is dropped.
pub open spec fn trim_start(s: Seq<char>) -> int {
    skip_whitespace(s, 0, s.len() as int)
}

/// Where the text ends once trailing white space is dropped.
pub open spec fn trim_end(s: Seq<char>) -> int {
    skip_whitespace_back(s, trim_start(s), s.len() as int)
}

/// The text without the white space around it.
pub open spec fn trimmed(s: Seq<char>) -> Seq<char> {
    s.subrange(trim_start(s), trim_end(s))
}

/// The index of the first `(` of the trimmed text; `trim_end(s)` if it has
/// none.
pub open spec fn open_bracket(s: Seq<char>) -> int {
    find_char(s, '(', trim_start(s), trim_end(s))
}

/// The trimmed text has a `(` and ends with `)`: a name, then arguments
/// in brackets.
pub open spec fn has_call_shape(s: Seq<char>) -> bool {
    open_bracket(s) < trim_end(s) && s[trim_end(s) - 1] == ')'
}

/// The name of a text in call shape: what stands before the first `(`,
/// without white space around it.
pub open spec fn call_name(s: Seq<char>) -> Seq<char> {
    s.subrange(trim_start(s), skip_whitespace_back(s, trim_start(s), open_bracket(s)))
}

/// An ASCII letter in lower case; any other character is itself.
pub open spec fn ascii_lower(c: char) -> char {
    if 'A' <= c && c <= 'Z' {
        ((c as u32) + 32) as char
    } else {
        c
    }
}

/// Equal once the ASCII letters of `s` are taken in lower case. `word` is
/// in lower case already.
pub open spec fn is_word(s: Seq<char>, word: Seq<char>) -> bool {
    s.len() == word.len() && forall|i: int|
        0 <= i < s.len() ==> ascii_lower(#[trigger] s[i]) == word[i]
}

/// A word of three letters, letter by letter.
pub proof fn lemma_word3(s: Seq<char>, a: char, b: char, c: char)
    ensures
        is_word(s, seq![a, b, c]) <==> s.len() == 3 && ascii_lower(s[0]) == a && ascii_lower(s[1])
            == b && ascii_lower(s[2]) == c,
{
    let w = seq![a, b, c];
    assert(w.len() == 3 && w[0] == a && w[1] == b && w[2] == c);
    if s.len() == 3 && ascii_lower(s[0]) == a && ascii_lower(s[1]) == b && ascii_lower(s[2]) == c {
        assert forall|i: int| 0 <= i < s.len() implies ascii_lower(#[trigger] s[i]) == w[i] by {}
    }
}

/// A word of four letters, letter by letter.
pub proof fn lemma_word4(s: Seq<char>, a: char, b: char, c: char, d: char)
    ensures
        is_word(s, seq![a, b, c, d]) <==> s.len() == 4 && ascii_lower(s[0]) == a && ascii_lower(
            s[1],
        ) == b && ascii_lower(s[2]) == c && ascii_lower(s[3]) == d,
{
    let w = seq![a, b, c, d];
    assert(w.len() == 4 && w[0] == a && w[1] == b && w[2] == c && w[3] == d);
    if s.len() == 4 && ascii_lower(s[0]) == a && ascii_lower(s[1]) == b && ascii_lower(s[2]) == c
        && ascii_lower(s[3]) == d {
        assert forall|i: int| 0 <= i < s.len() implies ascii_lower(#[trigger] s[i]) == w[i] by {}
    }
}

/// A word of five letters, letter by letter.
pub proof fn lemma_word5(s: Seq<char>, a: char, b: char, c: char, d: char, e: char)
    ensures
        is_word(s, seq![a, b, c, d, e]) <==> s.len() == 5 && ascii_lower(s[0]) == a
            && ascii_lower(s[1]) == b && ascii_lower(s[2]) == c && ascii_lower(s[3]) == d
            && ascii_lower(s[4]) == e,
{
    let w = seq![a, b, c, d, e];
    assert(w.len() == 5 && w[0] == a && w[1] == b && w[2] == c && w[3] == d && w[4] == e);
    if s.len() == 5 && ascii_lower(s[0]) == a && ascii_lower(s[1]) == b && ascii_lower(s[2]) == c
        && ascii_lower(s[3]) == d && ascii_lower(s[4]) == e {
        assert forall|i: int| 0 <= i < s.len() implies ascii_lower(#[trigger] s[i]) == w[i] by {}
    }
}

/// Whether `c` is the letter `lower` in either case.
pub fn letter_is(c: char, lower: char) -> (r: bool)
    requires
        'a' <= lower <= 'z',
    ensures
        r == (ascii_lower(c) == lower),
{
    c == lower || ('A' <= c && c <= 'Z' && (c as u32) + 32 == (lower as u32))
}

/// The characters of a text, in order.
pub fn to_chars(s: &str) -> (v: Vec<char>)
    ensures
        v@ == s@,
{
    let mut v: Vec<char> = Vec::new();
    for c in it: s.chars()
        invariant
            v@ == it.seq().take(it.index@ as int),
    {
        v.push(c);
    }
    v
}

pub fn char_is_whitespace(c: char) -> (r: bool)
    ensures
        r == is_whitespace(c),
{
    ('\u{9}' <= c && c <= '\u{d}') || c == ' ' || c == '\u{85}' || c == '\u{a0}' || c
        == '\u{1680}' || ('\u{2000}' <= c && c <= '\u{200a}') || c == '\u{2028}' || c
        == '\u{2029}' || c == '\u{202f}' || c == '\u{205f}' || c == '\u{3000}'
}

/// Skips white space forward from `from`, stopping at `to`.
pub fn skip_whitespace_in(cs: &Vec<char>, from: usize, to: usize) -> (r: usize)
    requires
        from <= to <= cs@.len(),
    ensures
        r == skip_whitespace(cs@, from as int, to as int),
        from <= r <= to,
{
    let mut i: usize = from;
    while i < to && char_is_whitespace(cs[i])
        invariant
            from <= i <= to <= cs@.len(),
            skip_whitespace(cs@, from as int, to as int) == skip_whitespace(
                cs@,
                i as int,
                to as int,
            ),
        decreases to - i,
    {
        i += 1;
    }
    i
}

/// Drops trailing white space from `cs[from..to]` and returns the new end.
pub fn skip_whitespace_back_in(cs: &Vec<char>, from: usize, to: usize) -> (r: usize)
    requires
        from <= to <= cs@.len(),
    ensures
        r == skip_whitespace_back(cs@, from as int, to as int),
        from <= r <= to,
{
    let mut i: usize = to;
    while from < i && char_is_whitespace(cs[i - 1])
        invariant
            from <= i <= to <= cs@.len(),
            skip_whitespace_back(cs@, from as int, to as int) == skip_whitespace_back(
                cs@,
                from as int,
                i as int,
            ),
        decreases i - from,
    {
        i -= 1;
    }
    i
}

/// Finds the first `c` in `cs[from..to]`; `to` if there is none.
pub fn find_char_in(cs: &Vec<char>, c: char, from: usize, to: usize) -> (r: usize)
    requires
        from <= to <= cs@.len(),
    ensures
        r == find_char(cs@, c, from as int, to as int),
        from <= r <= to,
        r < to ==> cs@[r as int] == c,
{
    let mut i: usize = from;
    while i < to && cs[i] != c
        invariant
            from <= i <= to <= cs@.len(),
            find_char(cs@, c, from as int, to as int) == find_char(cs@, c, i as int, to as int),
        decreases to - i,
    {
        i += 1;
    }
    i
}

/// A copy of `s[from..to]` as an owned text.
pub fn slice_to_string(s: &str, from: usize, to: usize) -> (r: String)
    requires
        from <= to <= s@.len(),
    ensures
        r@ == s@.subrange(from as int, to as int),
{
    s.substring_char(from, to).to_owned()
}

} // verus!
