use crate::color::{is_exact, is_hex_literal, ColorValue};
use crate::fractional::fractional_color;
use crate::parser::{
    acceptance, colors_resolved, places, ColorNode,
};
use crate::parser::{
    call_end, hex_end, is_function_prefix, lemma_call_end, lemma_function_prefix, lemma_hex_end,
    lemma_hex_literal_end, lemma_same_line, line_start, located, newlines, scan, spans_from,
    word_char, Place, Span,
};
use crate::text::{lemma_first_index_is, trimmed};
use vstd::prelude::*;

verus! {

/// The line count and the start of the line are between 0 and the position.
pub proof fn lemma_line_bounds(s: Seq<char>, pos: int)
    requires
        0 <= pos <= s.len(),
    ensures
        0 <= newlines(s, pos) <= pos,
        0 <= line_start(s, pos) <= pos,
    decreases pos,
{
    if pos > 0 {
        lemma_line_bounds(s, pos - 1);
    }
}

/// A later position is on the same line or on a later one; on the same
/// line the line starts where it started.
pub proof fn lemma_positions_ordered(s: Seq<char>, a: int, b: int)
    requires
        0 <= a <= b <= s.len(),
    ensures
        newlines(s, a) <= newlines(s, b),
        newlines(s, a) == newlines(s, b) ==> line_start(s, a) == line_start(s, b),
    decreases b - a,
{
    if a < b {
        lemma_positions_ordered(s, a, b - 1);
        if s[b - 1] != '\n' && newlines(s, a) == newlines(s, b) {
            assert(line_start(s, b) == line_start(s, b - 1));
        }
        if s[b - 1] == '\n' {
            assert(newlines(s, b) == newlines(s, b - 1) + 1);
        }
    }
}

/// A text that starts as a candidate does: with `#`, or with the name of a
/// color function and its opening bracket.
pub open spec fn starts_as_candidate(m: Seq<char>) -> bool {
    (m.len() > 0 && m[0] == '#') || exists|n: int|
        0 <= n <= m.len() && is_function_prefix(#[trigger] m.subrange(0, n))
}

/// What holds of the spans found from `pos` on with the word starting at
/// `word`: each lies behind `word` and within the text, is not empty,
/// starts as a candidate does, holds no line feed and is a color; and each
/// ends before the next starts.
pub open spec fn spans_in_order(
    text: Seq<char>,
    is_color: spec_fn(Seq<char>) -> bool,
    spans: Seq<Span>,
    word: int,
) -> bool {
    &&& forall|k: int|
        0 <= k < spans.len() ==> {
            &&& word <= (#[trigger] spans[k]).start < spans[k].end <= text.len()
            &&& is_color(text.subrange(spans[k].start, spans[k].end))
            &&& starts_as_candidate(text.subrange(spans[k].start, spans[k].end))
            &&& forall|i: int| spans[k].start <= i < spans[k].end ==> #[trigger] text[i] != '\n'
        }
    &&& forall|i: int, j: int|
        0 <= i < j < spans.len() ==> (#[trigger] spans[i]).end <= (#[trigger] spans[j]).start
}

pub proof fn lemma_spans_in_order(
    text: Seq<char>,
    is_color: spec_fn(Seq<char>) -> bool,
    pos: int,
    word: int,
)
    requires
        0 <= word <= pos <= text.len(),
    ensures
        spans_in_order(text, is_color, spans_from(text, is_color, pos, word), word),
    decreases text.len() - pos,
{
    let spans = spans_from(text, is_color, pos, word);
    if pos < text.len() {
        if text[pos] == '#' {
            let end = hex_end(text, pos);
            lemma_hex_end(text, pos);
            if is_color(text.subrange(pos, end)) {
                let rest = spans_from(text, is_color, end, end);
                lemma_spans_in_order(text, is_color, end, end);
                assert(text.subrange(pos, end)[0] == '#');
                lemma_prepend_in_order(text, is_color, Span { start: pos, end }, rest, word);
            } else {
                lemma_spans_in_order(text, is_color, pos + 1, pos + 1);
            }
        } else if word_char(text[pos]) {
            let t = text.subrange(word, pos + 1);
            if is_function_prefix(t) {
                let end = call_end(text, pos);
                lemma_function_prefix(t);
                assert(t.last() == text[pos]);
                lemma_call_end(text, pos);
                if is_color(text.subrange(word, end)) {
                    let rest = spans_from(text, is_color, end, end);
                    lemma_spans_in_order(text, is_color, end, end);
                    assert forall|i: int| word <= i < end implies #[trigger] text[i] != '\n' by {
                        if i < pos {
                            assert(t[i - word] == text[i]);
                        }
                    }
                    let m = text.subrange(word, end);
                    assert(m.subrange(0, pos + 1 - word) =~= t);
                    lemma_prepend_in_order(text, is_color, Span { start: word, end }, rest, word);
                } else {
                    lemma_spans_in_order(text, is_color, pos + 1, pos + 1);
                }
            } else {
                lemma_spans_in_order(text, is_color, pos + 1, word);
            }
        } else {
            lemma_spans_in_order(text, is_color, pos + 1, pos + 1);
        }
    }
}

proof fn lemma_prepend_in_order(
    text: Seq<char>,
    is_color: spec_fn(Seq<char>) -> bool,
    head: Span,
    rest: Seq<Span>,
    word: int,
)
    requires
        word <= head.start < head.end <= text.len(),
        is_color(text.subrange(head.start, head.end)),
        starts_as_candidate(text.subrange(head.start, head.end)),
        forall|i: int| head.start <= i < head.end ==> #[trigger] text[i] != '\n',
        spans_in_order(text, is_color, rest, head.end),
    ensures
        spans_in_order(text, is_color, seq![head] + rest, word),
{
    let spans = seq![head] + rest;
    assert forall|k: int| 0 <= k < spans.len() implies {
        &&& word <= (#[trigger] spans[k]).start < spans[k].end <= text.len()
        &&& is_color(text.subrange(spans[k].start, spans[k].end))
        &&& starts_as_candidate(text.subrange(spans[k].start, spans[k].end))
        &&& forall|i: int| spans[k].start <= i < spans[k].end ==> #[trigger] text[i] != '\n'
    } by {
        if k > 0 {
            assert(spans[k] == rest[k - 1]);
        }
    }
    assert forall|i: int, j: int| 0 <= i < j < spans.len() implies (#[trigger] spans[i]).end <= (
    #[trigger] spans[j]).start by {
        assert(spans[j] == rest[j - 1]);
        if i > 0 {
            assert(spans[i] == rest[i - 1]);
        }
    }
}

/// Every match is a color: a literal is reported only where its text
/// resolves. It starts with `#` or with the name of a color function and
/// its bracket, and lines and columns count from 1.
pub proof fn every_match_is_a_color(
    text: Seq<char>,
    is_color: spec_fn(Seq<char>) -> bool,
    k: int,
)
    requires
        0 <= k < scan(text, is_color).len(),
    ensures
        is_color(scan(text, is_color)[k].matched),
        starts_as_candidate(scan(text, is_color)[k].matched),
        scan(text, is_color)[k].matched.len() > 0,
        scan(text, is_color)[k].loc.0 >= 1,
        scan(text, is_color)[k].loc.1 >= 1,
{
    let spans = spans_from(text, is_color, 0, 0);
    lemma_spans_in_order(text, is_color, 0, 0);
    let s = spans[k];
    assert(scan(text, is_color)[k] == located(text, s.start, s.end));
    lemma_line_bounds(text, s.start);
}

/// No two matches overlap, and matches come in the order of the text: of
/// two matches the later one stands on a later line, or on the same line at
/// or behind the column where the earlier one ends.
pub proof fn matches_do_not_overlap(
    text: Seq<char>,
    is_color: spec_fn(Seq<char>) -> bool,
    i: int,
    j: int,
)
    requires
        0 <= i < j < scan(text, is_color).len(),
    ensures
        ({
            let a = scan(text, is_color)[i];
            let b = scan(text, is_color)[j];
            a.loc.0 < b.loc.0 || (a.loc.0 == b.loc.0 && a.loc.1 + a.matched.len() <= b.loc.1)
        }),
{
    let spans = spans_from(text, is_color, 0, 0);
    lemma_spans_in_order(text, is_color, 0, 0);
    let a = spans[i];
    let b = spans[j];
    assert(scan(text, is_color)[i] == located(text, a.start, a.end));
    assert(scan(text, is_color)[j] == located(text, b.start, b.end));
    assert(a.end <= b.start);
    lemma_same_line(text, a.start, a.end);
    lemma_positions_ordered(text, a.end, b.start);
}

/// A place where a candidate could start: a `#`, or the name of a color
/// function with its opening bracket.
pub open spec fn has_candidate(text: Seq<char>) -> bool {
    ||| exists|i: int| 0 <= i < text.len() && #[trigger] text[i] == '#'
    ||| exists|i: int, j: int|
        0 <= i <= j <= text.len() && is_function_prefix(#[trigger] text.subrange(i, j))
}

proof fn lemma_no_candidate_no_span(
    text: Seq<char>,
    is_color: spec_fn(Seq<char>) -> bool,
    pos: int,
    word: int,
)
    requires
        !has_candidate(text),
        0 <= word <= pos <= text.len(),
    ensures
        spans_from(text, is_color, pos, word) == Seq::<Span>::empty(),
    decreases text.len() - pos,
{
    if pos < text.len() {
        assert(text[pos] != '#');
        if word_char(text[pos]) {
            assert(!is_function_prefix(text.subrange(word, pos + 1)));
            lemma_no_candidate_no_span(text, is_color, pos + 1, word);
        } else {
            lemma_no_candidate_no_span(text, is_color, pos + 1, pos + 1);
        }
    }
}

/// A text that holds no `#` and no name of a color function with its
/// bracket has no match, whatever resolves to a color.
pub proof fn text_without_candidates_has_no_match(
    text: Seq<char>,
    is_color: spec_fn(Seq<char>) -> bool,
)
    requires
        !has_candidate(text),
    ensures
        scan(text, is_color) == Seq::<Place>::empty(),
{
    lemma_no_candidate_no_span(text, is_color, 0, 0);
    assert(scan(text, is_color) =~= Seq::empty());
}

/// A text that is one hexadecimal literal and resolves to a color has
/// exactly one match: the whole text, at line 1 and column 1.
pub proof fn hex_literal_is_one_match(
    text: Seq<char>,
    is_color: spec_fn(Seq<char>) -> bool,
)
    requires
        is_hex_literal(text),
        is_color(text),
    ensures
        scan(text, is_color) == seq![Place { matched: text, loc: (1, 1) }],
{
    let len = text.len() as int;
    lemma_hex_literal_end(text);
    assert(text.subrange(0, len) =~= text);
    assert(spans_from(text, is_color, len, len) == Seq::<Span>::empty());
    assert(spans_from(text, is_color, 0, 0) =~= seq![Span { start: 0, end: len }]);
    assert(scan(text, is_color) =~= seq![located(text, 0, len)]);
}

/// A call of a color function: the name of the function in lower case
/// with its opening bracket, then arguments on one line, then the only `)`.
pub open spec fn is_function_call(text: Seq<char>) -> bool {
    &&& exists|n: int| 0 <= n <= text.len() && is_function_prefix(#[trigger] text.subrange(0, n))
    &&& text.last() == ')'
    &&& forall|i: int| 0 <= i < text.len() - 1 ==> #[trigger] text[i] != ')' && text[i] != '\n'
}

proof fn lemma_word_grows(
    text: Seq<char>,
    is_color: spec_fn(Seq<char>) -> bool,
    pos: int,
    n: int,
)
    requires
        0 <= pos < n <= text.len(),
        is_function_prefix(text.subrange(0, n)),
    ensures
        spans_from(text, is_color, pos, 0) == spans_from(text, is_color, n - 1, 0),
    decreases n - pos,
{
    let prefix = text.subrange(0, n);
    lemma_function_prefix(prefix);
    if pos < n - 1 {
        assert(prefix[pos] == text[pos]);
        let t = text.subrange(0, pos + 1);
        if is_function_prefix(t) {
            lemma_function_prefix(t);
            assert(t.last() == text[pos]);
        }
        lemma_word_grows(text, is_color, pos + 1, n);
    }
}

/// A text that is one call of a color function and resolves to a color has
/// exactly one match: the whole text, at line 1 and column 1.
pub proof fn function_call_is_one_match(
    text: Seq<char>,
    is_color: spec_fn(Seq<char>) -> bool,
)
    requires
        is_function_call(text),
        is_color(text),
    ensures
        scan(text, is_color) == seq![Place { matched: text, loc: (1, 1) }],
{
    let len = text.len() as int;
    let n = choose|n: int| 0 <= n <= text.len() && is_function_prefix(#[trigger] text.subrange(0, n));
    let prefix = text.subrange(0, n);
    lemma_function_prefix(prefix);
    assert(prefix.last() == text[n - 1]);
    lemma_word_grows(text, is_color, 0, n);
    lemma_first_index_is(text, |c: char| c == ')' || c == '\n', n - 1, len, len - 1);
    assert(call_end(text, n - 1) == len);
    assert(text.subrange(0, len) =~= text);
    assert(spans_from(text, is_color, len, len) == Seq::<Span>::empty());
    assert(spans_from(text, is_color, n - 1, 0) =~= seq![Span { start: 0, end: len }]);
    assert(scan(text, is_color) =~= seq![located(text, 0, len)]);
}

/// Two scans of one text agree. They find the same literals at the same
/// places, and each literal has the same color in both: always where the
/// fractional dialect reads it or it is a hexadecimal literal, and for any
/// other exact text unless a channel is not a number. What is left are the
/// calls of `lab`, `lch`, `oklab` and `oklch`, whose colors take powers,
/// roots, sines and cosines.
pub proof fn two_scans_agree<N: Fn(&str) -> Option<u32>, H: Fn(u32, u32, u32, u32) -> ColorValue>(
    text: Seq<char>,
    number: N,
    hsl: H,
    first: Seq<ColorNode>,
    second: Seq<ColorNode>,
    k: int,
)
    requires
        places(first) == scan(text, acceptance(number, hsl)),
        places(second) == scan(text, acceptance(number, hsl)),
        colors_resolved(first, number, hsl),
        colors_resolved(second, number, hsl),
        0 <= k < first.len(),
    ensures
        first.len() == second.len(),
        first[k].matched@ == second[k].matched@,
        first[k].loc == second[k].loc,
        fractional_color(first[k].matched@, number, hsl) is Ok || is_hex_literal(
            trimmed(first[k].matched@),
        ) || (is_exact(first[k].matched@) && !first[k].color.has_nan()
            && !second[k].color.has_nan()) ==> first[k].color == second[k].color,
{
    assert(places(first).len() == first.len());
    assert(places(second).len() == second.len());
    assert(places(first)[k] == first[k].place());
    assert(places(second)[k] == second[k].place());
}

} // verus!
