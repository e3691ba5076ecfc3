use crate::color::{hex_color, is_hex_digit, is_hex_literal, ColorError, ColorValue};
use crate::fractional::{is_converter, is_reader, witnessed};
use crate::laws::hex_literal_is_one_match;
use crate::resolve::{is_resolution, resolve_error, try_parse_color};
use crate::text::{first_index, lemma_first_index, lemma_first_index_is, to_chars};
use vstd::prelude::*;

verus! {

/// One color literal found in a text.
#[derive(Debug, PartialEq, Eq)]
pub struct ColorNode {
    pub color: ColorValue,
    pub matched: String,
    /// Line, Column (1-based) of the node in the text.
    pub loc: (usize, usize),
}

/// Where a literal stands and what it reads: its text, and the 1-based
/// line and column of its first character.
pub struct Place {
    pub matched: Seq<char>,
    pub loc: (int, int),
}

impl Clone for ColorNode {
    fn clone(&self) -> (r: Self)
        ensures
            r == *self,
    {
        ColorNode {
            color: self.color,
            matched: self.matched.clone(),
            loc: (self.loc.0, self.loc.1),
        }
    }
}

/// The low 32 bits of a number that is not negative.
pub open spec fn low32(n: int) -> int {
    n % 0x1_0000_0000
}

impl ColorNode {
    /// The text and the location of the node.
    pub open spec fn place(&self) -> Place {
        Place { matched: self.matched@, loc: (self.loc.0 as int, self.loc.1 as int) }
    }

    /// A node for the literal `matched` at a 1-based line and column.
    pub fn new(matched: &str, color: ColorValue, line: usize, col: usize) -> (r: Self)
        ensures
            r.color == color,
            r.matched@ == matched@,
            r.loc == (line, col),
    {
        ColorNode { color, matched: matched.to_owned(), loc: (line, col) }
    }

    /// The place of the literal as an editor counts: the line, the column of
    /// its first character and the column behind its last, each from 0 and
    /// in characters, each cut to its low 32 bits. A line or column of 0
    /// counts as 1.
    pub fn range(&self) -> (r: (u32, u32, u32))
        ensures
            r.0 == low32(
                if self.loc.0 == 0 {
                    0
                } else {
                    self.loc.0 - 1
                },
            ),
            r.1 == low32(
                if self.loc.1 == 0 {
                    0
                } else {
                    self.loc.1 - 1
                },
            ),
            r.2 == low32(
                if self.loc.1 == 0 {
                    0
                } else {
                    self.loc.1 - 1
                } + self.matched@.len(),
            ),
    {
        let line: usize = if self.loc.0 == 0 {
            0
        } else {
            self.loc.0 - 1
        };
        let start: usize = if self.loc.1 == 0 {
            0
        } else {
            self.loc.1 - 1
        };
        let len: usize = self.matched.as_str().unicode_len();
        let line32: u32 = cut32(line);
        let start32: u32 = cut32(start);
        let len32: u32 = cut32(len);
        let end32: u32 = start32.wrapping_add(len32);
        proof {
            let a = start as int;
            let b = len as int;
            assert((a % 0x1_0000_0000 + b % 0x1_0000_0000) % 0x1_0000_0000 == (a + b)
                % 0x1_0000_0000) by (nonlinear_arith)
                requires
                    a >= 0,
                    b >= 0,
            ;
        }
        (line32, start32, end32)
    }
}

/// The low 32 bits of `n`.
fn cut32(n: usize) -> (r: u32)
    ensures
        r == low32(n as int),
{
    let wide: u64 = n as u64;
    #[verifier::truncate]
    let r: u32 = wide as u32;
    assert(r == wide % 0x1_0000_0000u64) by (bit_vector)
        requires
            r == wide as u32,
    ;
    r
}

/// The text and the location of each node.
pub open spec fn places(nodes: Seq<ColorNode>) -> Seq<Place> {
    nodes.map_values(|n: ColorNode| n.place())
}

/// A character that may stand in a hexadecimal candidate: `#` or a
/// hexadecimal digit.
pub open spec fn hex_char(c: char) -> bool {
    c == '#' || ('a' <= c && c <= 'f') || ('A' <= c && c <= 'F') || ('0' <= c && c <= '9')
}

/// A character that extends a word: an ASCII letter or `(`.
pub open spec fn word_char(c: char) -> bool {
    ('a' <= c && c <= 'z') || ('A' <= c && c <= 'Z') || c == '('
}

/// The name of a color function in lower case, with its opening bracket.
pub open spec fn is_function_prefix(t: Seq<char>) -> bool {
    ||| t == seq!['h', 's', 'l', '(']
    ||| t == seq!['h', 's', 'l', 'a', '(']
    ||| t == seq!['r', 'g', 'b', '(']
    ||| t == seq!['r', 'g', 'b', 'a', '(']
    ||| t == seq!['h', 'w', 'b', '(']
    ||| t == seq!['h', 'w', 'b', 'a', '(']
    ||| t == seq!['o', 'k', 'l', 'a', 'b', '(']
    ||| t == seq!['o', 'k', 'l', 'c', 'h', '(']
    ||| t == seq!['l', 'a', 'b', '(']
    ||| t == seq!['l', 'c', 'h', '(']
    ||| t == seq!['h', 's', 'v', '(']
}

/// Where the hexadecimal candidate that starts at `pos` ends: after at most
/// nine characters, or before the first that is neither `#` nor a
/// hexadecimal digit.
pub open spec fn hex_end(s: Seq<char>, pos: int) -> int {
    first_index(
        s,
        |c: char| !hex_char(c),
        pos,
        if pos + 9 < s.len() {
            pos + 9
        } else {
            s.len() as int
        },
    )
}

/// Where the functional candidate whose `(` stands at `pos` ends: just
/// after the next `)` on the line, or at the end of the line if it has
/// none.
pub open spec fn call_end(s: Seq<char>, pos: int) -> int {
    let stop = first_index(s, |c: char| c == ')' || c == '\n', pos, s.len() as int);
    if stop < s.len() && s[stop] == ')' {
        stop + 1
    } else {
        stop
    }
}

/// The number of line feeds before `pos`.
pub open spec fn newlines(s: Seq<char>, pos: int) -> int
    decreases pos,
{
    if pos <= 0 || pos > s.len() {
        0
    } else if s[pos - 1] == '\n' {
        newlines(s, pos - 1) + 1
    } else {
        newlines(s, pos - 1)
    }
}

/// Where the line that holds `pos` starts.
pub open spec fn line_start(s: Seq<char>, pos: int) -> int
    decreases pos,
{
    if 0 < pos <= s.len() && s[pos - 1] != '\n' {
        line_start(s, pos - 1)
    } else {
        pos
    }
}

/// The literal `text[start..end]` with the 1-based line and column of its
/// first character, the column counted in characters.
pub open spec fn located(text: Seq<char>, start: int, end: int) -> Place {
    Place {
        matched: text.subrange(start, end),
        loc: (newlines(text, start) + 1, start - line_start(text, start) + 1),
    }
}

/// A literal by its indices in the text: it is `text[start..end]`.
pub struct Span {
    pub start: int,
    pub end: int,
}

/// The literals found from `pos` on, where the word gathered so far is
/// `text[word..pos]` and `is_color` says which candidates are colors.
///
/// At `#` the candidate is the hexadecimal run from there. At a letter or
/// `(` the word grows, and once it is the name of a color function with its
/// bracket the candidate reaches from the start of the word to the end of
/// the call. A candidate that is a color is reported and the scan goes on
/// behind it; one that is not is dropped, and the scan goes on behind the
/// `#` or `(` with an empty word. Any other character empties the word.
pub open spec fn spans_from(
    text: Seq<char>,
    is_color: spec_fn(Seq<char>) -> bool,
    pos: int,
    word: int,
) -> Seq<Span>
    decreases text.len() - pos,
    via spans_from_decreases
{
    if word < 0 || pos < word || pos >= text.len() {
        Seq::empty()
    } else if text[pos] == '#' {
        let end = hex_end(text, pos);
        if is_color(text.subrange(pos, end)) {
            seq![Span { start: pos, end }] + spans_from(text, is_color, end, end)
        } else {
            spans_from(text, is_color, pos + 1, pos + 1)
        }
    } else if word_char(text[pos]) {
        if is_function_prefix(text.subrange(word, pos + 1)) {
            let end = call_end(text, pos);
            if is_color(text.subrange(word, end)) {
                seq![Span { start: word, end }] + spans_from(text, is_color, end, end)
            } else {
                spans_from(text, is_color, pos + 1, pos + 1)
            }
        } else {
            spans_from(text, is_color, pos + 1, word)
        }
    } else {
        spans_from(text, is_color, pos + 1, pos + 1)
    }
}

/// The text of each span with its line and column.
pub open spec fn places_of(text: Seq<char>, spans: Seq<Span>) -> Seq<Place> {
    spans.map_values(|s: Span| located(text, s.start, s.end))
}

/// The color literals of a text, in the order in which they stand in it.
pub open spec fn scan(text: Seq<char>, is_color: spec_fn(Seq<char>) -> bool) -> Seq<Place> {
    places_of(text, spans_from(text, is_color, 0, 0))
}

/// The decision that `parse` takes on each candidate: is it a color under
/// either dialect.
pub open spec fn acceptance<N: Fn(&str) -> Option<u32>, H: Fn(u32, u32, u32, u32) -> ColorValue>(
    number: N,
    hsl: H,
) -> spec_fn(Seq<char>) -> bool {
    |s: Seq<char>| resolve_error(s, number, hsl) is None
}

/// The color of every node is what resolving its text gives: the color of
/// the fractional dialect where it has one, else that of the
/// standard-domain grammar.
pub open spec fn colors_resolved<
    N: Fn(&str) -> Option<u32>,
    H: Fn(u32, u32, u32, u32) -> ColorValue,
>(nodes: Seq<ColorNode>, number: N, hsl: H) -> bool {
    forall|k: int|
        0 <= k < nodes.len() ==> is_resolution(
            (#[trigger] nodes[k]).matched@,
            number,
            hsl,
            Ok(nodes[k].color),
        ) && witnessed(nodes[k].matched@, number, hsl)
}

/// One more node found: the scan goes on behind it.
proof fn lemma_node_found(
    text: Seq<char>,
    is_color: spec_fn(Seq<char>) -> bool,
    found: Seq<ColorNode>,
    node: ColorNode,
    begin: int,
    end: int,
    pos: int,
    word: int,
)
    requires
        spans_from(text, is_color, pos, word) == seq![Span { start: begin, end }] + spans_from(
            text,
            is_color,
            end,
            end,
        ),
        node.place() == located(text, begin, end),
        places(found) + places_of(text, spans_from(text, is_color, pos, word)) == scan(
            text,
            is_color,
        ),
    ensures
        places(found.push(node)) + places_of(text, spans_from(text, is_color, end, end)) == scan(
            text,
            is_color,
        ),
{
    assert(places(found.push(node)) =~= places(found) + seq![node.place()]);
    assert(places(found.push(node)) + places_of(text, spans_from(text, is_color, end, end))
        =~= places(found) + places_of(text, spans_from(text, is_color, pos, word)));
}

/// The hexadecimal candidate at a `#` is not empty.
pub proof fn lemma_hex_end(s: Seq<char>, pos: int)
    requires
        0 <= pos < s.len(),
        s[pos] == '#',
    ensures
        pos < hex_end(s, pos) <= s.len(),
        hex_end(s, pos) <= pos + 9,
        forall|i: int| pos <= i < hex_end(s, pos) ==> hex_char(#[trigger] s[i]),
{
    let to = if pos + 9 < s.len() {
        pos + 9
    } else {
        s.len() as int
    };
    lemma_first_index(s, |c: char| !hex_char(c), pos, to);
    lemma_first_index(s, |c: char| !hex_char(c), pos + 1, to);
}

/// The hexadecimal candidate at the start of a hexadecimal literal is the
/// whole literal.
pub proof fn lemma_hex_literal_end(text: Seq<char>)
    requires
        is_hex_literal(text),
    ensures
        hex_end(text, 0) == text.len(),
{
    let len = text.len() as int;
    assert forall|i: int| 0 <= i < len implies hex_char(#[trigger] text[i]) by {
        if i > 0 {
            assert(is_hex_digit(text[i]));
        }
    }
    lemma_first_index_is(text, |c: char| !hex_char(c), 0, len, len);
}

/// The functional candidate reaches beyond its `(` and holds no line feed.
pub proof fn lemma_call_end(s: Seq<char>, pos: int)
    requires
        0 <= pos < s.len(),
        s[pos] == '(',
    ensures
        pos < call_end(s, pos) <= s.len(),
        forall|i: int| pos <= i < call_end(s, pos) ==> #[trigger] s[i] != '\n',
{
    lemma_first_index(s, |c: char| c == ')' || c == '\n', pos, s.len() as int);
    lemma_first_index(s, |c: char| c == ')' || c == '\n', pos + 1, s.len() as int);
}

/// A function prefix ends with `(`, and letters stand before it.
pub proof fn lemma_function_prefix(t: Seq<char>)
    requires
        is_function_prefix(t),
    ensures
        4 <= t.len() <= 6,
        t.last() == '(',
        forall|i: int| 0 <= i < t.len() - 1 ==> 'a' <= #[trigger] t[i] <= 'z',
{
}

#[via_fn]
proof fn spans_from_decreases(
    text: Seq<char>,
    is_color: spec_fn(Seq<char>) -> bool,
    pos: int,
    word: int,
) {
    if !(word < 0 || pos < word || pos >= text.len()) {
        if text[pos] == '#' {
            lemma_hex_end(text, pos);
        } else if word_char(text[pos]) {
            let t = text.subrange(word, pos + 1);
            if is_function_prefix(t) {
                lemma_function_prefix(t);
                assert(t.last() == text[pos]);
                lemma_call_end(text, pos);
            }
        }
    }
}

/// Whether a character may stand in a hexadecimal candidate.
pub fn is_hex_char(c: &char) -> (r: bool)
    ensures
        r == hex_char(*c),
{
    let c: char = *c;
    c == '#' || ('a' <= c && c <= 'f') || ('A' <= c && c <= 'F') || ('0' <= c && c <= '9')
}

/// Between two positions with no line feed from the first up to the
/// second, the line and its start stay the same.
pub proof fn lemma_same_line(s: Seq<char>, from: int, to: int)
    requires
        0 <= from <= to <= s.len(),
        forall|i: int| from <= i < to ==> #[trigger] s[i] != '\n',
    ensures
        newlines(s, to) == newlines(s, from),
        line_start(s, to) == line_start(s, from),
    decreases to - from,
{
    if from < to {
        assert(s[to - 1] != '\n');
        lemma_same_line(s, from, to - 1);
    }
}

fn hex_end_in(cs: &Vec<char>, pos: usize) -> (r: usize)
    requires
        pos < cs@.len(),
        cs@[pos as int] == '#',
    ensures
        r == hex_end(cs@, pos as int),
        pos < r <= cs@.len(),
{
    proof {
        lemma_hex_end(cs@, pos as int);
    }
    let to: usize = if cs.len() - pos > 9 {
        pos + 9
    } else {
        cs.len()
    };
    let mut i: usize = pos;
    while i < to && is_hex_char(&cs[i])
        invariant
            pos <= i <= to <= cs@.len(),
            hex_end(cs@, pos as int) == first_index(
                cs@,
                |c: char| !hex_char(c),
                i as int,
                to as int,
            ),
        decreases to - i,
    {
        i += 1;
    }
    i
}

fn call_end_in(cs: &Vec<char>, pos: usize) -> (r: usize)
    requires
        pos < cs@.len(),
        cs@[pos as int] == '(',
    ensures
        r == call_end(cs@, pos as int),
        pos < r <= cs@.len(),
{
    proof {
        lemma_call_end(cs@, pos as int);
    }
    let mut i: usize = pos;
    while i < cs.len() && cs[i] != ')' && cs[i] != '\n'
        invariant
            pos <= i <= cs@.len(),
            first_index(cs@, |c: char| c == ')' || c == '\n', pos as int, cs@.len() as int)
                == first_index(cs@, |c: char| c == ')' || c == '\n', i as int, cs@.len() as int),
        decreases cs@.len() - i,
    {
        i += 1;
    }
    if i < cs.len() && cs[i] == ')' {
        i + 1
    } else {
        i
    }
}

/// Whether the three letters before the `(` at `at` are `a`, `b`, `c`.
fn spells3(cs: &Vec<char>, at: usize, a: char, b: char, c: char) -> (r: bool)
    requires
        3 <= at < cs@.len(),
        cs@[at as int] == '(',
    ensures
        r == (cs@.subrange(at - 3, at + 1) == seq![a, b, c, '(']),
{
    let r = cs[at - 3] == a && cs[at - 2] == b && cs[at - 1] == c;
    proof {
        let t = cs@.subrange(at - 3, at + 1);
        let w = seq![a, b, c, '('];
        if r {
            assert(t =~= w);
        } else {
            assert(t[0] == cs@[at - 3] && t[1] == cs@[at - 2] && t[2] == cs@[at - 1]);
            assert(w[0] == a && w[1] == b && w[2] == c);
        }
    }
    r
}

/// Whether the four letters before the `(` at `at` are `a`, `b`, `c`, `d`.
fn spells4(cs: &Vec<char>, at: usize, a: char, b: char, c: char, d: char) -> (r: bool)
    requires
        4 <= at < cs@.len(),
        cs@[at as int] == '(',
    ensures
        r == (cs@.subrange(at - 4, at + 1) == seq![a, b, c, d, '(']),
{
    let r = cs[at - 4] == a && cs[at - 3] == b && cs[at - 2] == c && cs[at - 1] == d;
    proof {
        let t = cs@.subrange(at - 4, at + 1);
        let w = seq![a, b, c, d, '('];
        if r {
            assert(t =~= w);
        } else {
            assert(t[0] == cs@[at - 4] && t[1] == cs@[at - 3] && t[2] == cs@[at - 2] && t[3]
                == cs@[at - 1]);
            assert(w[0] == a && w[1] == b && w[2] == c && w[3] == d);
        }
    }
    r
}

/// Whether the five letters before the `(` at `at` are `a` to `e`.
fn spells5(cs: &Vec<char>, at: usize, a: char, b: char, c: char, d: char, e: char) -> (r: bool)
    requires
        5 <= at < cs@.len(),
        cs@[at as int] == '(',
    ensures
        r == (cs@.subrange(at - 5, at + 1) == seq![a, b, c, d, e, '(']),
{
    let r = cs[at - 5] == a && cs[at - 4] == b && cs[at - 3] == c && cs[at - 2] == d && cs[at
        - 1] == e;
    proof {
        let t = cs@.subrange(at - 5, at + 1);
        let w = seq![a, b, c, d, e, '('];
        if r {
            assert(t =~= w);
        } else {
            assert(t[0] == cs@[at - 5] && t[1] == cs@[at - 4] && t[2] == cs@[at - 3] && t[3]
                == cs@[at - 2] && t[4] == cs@[at - 1]);
            assert(w[0] == a && w[1] == b && w[2] == c && w[3] == d && w[4] == e);
        }
    }
    r
}

/// Whether the word `cs[word..=pos]` is the name of a color function with
/// its opening bracket.
fn is_prefix_in(cs: &Vec<char>, word: usize, pos: usize) -> (r: bool)
    requires
        word <= pos < cs@.len(),
    ensures
        r == is_function_prefix(cs@.subrange(word as int, pos + 1)),
{
    let ghost t = cs@.subrange(word as int, pos + 1);
    if cs[pos] != '(' {
        proof {
            if is_function_prefix(t) {
                lemma_function_prefix(t);
            }
        }
        return false;
    }
    let n: usize = pos - word;
    if n == 3 {
        spells3(cs, pos, 'h', 's', 'l') || spells3(cs, pos, 'r', 'g', 'b') || spells3(
            cs,
            pos,
            'h',
            'w',
            'b',
        ) || spells3(cs, pos, 'l', 'a', 'b') || spells3(cs, pos, 'l', 'c', 'h') || spells3(
            cs,
            pos,
            'h',
            's',
            'v',
        )
    } else if n == 4 {
        spells4(cs, pos, 'h', 's', 'l', 'a') || spells4(cs, pos, 'r', 'g', 'b', 'a') || spells4(
            cs,
            pos,
            'h',
            'w',
            'b',
            'a',
        )
    } else if n == 5 {
        spells5(cs, pos, 'o', 'k', 'l', 'a', 'b') || spells5(cs, pos, 'o', 'k', 'l', 'c', 'h')
    } else {
        proof {
            if is_function_prefix(t) {
                lemma_function_prefix(t);
            }
        }
        false
    }
}

/// Makes a node of `part` if resolving it gave a color. `line_ix` and
/// `offset` count from 0; the node's line and column count from 1.
pub fn node_for(
    part: &str,
    outcome: Result<ColorValue, ColorError>,
    line_ix: usize,
    offset: usize,
) -> (r: Option<ColorNode>)
    requires
        line_ix < usize::MAX,
        offset < usize::MAX,
    ensures
        match outcome {
            Ok(color) => r matches Some(node) && node.color == color && node.matched@ == part@
                && node.loc.0 == line_ix + 1 && node.loc.1 == offset + 1,
            Err(_) => r is None,
        },
{
    match outcome {
        Ok(color) => Some(ColorNode::new(part, color, line_ix + 1, offset + 1)),
        Err(_) => None,
    }
}

/// Makes a node of `part` if it resolves to a color. `line_ix` and
/// `offset` count from 0; the node's line and column count from 1. The
/// color is that of the fractional dialect where it gives one, else that
/// of the standard-domain grammar.
pub fn match_color<N: Fn(&str) -> Option<u32>, H: Fn(u32, u32, u32, u32) -> ColorValue>(
    part: &str,
    line_ix: usize,
    offset: usize,
    number: &N,
    hsl: &H,
) -> (r: Option<ColorNode>)
    requires
        is_reader(*number),
        is_converter(*hsl),
        line_ix < usize::MAX,
        offset < usize::MAX,
    ensures
        r is Some <==> resolve_error(part@, *number, *hsl) is None,
        r matches Some(node) ==> {
            &&& node.matched@ == part@
            &&& node.loc.0 == line_ix + 1
            &&& node.loc.1 == offset + 1
            &&& is_resolution(part@, *number, *hsl, Ok(node.color))
        },
        witnessed(part@, *number, *hsl),
        is_hex_literal(part@) ==> (r matches Some(node) && node.color == hex_color(part@)),
{
    node_for(part, try_parse_color(part, number, hsl), line_ix, offset)
}

/// Finds the color literals of a text. Each line is scanned from left to
/// right, and no literal reaches over a line feed. The nodes come in the
/// order of the text; a text without literals gives none. Which texts are
/// found and where is fixed by the text, and the color of each is what
/// resolving its text gives.
pub fn parse<N: Fn(&str) -> Option<u32>, H: Fn(u32, u32, u32, u32) -> ColorValue>(
    text: &str,
    number: &N,
    hsl: &H,
) -> (nodes: Vec<ColorNode>)
    requires
        is_reader(*number),
        is_converter(*hsl),
    ensures
        places(nodes@) == scan(text@, acceptance(*number, *hsl)),
        colors_resolved(nodes@, *number, *hsl),
        is_hex_literal(text@) ==> nodes@.len() == 1 && nodes@[0].matched@ == text@ && nodes@[0].loc
            == (1usize, 1usize) && nodes@[0].color == hex_color(text@),
{
    let cs = to_chars(text);
    let ghost is_color = acceptance(*number, *hsl);
    let mut nodes: Vec<ColorNode> = Vec::new();
    let mut pos: usize = 0;
    let mut word: usize = 0;
    let mut line: usize = 0;
    let mut start: usize = 0;
    proof {
        assert(places(nodes@) + places_of(text@, spans_from(text@, is_color, 0, 0)) =~= scan(
            text@,
            is_color,
        ));
    }
    while pos < cs.len()
        invariant
            cs@ == text@,
            is_reader(*number),
            is_converter(*hsl),
            is_color == acceptance(*number, *hsl),
            word <= pos <= cs@.len(),
            line == newlines(text@, pos as int),
            line == newlines(text@, word as int),
            start == line_start(text@, pos as int),
            start == line_start(text@, word as int),
            line <= word,
            start <= word,
            is_hex_literal(text@) && pos > 0 ==> is_color(text@) && nodes@.len() == 1
                && nodes@[0].color == hex_color(text@),
            colors_resolved(nodes@, *number, *hsl),
            places(nodes@) + places_of(
                text@,
                spans_from(text@, is_color, pos as int, word as int),
            ) == scan(text@, is_color),
        decreases cs@.len() - pos,
    {
        let c = cs[pos];
        let ghost found = nodes@;
        if c == '#' {
            let end = hex_end_in(&cs, pos);
            proof {
                lemma_hex_end(text@, pos as int);
                if is_hex_literal(text@) && pos == 0 {
                    lemma_hex_literal_end(text@);
                    assert(text@.subrange(0, end as int) =~= text@);
                }
            }
            match match_color(text.substring_char(pos, end), line, pos - start, number, hsl) {
                Some(node) => {
                    proof {
                        lemma_same_line(text@, pos as int, end as int);
                        lemma_node_found(
                            text@,
                            is_color,
                            found,
                            node,
                            pos as int,
                            end as int,
                            pos as int,
                            word as int,
                        );
                    }
                    nodes.push(node);
                    pos = end;
                    word = end;
                },
                None => {
                    pos += 1;
                    word = pos;
                },
            }
        } else if ('a' <= c && c <= 'z') || ('A' <= c && c <= 'Z') || c == '(' {
            if is_prefix_in(&cs, word, pos) {
                proof {
                    lemma_function_prefix(text@.subrange(word as int, pos + 1));
                    assert(text@.subrange(word as int, pos + 1).last() == text@[pos as int]);
                    lemma_call_end(text@, pos as int);
                }
                let end = call_end_in(&cs, pos);
                match match_color(text.substring_char(word, end), line, word - start, number, hsl) {
                    Some(node) => {
                        proof {
                            lemma_same_line(text@, pos as int, end as int);
                            lemma_node_found(
                                text@,
                                is_color,
                                found,
                                node,
                                word as int,
                                end as int,
                                pos as int,
                                word as int,
                            );
                        }
                        nodes.push(node);
                        pos = end;
                        word = end;
                    },
                    None => {
                        pos += 1;
                        word = pos;
                    },
                }
            } else {
                pos += 1;
            }
        } else {
            pos += 1;
            word = pos;
            if c == '\n' {
                line += 1;
                start = pos;
            }
        }
    }
    proof {
        assert(places(nodes@) + places_of(
            text@,
            spans_from(text@, is_color, pos as int, word as int),
        ) =~= places(nodes@));
        if is_hex_literal(text@) {
            hex_literal_is_one_match(text@, is_color);
            assert(places(nodes@)[0] == nodes@[0].place());
        }
    }
    nodes
}

} // verus!
