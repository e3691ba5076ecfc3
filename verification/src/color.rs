use crate::text::{
    call_name, find_char_in, has_call_shape, is_word, lemma_word3, lemma_word4, lemma_word5,
    letter_is, open_bracket, skip_whitespace_back_in, skip_whitespace_in, to_chars, trim_end,
    trim_start, trimmed,
};
use vstd::prelude::*;

verus! {

/// Why a text is not a color.
#[derive(Clone, Copy, Debug, PartialEq, Eq, Structural)]
pub enum ColorError {
    /// A `#` form whose digits are not 3, 4, 6 or 8 hexadecimal digits.
    InvalidHex,
    /// A known function name with arguments that do not fit it.
    InvalidFunction,
    /// Neither a known function nor any other known form.
    InvalidUnknown,
}

/// A color as four channels, each the bit pattern of an IEEE-754
/// single-precision number that is conventionally within 0 and 1.
#[derive(Clone, Copy, Debug, PartialEq, Eq, Structural)]
pub struct ColorValue {
    pub r: u32,
    pub g: u32,
    pub b: u32,
    pub a: u32,
}

/// The bits of 1.0.
pub const ONE: u32 = 0x3f80_0000u32;

/// A bit pattern with all exponent bits set and a non-zero fraction.
pub open spec fn is_nan_bits(bits: u32) -> bool {
    (bits & 0x7fff_ffffu32) > 0x7f80_0000u32
}

impl ColorValue {
    /// Some channel is not a number.
    pub open spec fn has_nan(self) -> bool {
        is_nan_bits(self.r) || is_nan_bits(self.g) || is_nan_bits(self.b) || is_nan_bits(self.a)
    }
}

/// The error of an outcome, if it is one.
pub open spec fn error_of(r: Result<ColorValue, ColorError>) -> Option<ColorError> {
    match r {
        Ok(_) => None,
        Err(e) => Some(e),
    }
}

/// A hexadecimal digit in either case.
pub open spec fn is_hex_digit(c: char) -> bool {
    ('0' <= c && c <= '9') || ('a' <= c && c <= 'f') || ('A' <= c && c <= 'F')
}

/// `#` followed by exactly 3, 4, 6 or 8 hexadecimal digits.
pub open spec fn is_hex_literal(s: Seq<char>) -> bool {
    &&& (s.len() == 4 || s.len() == 5 || s.len() == 7 || s.len() == 9)
    &&& s[0] == '#'
    &&& forall|i: int| 1 <= i < s.len() ==> is_hex_digit(#[trigger] s[i])
}

/// The value of a hexadecimal digit.
pub open spec fn hex_value(c: char) -> int {
    if '0' <= c && c <= '9' {
        c as int - '0' as int
    } else if 'a' <= c && c <= 'f' {
        c as int - 'a' as int + 10
    } else {
        c as int - 'A' as int + 10
    }
}

/// The byte of channel `k` of a hexadecimal literal, where red is channel
/// 0 and alpha is channel 3. In a literal of 3 or 4 digits a digit stands
/// for the byte of that digit twice; in one of 6 or 8 digits two digits
/// make a byte.
pub open spec fn hex_byte(t: Seq<char>, k: int) -> u8 {
    if t.len() <= 5 {
        (17 * hex_value(t[1 + k])) as u8
    } else {
        (16 * hex_value(t[1 + 2 * k]) + hex_value(t[2 + 2 * k])) as u8
    }
}

/// The literal has digits for alpha: it has 4 or 8 digits.
pub open spec fn has_alpha_digits(t: Seq<char>) -> bool {
    t.len() == 5 || t.len() == 9
}

/// The bits of the channel that a byte gives: the byte over 255, as
/// `csscolorparser::Color::from_rgba8` computes it for each of its bytes.
pub uninterp spec fn byte_channel(b: u8) -> u32;

/// The color of a hexadecimal literal: each channel is its byte over 255,
/// and a literal without alpha digits is opaque.
pub open spec fn hex_color(t: Seq<char>) -> ColorValue {
    ColorValue {
        r: byte_channel(hex_byte(t, 0)),
        g: byte_channel(hex_byte(t, 1)),
        b: byte_channel(hex_byte(t, 2)),
        a: if has_alpha_digits(t) {
            byte_channel(hex_byte(t, 3))
        } else {
            ONE
        },
    }
}

/// The trimmed text starts with `#`.
pub open spec fn has_hex_shape(s: Seq<char>) -> bool {
    trim_start(s) < trim_end(s) && s[trim_start(s)] == '#'
}

/// The text is a call: it does not start with `#`, and it is a name with
/// arguments in brackets.
pub open spec fn is_call(s: Seq<char>) -> bool {
    !has_hex_shape(s) && has_call_shape(s)
}

/// Every character between the first `(` and the end of the trimmed text
/// is ASCII.
pub open spec fn arguments_are_ascii(s: Seq<char>) -> bool {
    forall|i: int| open_bracket(s) < i < trim_end(s) ==> #[trigger] s[i] <= '\u{7f}'
}

/// A function whose color comes of `+ - * / %`, comparison and clamping
/// alone, in any mix of upper and lower case.
pub open spec fn is_exact_function(name: Seq<char>) -> bool {
    ||| is_word(name, seq!['r', 'g', 'b'])
    ||| is_word(name, seq!['r', 'g', 'b', 'a'])
    ||| is_word(name, seq!['h', 's', 'l'])
    ||| is_word(name, seq!['h', 's', 'l', 'a'])
    ||| is_word(name, seq!['h', 'w', 'b'])
    ||| is_word(name, seq!['h', 'w', 'b', 'a'])
    ||| is_word(name, seq!['h', 's', 'v'])
    ||| is_word(name, seq!['h', 's', 'v', 'a'])
}

/// A function of the standard-domain grammar, in any mix of upper and
/// lower case.
pub open spec fn is_color_function(name: Seq<char>) -> bool {
    ||| is_exact_function(name)
    ||| is_word(name, seq!['l', 'a', 'b'])
    ||| is_word(name, seq!['l', 'c', 'h'])
    ||| is_word(name, seq!['o', 'k', 'l', 'a', 'b'])
    ||| is_word(name, seq!['o', 'k', 'l', 'c', 'h'])
}

/// The texts that the wrapped parser takes: a call has ASCII arguments.
pub open spec fn is_sliceable(s: Seq<char>) -> bool {
    is_call(s) ==> arguments_are_ascii(s)
}

/// The texts whose color is the same on every machine: all but the calls
/// of `lab`, `lch`, `oklab` and `oklch`, whose conversions take powers,
/// roots, sines and cosines.
pub open spec fn is_exact(s: Seq<char>) -> bool {
    is_call(s) ==> is_exact_function(call_name(s))
}

/// What `csscolorparser::parse` makes of a text.
pub uninterp spec fn css_outcome(s: Seq<char>) -> Result<ColorValue, ColorError>;

/// Calls `csscolorparser::parse`, which slices the arguments of a call by
/// bytes and so must not be given a call with a character of several bytes
/// among them.
///
/// Whether the parser accepts the text, and with which error it does not,
/// depends on the text alone; every error but `InvalidHex` and
/// `InvalidUnknown` reports arguments that do not fit a function. The color
/// comes back as the bits of its four channels. It depends on the text
/// alone where the text is exact and no channel is not a number: the
/// parser then computes it with `+ - * / %`, comparison and clamping. A `#`
/// with 3, 4, 6 or 8 hexadecimal digits, with white space around it or
/// not, is accepted: a single digit stands for the byte of that digit
/// twice, each channel is its byte over 255, and alpha is 1.0 where the
/// literal has no alpha digits.
#[verifier::external_body]
fn parse_css(s: &str) -> (r: Result<ColorValue, ColorError>)
    requires
        is_sliceable(s@),
    ensures
        error_of(r) == error_of(css_outcome(s@)),
        r matches Ok(c) ==> is_exact(s@) && !c.has_nan() ==> r == css_outcome(s@),
        is_hex_literal(trimmed(s@)) ==> r is Ok,
        is_hex_literal(trimmed(s@)) ==> r->Ok_0.r == byte_channel(hex_byte(trimmed(s@), 0)),
        is_hex_literal(trimmed(s@)) ==> r->Ok_0.g == byte_channel(hex_byte(trimmed(s@), 1)),
        is_hex_literal(trimmed(s@)) ==> r->Ok_0.b == byte_channel(hex_byte(trimmed(s@), 2)),
        is_hex_literal(trimmed(s@)) && has_alpha_digits(trimmed(s@)) ==> r->Ok_0.a
            == byte_channel(hex_byte(trimmed(s@), 3)),
        is_hex_literal(trimmed(s@)) && !has_alpha_digits(trimmed(s@)) ==> r->Ok_0.a == ONE,
{
    match csscolorparser::parse(s) {
        Ok(c) => Ok(
            ColorValue { r: c.r.to_bits(), g: c.g.to_bits(), b: c.b.to_bits(), a: c.a.to_bits() },
        ),
        Err(csscolorparser::ParseColorError::InvalidHex) => Err(ColorError::InvalidHex),
        Err(csscolorparser::ParseColorError::InvalidUnknown) => Err(ColorError::InvalidUnknown),
        Err(_) => Err(ColorError::InvalidFunction),
    }
}

/// The error with which the standard-domain grammar rejects a text; `None`
/// where the text is a color in it.
///
/// A text that starts with `#` is a color if it is a hexadecimal literal,
/// else it is invalid hex. A call of a function that the grammar does not
/// have is unknown. A call of one that it has, with an argument that holds
/// a character outside ASCII, is an invalid function: no such argument is a
/// number. For any other text the wrapped parser decides.
pub open spec fn standard_error(s: Seq<char>) -> Option<ColorError> {
    if has_hex_shape(s) {
        if is_hex_literal(trimmed(s)) {
            None
        } else {
            Some(ColorError::InvalidHex)
        }
    } else if has_call_shape(s) {
        if !is_color_function(call_name(s)) {
            Some(ColorError::InvalidUnknown)
        } else if !arguments_are_ascii(s) {
            Some(ColorError::InvalidFunction)
        } else {
            error_of(css_outcome(s))
        }
    } else {
        error_of(css_outcome(s))
    }
}

/// `r` is what the standard-domain grammar gives for `s`: the error is
/// `standard_error(s)`; the color of a hexadecimal literal is `hex_color`;
/// and the color of any other exact text, unless a channel is not a
/// number, is the one that the wrapped parser gives for that text.
pub open spec fn is_standard_outcome(s: Seq<char>, r: Result<ColorValue, ColorError>) -> bool {
    &&& error_of(r) == standard_error(s)
    &&& is_hex_literal(trimmed(s)) ==> r == Ok::<ColorValue, ColorError>(hex_color(trimmed(s)))
    &&& r matches Ok(c) ==> is_exact(s) && !c.has_nan() ==> r == css_outcome(s)
}

fn char_is_hex_digit(c: char) -> (r: bool)
    ensures
        r == is_hex_digit(c),
{
    ('0' <= c && c <= '9') || ('a' <= c && c <= 'f') || ('A' <= c && c <= 'F')
}

/// Whether `cs[from..to]` is a hexadecimal literal.
fn is_hex_literal_in(cs: &Vec<char>, from: usize, to: usize) -> (r: bool)
    requires
        from < to <= cs@.len(),
        cs@[from as int] == '#',
    ensures
        r == is_hex_literal(cs@.subrange(from as int, to as int)),
{
    let n: usize = to - from;
    let ghost t = cs@.subrange(from as int, to as int);
    if n != 4 && n != 5 && n != 7 && n != 9 {
        return false;
    }
    let mut i: usize = from + 1;
    while i < to
        invariant
            from < i <= to <= cs@.len(),
            t == cs@.subrange(from as int, to as int),
            forall|k: int| 1 <= k < i - from ==> is_hex_digit(#[trigger] t[k]),
        decreases to - i,
    {
        if !char_is_hex_digit(cs[i]) {
            assert(t[i - from] == cs@[i as int]);
            return false;
        }
        assert(t[i - from] == cs@[i as int]);
        i += 1;
    }
    true
}

/// Whether every character of `cs[from..to]` is ASCII.
fn all_ascii_in(cs: &Vec<char>, from: usize, to: usize) -> (r: bool)
    requires
        from <= to <= cs@.len(),
    ensures
        r == forall|i: int| from <= i < to ==> #[trigger] cs@[i] <= '\u{7f}',
{
    let mut i: usize = from;
    while i < to
        invariant
            from <= i <= to <= cs@.len(),
            forall|k: int| from <= k < i ==> #[trigger] cs@[k] <= '\u{7f}',
        decreases to - i,
    {
        if cs[i] > '\u{7f}' {
            return false;
        }
        i += 1;
    }
    true
}

/// Whether `cs[from..to]` names a function of the standard-domain grammar.
fn is_color_function_in(cs: &Vec<char>, from: usize, to: usize) -> (r: bool)
    requires
        from <= to <= cs@.len(),
    ensures
        r == is_color_function(cs@.subrange(from as int, to as int)),
{
    let n: usize = to - from;
    let ghost name = cs@.subrange(from as int, to as int);
    proof {
        lemma_word3(name, 'r', 'g', 'b');
        lemma_word4(name, 'r', 'g', 'b', 'a');
        lemma_word3(name, 'h', 's', 'l');
        lemma_word4(name, 'h', 's', 'l', 'a');
        lemma_word3(name, 'h', 'w', 'b');
        lemma_word4(name, 'h', 'w', 'b', 'a');
        lemma_word3(name, 'h', 's', 'v');
        lemma_word4(name, 'h', 's', 'v', 'a');
        lemma_word3(name, 'l', 'a', 'b');
        lemma_word3(name, 'l', 'c', 'h');
        lemma_word5(name, 'o', 'k', 'l', 'a', 'b');
        lemma_word5(name, 'o', 'k', 'l', 'c', 'h');
    }
    if n < 3 || n > 5 {
        return false;
    }
    assert(forall|i: int| 0 <= i < n ==> name[i] == cs@[from + i]);
    let c0 = cs[from];
    let c1 = cs[from + 1];
    let c2 = cs[from + 2];
    if n == 5 {
        letter_is(c0, 'o') && letter_is(c1, 'k') && letter_is(c2, 'l') && ((letter_is(
            cs[from + 3],
            'a',
        ) && letter_is(cs[from + 4], 'b')) || (letter_is(cs[from + 3], 'c') && letter_is(
            cs[from + 4],
            'h',
        )))
    } else if n == 4 {
        letter_is(cs[from + 3], 'a') && ((letter_is(c0, 'r') && letter_is(c1, 'g') && letter_is(
            c2,
            'b',
        )) || (letter_is(c0, 'h') && ((letter_is(c1, 's') && (letter_is(c2, 'l') || letter_is(
            c2,
            'v',
        ))) || (letter_is(c1, 'w') && letter_is(c2, 'b')))))
    } else {
        (letter_is(c0, 'r') && letter_is(c1, 'g') && letter_is(c2, 'b')) || (letter_is(c0, 'h')
            && ((letter_is(c1, 's') && (letter_is(c2, 'l') || letter_is(c2, 'v'))) || (letter_is(
            c1,
            'w',
        ) && letter_is(c2, 'b')))) || (letter_is(c0, 'l') && ((letter_is(c1, 'a') && letter_is(
            c2,
            'b',
        )) || (letter_is(c1, 'c') && letter_is(c2, 'h'))))
    }
}

/// The standard-domain grammar applied to a text: hexadecimal forms, the
/// functional notations in their conventional domains, and named colors.
pub fn parse_standard(s: &str) -> (r: Result<ColorValue, ColorError>)
    ensures
        is_standard_outcome(s@, r),
{
    let cs = to_chars(s);
    let lo = skip_whitespace_in(&cs, 0, cs.len());
    let hi = skip_whitespace_back_in(&cs, lo, cs.len());
    if lo < hi && cs[lo] == '#' {
        if is_hex_literal_in(&cs, lo, hi) {
            parse_css(s)
        } else {
            Err(ColorError::InvalidHex)
        }
    } else {
        let open = find_char_in(&cs, '(', lo, hi);
        if open < hi && cs[hi - 1] == ')' {
            let name_end = skip_whitespace_back_in(&cs, lo, open);
            if !is_color_function_in(&cs, lo, name_end) {
                Err(ColorError::InvalidUnknown)
            } else if !all_ascii_in(&cs, open + 1, hi) {
                Err(ColorError::InvalidFunction)
            } else {
                parse_css(s)
            }
        } else {
            parse_css(s)
        }
    }
}

} // verus!
