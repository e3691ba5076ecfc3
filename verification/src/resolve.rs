use crate::color::{
    has_hex_shape, hex_color, is_hex_digit, is_hex_literal, is_standard_outcome, parse_standard,
    standard_error, ColorError, ColorValue,
};
use crate::fractional::{
    fractional_color, is_converter, is_reader, try_parse_gpui_color, witnessed,
};
use crate::text::{
    has_call_shape, is_whitespace, lemma_find_char_is, lemma_first_index_is, open_bracket,
    trim_end, trim_start, trimmed,
};
use vstd::prelude::*;

verus! {

/// The error with which a text is no color under either dialect; `None`
/// where it is a color. The fractional dialect comes first: where it gives
/// a color the text is one, else the standard-domain grammar decides.
pub open spec fn resolve_error<N: Fn(&str) -> Option<u32>, H: Fn(u32, u32, u32, u32) -> ColorValue>(
    s: Seq<char>,
    number: N,
    hsl: H,
) -> Option<ColorError> {
    match fractional_color(s, number, hsl) {
        Ok(_) => None,
        Err(_) => standard_error(s),
    }
}

/// `r` is what resolving `s` gives: the color of the fractional dialect
/// where it has one, else what the standard-domain grammar gives.
pub open spec fn is_resolution<N: Fn(&str) -> Option<u32>, H: Fn(u32, u32, u32, u32) -> ColorValue>(
    s: Seq<char>,
    number: N,
    hsl: H,
    r: Result<ColorValue, ColorError>,
) -> bool {
    match fractional_color(s, number, hsl) {
        Ok(c) => r == Ok::<ColorValue, ColorError>(c),
        Err(_) => is_standard_outcome(s, r),
    }
}

/// A hexadecimal literal has no white space around it and no bracket in
/// it.
pub proof fn lemma_hex_literal_shape(s: Seq<char>)
    requires
        is_hex_literal(s),
    ensures
        trimmed(s) == s,
        has_hex_shape(s),
        !has_call_shape(s),
{
    let len = s.len() as int;
    assert(!is_whitespace(s[0]));
    assert(is_hex_digit(s[len - 1]));
    assert(!is_whitespace(s[len - 1]));
    lemma_first_index_is(s, |c: char| !is_whitespace(c), 0, len, 0);
    assert(trim_start(s) == 0);
    assert(trim_end(s) == len);
    assert(trimmed(s) =~= s);
    assert forall|i: int| 0 <= i < len implies #[trigger] s[i] != '(' by {
        if i > 0 {
            assert(is_hex_digit(s[i]));
        }
    }
    lemma_find_char_is(s, '(', 0, len, len);
    assert(open_bracket(s) == len);
}

/// Of two outcomes the fractional one where it is a color, else the
/// standard one.
pub fn first_success(
    fractional: Result<ColorValue, ColorError>,
    standard: Result<ColorValue, ColorError>,
) -> (r: Result<ColorValue, ColorError>)
    ensures
        r == match fractional {
            Ok(c) => Ok::<ColorValue, ColorError>(c),
            Err(_) => standard,
        },
{
    match fractional {
        Ok(c) => Ok(c),
        Err(_) => standard,
    }
}

/// Resolves a text to a color. The fractional dialect is tried first, and
/// its color is the result where it gives one. On any failure of it the
/// standard-domain grammar decides, and the color or the error is its own.
pub fn try_parse_color<N: Fn(&str) -> Option<u32>, H: Fn(u32, u32, u32, u32) -> ColorValue>(
    s: &str,
    number: &N,
    hsl: &H,
) -> (r: Result<ColorValue, ColorError>)
    requires
        is_reader(*number),
        is_converter(*hsl),
    ensures
        is_resolution(s@, *number, *hsl, r),
        witnessed(s@, *number, *hsl),
        is_hex_literal(s@) ==> r == Ok::<ColorValue, ColorError>(hex_color(s@)),
{
    proof {
        if is_hex_literal(s@) {
            lemma_hex_literal_shape(s@);
        }
    }
    let fractional = try_parse_gpui_color(s, number, hsl);
    if fractional.is_ok() {
        fractional
    } else {
        first_success(fractional, parse_standard(s))
    }
}

} // verus!
