use crate::color::{ColorError, ColorValue, ONE};
use crate::text::{
    call_name, find_char_in, first_index, has_call_shape, is_ascii_whitespace, is_word,
    lemma_first_index, lemma_word3, lemma_word4, letter_is, open_bracket,
    skip_whitespace_back_in, skip_whitespace_in, slice_to_string, to_chars, trim_end,
};
use vstd::prelude::*;

verus! {

/// The color space that a fractional call names.
#[derive(Clone, Copy, Debug, PartialEq, Eq, Structural)]
pub enum ColorSpace {
    /// `rgb` or `rgba`: red, green, blue.
    Rgb,
    /// `hsl` or `hsla`: hue as a fraction of a full turn, saturation,
    /// lightness.
    Hsl,
}

/// A call in the shape of the fractional dialect: a color space and three
/// argument texts, with a fourth for alpha where the call has one. The
/// arguments are not yet read as numbers.
#[derive(Clone, Debug, PartialEq, Eq)]
pub struct FractionalCall {
    pub space: ColorSpace,
    pub first: String,
    pub second: String,
    pub third: String,
    pub alpha: Option<String>,
}

/// A fractional call with its argument texts as character sequences.
pub struct FractionalCallView {
    pub space: ColorSpace,
    pub first: Seq<char>,
    pub second: Seq<char>,
    pub third: Seq<char>,
    pub alpha: Option<Seq<char>>,
}

impl View for FractionalCall {
    type V = FractionalCallView;

    open spec fn view(&self) -> FractionalCallView {
        FractionalCallView {
            space: self.space,
            first: self.first@,
            second: self.second@,
            third: self.third@,
            alpha: match self.alpha {
                Some(a) => Some(a@),
                None => None,
            },
        }
    }
}

/// A comma or ASCII white space: what stands between two arguments.
pub open spec fn is_separator(c: char) -> bool {
    c == ',' || is_ascii_whitespace(c)
}

/// The first index at or after `from`, and before `to`, that holds a
/// separator; `to` if there is none.
pub open spec fn token_end(s: Seq<char>, from: int, to: int) -> int {
    first_index(s, |c: char| is_separator(c), from, to)
}

/// The arguments in `s[from..to]`: the maximal runs of characters that are
/// not separators, in order.
pub open spec fn tokens(s: Seq<char>, from: int, to: int) -> Seq<Seq<char>>
    decreases to - from,
    via tokens_decreases
{
    if from < 0 || from >= to || to > s.len() {
        Seq::empty()
    } else if is_separator(s[from]) {
        tokens(s, from + 1, to)
    } else {
        let end = token_end(s, from + 1, to);
        seq![s.subrange(from, end)] + tokens(s, end, to)
    }
}

#[via_fn]
proof fn tokens_decreases(s: Seq<char>, from: int, to: int) {
    if !(from < 0 || from >= to || to > s.len()) && !is_separator(s[from]) {
        lemma_first_index(s, |c: char| is_separator(c), from + 1, to);
    }
}

/// The color space of a function name, in any mix of upper and lower case.
pub open spec fn space_of(name: Seq<char>) -> Option<ColorSpace> {
    if is_word(name, seq!['r', 'g', 'b']) || is_word(name, seq!['r', 'g', 'b', 'a']) {
        Some(ColorSpace::Rgb)
    } else if is_word(name, seq!['h', 's', 'l']) || is_word(name, seq!['h', 's', 'l', 'a']) {
        Some(ColorSpace::Hsl)
    } else {
        None
    }
}

/// The shape of a text under the fractional dialect. The text, without
/// white space around it, is a name, `(`, arguments and a final `)`. The
/// name, up to white space before the `(`, is `rgb`, `rgba`, `hsl` or `hsla`
/// in any case, else the text is unknown. There are three arguments or
/// four, else the function is invalid.
pub open spec fn fractional_shape(s: Seq<char>) -> Result<FractionalCallView, ColorError> {
    if !has_call_shape(s) {
        Err(ColorError::InvalidUnknown)
    } else {
        let args = tokens(s, open_bracket(s) + 1, trim_end(s) - 1);
        match space_of(call_name(s)) {
            None => Err(ColorError::InvalidUnknown),
            Some(space) => if args.len() == 3 {
                Ok(
                    FractionalCallView {
                        space,
                        first: args[0],
                        second: args[1],
                        third: args[2],
                        alpha: None,
                    },
                )
            } else if args.len() == 4 {
                Ok(
                    FractionalCallView {
                        space,
                        first: args[0],
                        second: args[1],
                        third: args[2],
                        alpha: Some(args[3]),
                    },
                )
            } else {
                Err(ColorError::InvalidFunction)
            },
        }
    }
}

pub fn char_is_separator(c: char) -> (r: bool)
    ensures
        r == is_separator(c),
{
    c == ',' || c == ' ' || c == '\t' || c == '\n' || c == '\u{c}' || c == '\r'
}

fn token_end_in(cs: &Vec<char>, from: usize, to: usize) -> (r: usize)
    requires
        from <= to <= cs@.len(),
    ensures
        r == token_end(cs@, from as int, to as int),
        from <= r <= to,
{
    let mut i: usize = from;
    while i < to && !char_is_separator(cs[i])
        invariant
            from <= i <= to <= cs@.len(),
            token_end(cs@, from as int, to as int) == token_end(cs@, i as int, to as int),
        decreases to - i,
    {
        i += 1;
    }
    i
}

/// The texts that a list of index pairs cuts out of `s`.
pub open spec fn slices(s: Seq<char>, ranges: Seq<(usize, usize)>) -> Seq<Seq<char>> {
    Seq::new(ranges.len(), |k: int| s.subrange(ranges[k].0 as int, ranges[k].1 as int))
}

/// Where each argument in `cs[from..to]` starts and ends.
fn token_ranges(cs: &Vec<char>, from: usize, to: usize) -> (ranges: Vec<(usize, usize)>)
    requires
        from <= to <= cs@.len(),
    ensures
        slices(cs@, ranges@) == tokens(cs@, from as int, to as int),
        forall|k: int|
            0 <= k < ranges@.len() ==> (#[trigger] ranges@[k]).0 <= ranges@[k].1 <= cs@.len(),
{
    let mut ranges: Vec<(usize, usize)> = Vec::new();
    let mut i: usize = from;
    proof {
        assert(slices(cs@, ranges@) + tokens(cs@, i as int, to as int) =~= tokens(
            cs@,
            from as int,
            to as int,
        ));
    }
    while i < to
        invariant
            from <= i <= to <= cs@.len(),
            slices(cs@, ranges@) + tokens(cs@, i as int, to as int) == tokens(
                cs@,
                from as int,
                to as int,
            ),
            forall|k: int|
                0 <= k < ranges@.len() ==> (#[trigger] ranges@[k]).0 <= ranges@[k].1 <= cs@.len(),
        decreases to - i,
    {
        if char_is_separator(cs[i]) {
            i += 1;
        } else {
            let end = token_end_in(cs, i + 1, to);
            let ghost before = ranges@;
            ranges.push((i, end));
            proof {
                assert(slices(cs@, ranges@) =~= slices(cs@, before) + seq![
                    cs@.subrange(i as int, end as int),
                ]);
                assert(slices(cs@, ranges@) + tokens(cs@, end as int, to as int) =~= slices(
                    cs@,
                    before,
                ) + tokens(cs@, i as int, to as int));
            }
            i = end;
        }
    }
    proof {
        assert(slices(cs@, ranges@) + tokens(cs@, i as int, to as int) =~= slices(cs@, ranges@));
    }
    ranges
}

/// The color space that `cs[from..to]` names.
fn space_named(cs: &Vec<char>, from: usize, to: usize) -> (r: Option<ColorSpace>)
    requires
        from <= to <= cs@.len(),
    ensures
        r == space_of(cs@.subrange(from as int, to as int)),
{
    let n: usize = to - from;
    let ghost name = cs@.subrange(from as int, to as int);
    proof {
        lemma_word3(name, 'r', 'g', 'b');
        lemma_word4(name, 'r', 'g', 'b', 'a');
        lemma_word3(name, 'h', 's', 'l');
        lemma_word4(name, 'h', 's', 'l', 'a');
    }
    if n != 3 && n != 4 {
        return None;
    }
    assert(forall|i: int| 0 <= i < n ==> name[i] == cs@[from + i]);
    if n == 4 && !letter_is(cs[from + 3], 'a') {
        return None;
    }
    if letter_is(cs[from], 'r') && letter_is(cs[from + 1], 'g') && letter_is(cs[from + 2], 'b') {
        Some(ColorSpace::Rgb)
    } else if letter_is(cs[from], 'h') && letter_is(cs[from + 1], 's') && letter_is(
        cs[from + 2],
        'l',
    ) {
        Some(ColorSpace::Hsl)
    } else {
        None
    }
}

/// Reads the shape of a fractional call off a text: its color space and
/// its three or four argument texts.
pub fn fractional_call(s: &str) -> (r: Result<FractionalCall, ColorError>)
    ensures
        match r {
            Ok(call) => fractional_shape(s@) == Ok::<FractionalCallView, ColorError>(call@),
            Err(e) => fractional_shape(s@) == Err::<FractionalCallView, ColorError>(e),
        },
{
    let cs = to_chars(s);
    let lo = skip_whitespace_in(&cs, 0, cs.len());
    let hi = skip_whitespace_back_in(&cs, lo, cs.len());
    let open = find_char_in(&cs, '(', lo, hi);
    if open == hi || cs[hi - 1] != ')' {
        return Err(ColorError::InvalidUnknown);
    }
    let name_end = skip_whitespace_back_in(&cs, lo, open);
    let space = match space_named(&cs, lo, name_end) {
        Some(space) => space,
        None => {
            return Err(ColorError::InvalidUnknown);
        },
    };
    let ranges = token_ranges(&cs, open + 1, hi - 1);
    let ghost args = tokens(s@, open + 1, hi - 1);
    assert(args.len() == ranges@.len());
    if ranges.len() != 3 && ranges.len() != 4 {
        return Err(ColorError::InvalidFunction);
    }
    assert(forall|k: int| 0 <= k < ranges@.len() ==> args[k] == slices(s@, ranges@)[k]);
    let first = slice_to_string(s, ranges[0].0, ranges[0].1);
    let second = slice_to_string(s, ranges[1].0, ranges[1].1);
    let third = slice_to_string(s, ranges[2].0, ranges[2].1);
    let alpha = if ranges.len() == 4 {
        Some(slice_to_string(s, ranges[3].0, ranges[3].1))
    } else {
        None
    };
    Ok(FractionalCall { space, first, second, third, alpha })
}

/// The bits of negative zero.
pub const NEGATIVE_ZERO: u32 = 0x8000_0000u32;

/// The bit patterns of the numbers from 0 to 1, both included: those from
/// positive zero up to 1.0, which are ordered as the numbers are, and
/// negative zero. No infinity and no not-a-number is among them.
pub open spec fn is_unit_fraction(bits: u32) -> bool {
    bits <= ONE || bits == NEGATIVE_ZERO
}

/// `number` may give `r` for a text with these characters.
pub open spec fn reads<N: Fn(&str) -> Option<u32>>(number: N, token: Seq<char>, r: Option<u32>) -> bool {
    exists|t: &str| t@ == token && #[trigger] call_ensures(number, (t,), r)
}

/// The bits of the number that `number` reads in a text, if it reads one.
pub open spec fn number_of<N: Fn(&str) -> Option<u32>>(number: N, token: Seq<char>) -> Option<u32> {
    choose|r: Option<u32>| reads(number, token, r)
}

/// The color that `hsl` gives for a hue as a fraction of a full turn, a
/// saturation, a lightness and an alpha, each by its bits.
pub open spec fn hsl_color<H: Fn(u32, u32, u32, u32) -> ColorValue>(
    hsl: H,
    h: u32,
    s: u32,
    l: u32,
    a: u32,
) -> ColorValue {
    choose|c: ColorValue| call_ensures(hsl, (h, s, l, a), c)
}

/// `number` accepts every text, and what it gives depends on the
/// characters of the text alone.
pub open spec fn is_reader<N: Fn(&str) -> Option<u32>>(number: N) -> bool {
    &&& forall|t: &str| #[trigger] call_requires(number, (t,))
    &&& forall|t1: &str, t2: &str, r1: Option<u32>, r2: Option<u32>|
        t1@ == t2@ && #[trigger] call_ensures(number, (t1,), r1) && #[trigger] call_ensures(
            number,
            (t2,),
            r2,
        ) ==> r1 == r2
}

/// `hsl` accepts every four fractions, and what it gives for them depends
/// on them alone.
pub open spec fn is_converter<H: Fn(u32, u32, u32, u32) -> ColorValue>(hsl: H) -> bool {
    &&& forall|h: u32, s: u32, l: u32, a: u32|
        is_unit_fraction(h) && is_unit_fraction(s) && is_unit_fraction(l) && is_unit_fraction(a)
            ==> #[trigger] call_requires(hsl, (h, s, l, a))
    &&& forall|h: u32, s: u32, l: u32, a: u32, c1: ColorValue, c2: ColorValue|
        is_unit_fraction(h) && is_unit_fraction(s) && is_unit_fraction(l) && is_unit_fraction(a)
            && #[trigger] call_ensures(hsl, (h, s, l, a), c1) && #[trigger] call_ensures(
            hsl,
            (h, s, l, a),
            c2,
        ) ==> c1 == c2
}

/// A number that was read, if it lies within 0 and 1.
pub open spec fn unit_fraction_of(parsed: Option<u32>) -> Option<u32> {
    match parsed {
        Some(bits) => if is_unit_fraction(bits) {
            Some(bits)
        } else {
            None
        },
        None => None,
    }
}

/// The color of a call whose arguments were read as numbers, where `None`
/// stands for an argument that is no number, and `alpha` is `None` for a
/// call with three arguments. Every argument must lie within 0 and 1, else
/// the function is invalid; a call without alpha is opaque. Red, green and
/// blue are the fractions themselves; hue, saturation and lightness are
/// converted by `hsl`.
pub open spec fn color_of_fractions<H: Fn(u32, u32, u32, u32) -> ColorValue>(
    space: ColorSpace,
    first: Option<u32>,
    second: Option<u32>,
    third: Option<u32>,
    alpha: Option<Option<u32>>,
    hsl: H,
) -> Result<ColorValue, ColorError> {
    let first = unit_fraction_of(first);
    let second = unit_fraction_of(second);
    let third = unit_fraction_of(third);
    let alpha = match alpha {
        Some(a) => unit_fraction_of(a),
        None => Some(ONE),
    };
    if first is Some && second is Some && third is Some && alpha is Some {
        match space {
            ColorSpace::Rgb => Ok(
                ColorValue { r: first->0, g: second->0, b: third->0, a: alpha->0 },
            ),
            ColorSpace::Hsl => Ok(hsl_color(hsl, first->0, second->0, third->0, alpha->0)),
        }
    } else {
        Err(ColorError::InvalidFunction)
    }
}

/// The color of a text under the fractional dialect: the text must have
/// the shape of a fractional call, and each of its arguments must read as
/// a number within 0 and 1.
pub open spec fn fractional_color<
    N: Fn(&str) -> Option<u32>,
    H: Fn(u32, u32, u32, u32) -> ColorValue,
>(s: Seq<char>, number: N, hsl: H) -> Result<ColorValue, ColorError> {
    match fractional_shape(s) {
        Err(e) => Err(e),
        Ok(call) => color_of_fractions(
            call.space,
            number_of(number, call.first),
            number_of(number, call.second),
            number_of(number, call.third),
            match call.alpha {
                Some(t) => Some(number_of(number, t)),
                None => None,
            },
            hsl,
        ),
    }
}

/// The value that the model takes for an argument is one that `number`
/// gave for it.
pub open spec fn is_read<N: Fn(&str) -> Option<u32>>(number: N, token: Seq<char>) -> bool {
    reads(number, token, number_of(number, token))
}

/// The values that the model takes for the text are ones that the two
/// functions gave: for each argument of a fractional call what `number`
/// read in it, and for an `hsl` call with four fractions the color that
/// `hsl` made of them. A caller who knows what its functions ensure learns
/// from this what the model holds.
pub open spec fn witnessed<N: Fn(&str) -> Option<u32>, H: Fn(u32, u32, u32, u32) -> ColorValue>(
    s: Seq<char>,
    number: N,
    hsl: H,
) -> bool {
    match fractional_shape(s) {
        Err(_) => true,
        Ok(call) => {
            let first = unit_fraction_of(number_of(number, call.first));
            let second = unit_fraction_of(number_of(number, call.second));
            let third = unit_fraction_of(number_of(number, call.third));
            let alpha = match call.alpha {
                Some(t) => unit_fraction_of(number_of(number, t)),
                None => Some(ONE),
            };
            &&& is_read(number, call.first)
            &&& is_read(number, call.second)
            &&& is_read(number, call.third)
            &&& call.alpha matches Some(t) ==> is_read(number, t)
            &&& call.space == ColorSpace::Hsl && first is Some && second is Some && third is Some
                && alpha is Some ==> call_ensures(
                hsl,
                (first->0, second->0, third->0, alpha->0),
                hsl_color(hsl, first->0, second->0, third->0, alpha->0),
            )
        },
    }
}

/// Keeps a number that was read if it lies within 0 and 1. Nothing is
/// clamped: a number outside is no fraction.
pub fn unit_fraction(parsed: Option<u32>) -> (r: Option<u32>)
    ensures
        r == unit_fraction_of(parsed),
{
    match parsed {
        Some(bits) => if bits <= ONE || bits == NEGATIVE_ZERO {
            Some(bits)
        } else {
            None
        },
        None => None,
    }
}

/// Reads one argument as a number.
fn read_number<N: Fn(&str) -> Option<u32>>(token: &str, number: &N) -> (r: Option<u32>)
    requires
        is_reader(*number),
    ensures
        r == number_of(*number, token@),
        is_read(*number, token@),
{
    let parsed = number(token);
    proof {
        assert(reads(*number, token@, parsed));
        let chosen = number_of(*number, token@);
        assert(reads(*number, token@, chosen));
    }
    parsed
}

/// Makes the color of a call from its arguments as they were read: each
/// the bits of a number, or `None` for an argument that is no number, and
/// `alpha` `None` for a call with three arguments. An argument outside 0 to
/// 1 makes the function invalid; nothing is clamped.
pub fn fractions_to_color<H: Fn(u32, u32, u32, u32) -> ColorValue>(
    space: ColorSpace,
    first: Option<u32>,
    second: Option<u32>,
    third: Option<u32>,
    alpha: Option<Option<u32>>,
    hsl: &H,
) -> (r: Result<ColorValue, ColorError>)
    requires
        is_converter(*hsl),
    ensures
        r == color_of_fractions(space, first, second, third, alpha, *hsl),
        space == ColorSpace::Hsl ==> match r {
            Ok(c) => call_ensures(
                *hsl,
                (first->0, second->0, third->0, if alpha is Some {
                    alpha->0->0
                } else {
                    ONE
                }),
                c,
            ),
            Err(_) => true,
        },
{
    let a = match alpha {
        Some(a) => unit_fraction(a),
        None => Some(ONE),
    };
    match (unit_fraction(first), unit_fraction(second), unit_fraction(third), a) {
        (Some(v0), Some(v1), Some(v2), Some(a)) => match space {
            ColorSpace::Rgb => Ok(ColorValue { r: v0, g: v1, b: v2, a }),
            ColorSpace::Hsl => {
                let c = hsl(v0, v1, v2, a);
                Ok(c)
            },
        },
        _ => Err(ColorError::InvalidFunction),
    }
}

/// Parses a color whose channels are fractions within 0 and 1, as in
/// `rgb(0., 1., 0.2)` or `hsla(0.48, 1., 0.45, 0.3)`.
///
/// `number` reads a text as a decimal number and gives its bits. `hsl`
/// converts a hue, as a fraction of a full turn, a saturation, a lightness
/// and an alpha to a color.
pub fn try_parse_gpui_color<N: Fn(&str) -> Option<u32>, H: Fn(u32, u32, u32, u32) -> ColorValue>(
    s: &str,
    number: &N,
    hsl: &H,
) -> (r: Result<ColorValue, ColorError>)
    requires
        is_reader(*number),
        is_converter(*hsl),
    ensures
        r == fractional_color(s@, *number, *hsl),
        witnessed(s@, *number, *hsl),
{
    match fractional_call(s) {
        Err(e) => Err(e),
        Ok(call) => {
            let alpha = match &call.alpha {
                Some(t) => Some(read_number(t.as_str(), number)),
                None => None,
            };
            let first = read_number(call.first.as_str(), number);
            let second = read_number(call.second.as_str(), number);
            let third = read_number(call.third.as_str(), number);
            fractions_to_color(call.space, first, second, third, alpha, hsl)
        },
    }
}

} // verus!
