use color_lsp::{
    first_success, fractional_call, fractions_to_color, is_hex_char, match_color, parse,
    parse_standard, try_parse_color, unit_fraction, ColorError, ColorNode, ColorSpace, ColorValue,
    FractionalCall,
};
use csscolorparser::Color;

fn value(c: Color) -> ColorValue {
    ColorValue { r: c.r.to_bits(), g: c.g.to_bits(), b: c.b.to_bits(), a: c.a.to_bits() }
}

fn color(v: ColorValue) -> Color {
    Color::new(f32::from_bits(v.r), f32::from_bits(v.g), f32::from_bits(v.b), f32::from_bits(v.a))
}

fn number(s: &str) -> Option<u32> {
    s.parse::<f32>().ok().map(f32::to_bits)
}

fn hsl(h: u32, s: u32, l: u32, a: u32) -> ColorValue {
    value(Color::from_hsla(
        f32::from_bits(h) * 360.0,
        f32::from_bits(s),
        f32::from_bits(l),
        f32::from_bits(a),
    ))
}

fn try_parse_gpui_color(s: &str) -> Result<ColorValue, ColorError> {
    color_lsp::try_parse_gpui_color(s, &number, &hsl)
}

fn must_parse(matched: &str, line: usize, col: usize) -> ColorNode {
    let color = try_parse_color(matched, &number, &hsl)
        .expect("The `matched` should be a valid CSS color");
    ColorNode::new(matched, color, line, col)
}

/// Equal texts and locations, and colors that serialize to the same hex.
fn same_node(a: &ColorNode, b: &ColorNode) -> bool {
    a.matched == b.matched
        && a.loc == b.loc
        && color(a.color).to_css_hex() == color(b.color).to_css_hex()
}

fn scan(text: &str) -> Vec<ColorNode> {
    parse(text, &number, &hsl)
}

#[test]
fn test_match_color() {
    let cases = vec![
        "#A0F0F0",
        "#2eC8f1",
        "#AAF0F0aa",
        "#AAF0F033",
        "#0f0E",
        "#F2c",
        "rgb(80%,80%,20%)",
        "rgb(255 100 0)",
        "rgba(255, 0, 0, 0.5)",
        "rgb(100, 200, 100)",
        "hsl(225, 100%, 70%)",
        "hsla(20, 100%, 50%, .5)",
        "hsla(1., 0.5, 0.5, 1.)",
    ];

    for case in cases {
        assert!(match_color(case, 1, 1, &number, &hsl).is_some());
    }

    assert_eq!(match_color("#e7b911", 1, 10, &number, &hsl), Some(must_parse("#e7b911", 2, 11)));
}

#[test]
fn test_try_parse_gpui_color() {
    assert_eq!(
        try_parse_gpui_color("rgb(0., 1., 0.2)"),
        Ok(value(Color { r: 0., g: 1., b: 0.2, a: 1. }))
    );
    assert_eq!(
        try_parse_gpui_color("rgb(0., 1., 0., 0.45)"),
        Ok(value(Color { r: 0., g: 1., b: 0., a: 0.45 }))
    );
    assert!(try_parse_gpui_color("rgb(255., 220.0, 0.)").is_err());
    assert!(try_parse_gpui_color("rgba(255., 120., 20.0, 1.)").is_err());

    assert_eq!(
        try_parse_gpui_color("hsl(0.48, 1., 0.45)"),
        Ok(value(Color::new(0., 0.9, 0.79200006, 1.)))
    );
    assert_eq!(
        try_parse_gpui_color("hsla(0.48, 1., 0.45, 0.3)"),
        Ok(value(Color::new(0., 0.9, 0.79200006, 0.3)))
    );
    assert!(try_parse_gpui_color("hsl(240., 0., 50.0)").is_err());
    assert!(try_parse_gpui_color("hsla(240., 0., 50.0, 1.)").is_err());
}

#[test]
fn test_must_parse() {
    assert_eq!(
        must_parse("hsla(.2, 0.5, 0.5, 1.)", 10, 12),
        ColorNode {
            matched: "hsla(.2, 0.5, 0.5, 1.)".to_string(),
            color: value(Color::from_hsla(0.2 * 360., 0.5, 0.5, 1.)),
            loc: (10, 12)
        }
    );

    assert_eq!(
        must_parse("rgba(1., 0.5, 0.5, 1.)", 10, 12),
        ColorNode {
            matched: "rgba(1., 0.5, 0.5, 1.)".to_string(),
            color: value(Color::new(1., 0.5, 0.5, 1.)),
            loc: (10, 12)
        }
    );
}

const DOCUMENT: &str = "{
  \"primary\": \"#999\",
  \"background\": \"#FFFFFF\",
  \"error\": \"#ff003c99\",
  \"success\": \"#3cBD00\",
  \"rgba\": \"rgba(255, 252, 0, 0.5)\",
  \"rgb\": \"rgb(100, 200, 100)\",
  \"hsla\": \"hsla(20, 100%, 50%, .5)\",
  \"hsl\": \"hsl(225, 100%, 70%)\"
}
";

#[test]
fn test_parse() {
    let colors = scan(DOCUMENT);

    assert_eq!(colors.len(), 8);
    assert_eq!(colors[0], must_parse("#999", 2, 15));
    assert_eq!(colors[1], must_parse("#FFFFFF", 3, 18));
    assert_eq!(colors[2], must_parse("#ff003c99", 4, 13));
    assert_eq!(colors[3], must_parse("#3cBD00", 5, 15));
    assert_eq!(colors[4], must_parse("rgba(255, 252, 0, 0.5)", 6, 12));
    assert_eq!(colors[5], must_parse("rgb(100, 200, 100)", 7, 11));
    assert_eq!(colors[6], must_parse("hsla(20, 100%, 50%, .5)", 8, 12));
    assert_eq!(colors[7], must_parse("hsl(225, 100%, 70%)", 9, 11));
}

#[test]
fn hex_literals_round_trip() {
    for (text, hex) in [
        ("#F2c", "#ff22cc"),
        ("#0f0E", "#00ff00ee"),
        ("#A0F0F0", "#a0f0f0"),
        ("#AAF0F033", "#aaf0f033"),
        ("#e7b911", "#e7b911"),
    ] {
        let nodes = scan(text);
        assert_eq!(nodes.len(), 1, "{text}");
        assert_eq!(nodes[0].matched, text);
        assert_eq!(nodes[0].loc, (1, 1));
        assert_eq!(color(nodes[0].color).to_css_hex(), hex);
    }
}

#[test]
fn standard_functions_give_one_match() {
    for text in [
        "hsl(225, 100%, 70%)",
        "hsla(20, 100%, 50%, .5)",
        "rgb(255 100 0)",
        "rgba(255, 0, 0, 0.5)",
        "hwb(120 0% 0%)",
        "hwba(120, 0%, 0%, 0.5)",
        "oklab(0.5 0.1 -0.1)",
        "oklch(0.5 0.1 120)",
        "hsv(120, 100%, 100%)",
        "lab(50 20 -30)",
        "lch(50% 40 120)",
    ] {
        let nodes = scan(text);
        assert_eq!(nodes.len(), 1, "{text}");
        assert_eq!(nodes[0], must_parse(text, 1, 1));
    }
}

#[test]
fn fractional_dialect_comes_first() {
    let c = color(try_parse_color("rgb(0., 1., 0.2)", &number, &hsl).unwrap());
    assert_eq!((c.r, c.g, c.b, c.a), (0.0, 1.0, 0.2, 1.0));
    // Valid in both dialects: the fractional reading wins.
    let c = color(try_parse_color("rgb(0, 1, 0)", &number, &hsl).unwrap());
    assert_eq!((c.r, c.g, c.b, c.a), (0.0, 1.0, 0.0, 1.0));
}

#[test]
fn out_of_range_fraction_is_rejected() {
    assert_eq!(try_parse_gpui_color("rgb(255., 220.0, 0.)"), Err(ColorError::InvalidFunction));
    assert_eq!(try_parse_gpui_color("rgb(0.5, 0.5, 0.5, 1.5)"), Err(ColorError::InvalidFunction));
    assert_eq!(try_parse_gpui_color("rgb(0.5, -0.5, 0.5)"), Err(ColorError::InvalidFunction));
}

#[test]
fn fractional_hue_is_a_fraction_of_a_turn() {
    let fractional = color(try_parse_color("hsl(0.48, 1., 0.45)", &number, &hsl).unwrap());
    let standard = color(try_parse_color("hsl(172.8, 100%, 45%)", &number, &hsl).unwrap());
    assert_eq!(fractional.to_css_hex(), standard.to_css_hex());
    assert_eq!(fractional.to_rgba8(), standard.to_rgba8());
}

#[test]
fn text_without_literals_gives_nothing() {
    assert_eq!(scan(""), vec![]);
    assert_eq!(scan("\n\n"), vec![]);
    assert_eq!(scan("fn main() {\n    println!(\"hello\");\n}\n"), vec![]);
    assert_eq!(scan("# not a color\nrgb(\nhsl(1, 2\n"), vec![]);
}

#[test]
fn literal_is_located_by_line_and_column() {
    // The `#` is the eleventh character of the second line.
    let nodes = scan("a {\n   color: #e7b911;\n}\n");
    assert_eq!(nodes, vec![must_parse("#e7b911", 2, 11)]);
    // One space less, one column less.
    let nodes = scan("a {\n  color: #e7b911;\n}\n");
    assert_eq!(nodes, vec![must_parse("#e7b911", 2, 10)]);
}

#[test]
fn column_counts_characters() {
    let nodes = scan("é€ #fff");
    assert_eq!(nodes, vec![must_parse("#fff", 1, 4)]);
}

#[test]
fn scanning_twice_gives_the_same() {
    let first = scan(DOCUMENT);
    let second = scan(DOCUMENT);
    assert_eq!(first, second);
}

#[test]
fn adjacent_literals_do_not_overlap() {
    let nodes = scan("#fff #000");
    assert_eq!(nodes, vec![must_parse("#fff", 1, 1), must_parse("#000", 1, 6)]);
    let nodes = scan("rgb(1,2,3)rgb(4,5,6)#abc");
    assert_eq!(
        nodes,
        vec![
            must_parse("rgb(1,2,3)", 1, 1),
            must_parse("rgb(4,5,6)", 1, 11),
            must_parse("#abc", 1, 21)
        ]
    );
}

#[test]
fn hex_candidate_takes_at_most_nine_characters() {
    assert_eq!(scan("#1234567890"), vec![must_parse("#12345678", 1, 1)]);
    assert_eq!(scan("#12345 "), vec![]);
    // A second `#` belongs to the candidate of the first.
    assert_eq!(scan("#fff#000"), vec![must_parse("#000", 1, 5)]);
}

#[test]
fn word_must_be_exactly_the_function_name() {
    assert_eq!(scan("xrgb(1, 2, 3)"), vec![]);
    assert_eq!(scan("RGB(1, 2, 3)"), vec![]);
    assert_eq!(scan("x rgb(1, 2, 3)"), vec![must_parse("rgb(1, 2, 3)", 1, 3)]);
    assert_eq!(scan("(rgb(1, 2, 3)"), vec![]);
}

#[test]
fn failed_call_restarts_behind_its_bracket() {
    assert_eq!(scan("rgb(rgb(1, 2, 3)"), vec![must_parse("rgb(1, 2, 3)", 1, 5)]);
    assert_eq!(scan("rgb(#fff)"), vec![must_parse("#fff", 1, 5)]);
}

#[test]
fn call_does_not_reach_over_a_line_feed() {
    assert_eq!(scan("rgb(1, 2,\n3)"), vec![]);
    assert_eq!(scan("rgb(1, 2, 3\n)#fff"), vec![must_parse("#fff", 2, 2)]);
}

#[test]
fn shape_of_a_fractional_call() {
    assert_eq!(
        fractional_call("  RGBA (0.1,0.2 0.3 , 1.)  "),
        Ok(FractionalCall {
            space: ColorSpace::Rgb,
            first: "0.1".to_string(),
            second: "0.2".to_string(),
            third: "0.3".to_string(),
            alpha: Some("1.".to_string()),
        })
    );
    assert_eq!(
        fractional_call("hsl(a,,b\tc)"),
        Ok(FractionalCall {
            space: ColorSpace::Hsl,
            first: "a".to_string(),
            second: "b".to_string(),
            third: "c".to_string(),
            alpha: None,
        })
    );
}

#[test]
fn errors_of_the_fractional_shape() {
    assert_eq!(fractional_call("rgb(1, 2)"), Err(ColorError::InvalidFunction));
    assert_eq!(fractional_call("rgb(1, 2, 3, 4, 5)"), Err(ColorError::InvalidFunction));
    assert_eq!(fractional_call("rgb()"), Err(ColorError::InvalidFunction));
    assert_eq!(fractional_call("hwb(1, 2, 3)"), Err(ColorError::InvalidUnknown));
    assert_eq!(fractional_call("rgb(1, 2, 3"), Err(ColorError::InvalidUnknown));
    assert_eq!(fractional_call("#fff"), Err(ColorError::InvalidUnknown));
    assert_eq!(fractional_call(""), Err(ColorError::InvalidUnknown));
    assert_eq!(fractional_call(")("), Err(ColorError::InvalidUnknown));
}

#[test]
fn errors_of_the_standard_grammar() {
    assert_eq!(color_lsp::parse_standard("#12"), Err(ColorError::InvalidHex));
    assert_eq!(color_lsp::parse_standard("#ggg"), Err(ColorError::InvalidHex));
    assert_eq!(color_lsp::parse_standard("rgb(1, 2)"), Err(ColorError::InvalidFunction));
    assert_eq!(color_lsp::parse_standard("rgb(a, b, c)"), Err(ColorError::InvalidFunction));
    assert_eq!(color_lsp::parse_standard("foo(1, 2, 3)"), Err(ColorError::InvalidUnknown));
    assert_eq!(color_lsp::parse_standard("foo(1)"), Err(ColorError::InvalidUnknown));
    assert_eq!(color_lsp::parse_standard("#+f+f+f"), Err(ColorError::InvalidHex));
    assert_eq!(color_lsp::parse_standard(" #ff "), Err(ColorError::InvalidHex));
    assert_eq!(color_lsp::parse_standard("#rgb(1, 2, 3)"), Err(ColorError::InvalidHex));
    assert_eq!(color_lsp::parse_standard("no color"), Err(ColorError::InvalidUnknown));
}

#[test]
fn standard_grammar_gives_channel_bits() {
    assert_eq!(
        color_lsp::parse_standard("#ff0000"),
        Ok(ColorValue {
            r: 1.0f32.to_bits(),
            g: 0.0f32.to_bits(),
            b: 0.0f32.to_bits(),
            a: 1.0f32.to_bits()
        })
    );
    assert_eq!(
        color_lsp::parse_standard("rgb(255 0 255 / 50%)"),
        Ok(value(Color::new(1.0, 0.0, 1.0, 0.5)))
    );
}

#[test]
fn hex_characters() {
    for c in "#09afAF".chars() {
        assert!(is_hex_char(&c));
    }
    for c in "gG/:@`x (".chars() {
        assert!(!is_hex_char(&c));
    }
}

#[test]
fn presentation_range_counts_from_zero() {
    let node = must_parse("#e7b911", 2, 11);
    assert_eq!(node.range(), (1, 10, 17));
}

#[test]
fn fractions_lie_within_zero_and_one() {
    for v in [0.0f32, 1.0, 0.5, 0.2, -0.0, f32::MIN_POSITIVE, 1.0e-45] {
        assert_eq!(unit_fraction(Some(v.to_bits())), Some(v.to_bits()), "{v}");
    }
    for v in [1.0000001f32, 2.0, 255.0, -0.5, -1.0e-45, f32::INFINITY, f32::NEG_INFINITY, f32::NAN]
    {
        assert_eq!(unit_fraction(Some(v.to_bits())), None, "{v}");
    }
    assert_eq!(unit_fraction(None), None);
}

#[test]
fn fractions_make_a_color() {
    let half = Some(0.5f32.to_bits());
    let one = Some(1.0f32.to_bits());
    assert_eq!(
        fractions_to_color(ColorSpace::Rgb, half, one, half, None, &hsl),
        Ok(value(Color::new(0.5, 1.0, 0.5, 1.0)))
    );
    assert_eq!(
        fractions_to_color(ColorSpace::Rgb, half, one, half, Some(half), &hsl),
        Ok(value(Color::new(0.5, 1.0, 0.5, 0.5)))
    );
    assert_eq!(
        fractions_to_color(ColorSpace::Hsl, half, one, half, Some(half), &hsl),
        Ok(value(Color::from_hsla(180.0, 1.0, 0.5, 0.5)))
    );
    assert_eq!(
        fractions_to_color(ColorSpace::Rgb, half, None, half, None, &hsl),
        Err(ColorError::InvalidFunction)
    );
    assert_eq!(
        fractions_to_color(ColorSpace::Hsl, half, one, half, Some(None), &hsl),
        Err(ColorError::InvalidFunction)
    );
    // Nothing is clamped: 255 is no fraction.
    let large = Some(255.0f32.to_bits());
    assert_eq!(
        fractions_to_color(ColorSpace::Rgb, large, one, half, None, &hsl),
        Err(ColorError::InvalidFunction)
    );
    assert_eq!(
        fractions_to_color(ColorSpace::Rgb, half, one, half, Some(large), &hsl),
        Err(ColorError::InvalidFunction)
    );
}

#[test]
fn node_is_made_of_a_color_only() {
    let red = value(Color::new(1.0, 0.0, 0.0, 1.0));
    assert_eq!(
        color_lsp::node_for("#f00", Ok(red), 0, 4),
        Some(ColorNode { color: red, matched: "#f00".to_string(), loc: (1, 5) })
    );
    assert_eq!(color_lsp::node_for("#f0", Err(ColorError::InvalidHex), 0, 4), None);
    let node = ColorNode::new("#f00", red, 3, 7);
    assert_eq!(node.clone(), node);
    assert_eq!(node.loc, (3, 7));
}

#[test]
fn a_number_that_rounds_to_one_is_a_fraction() {
    assert_eq!(
        try_parse_gpui_color("rgb(1.00000001, 0, 0)"),
        Ok(value(Color::new(1.0, 0.0, 0.0, 1.0)))
    );
    assert_eq!(try_parse_gpui_color("rgb(-0, 0, 0)"), Ok(value(Color::new(-0.0, 0.0, 0.0, 1.0))));
    assert!(try_parse_gpui_color("rgb(nan, 0, 0)").is_err());
    assert!(try_parse_gpui_color("rgb(inf, 0, 0)").is_err());
}

#[test]
fn argument_of_several_bytes_is_no_number() {
    for text in [
        "hsl(\u{e9}\u{e9},1,1)",
        "hsla(\u{e9}\u{e9}, 100%, 50%, 1)",
        "hwb(a\u{e9}\u{e9} 0% 0%)",
        "hsv(\u{20ac}, 100%, 100%)",
        "oklch(0.5 0.1 \u{e9}\u{e9})",
        "lch(50% 40 \u{1f600})",
        "rgb(1, 2, \u{e9})",
        "rgb(1, 2, 3, \u{e9})",
        " HSL ( \u{e9}\u{e9} , 1 , 1 ) ",
    ] {
        assert_eq!(parse_standard(text), Err(ColorError::InvalidFunction), "{text}");
        assert_eq!(try_parse_color(text, &number, &hsl), Err(ColorError::InvalidFunction));
        assert_eq!(match_color(text, 0, 0, &number, &hsl), None);
    }
    assert_eq!(parse_standard("f\u{e9}(\u{e9}\u{e9},1,1)"), Err(ColorError::InvalidUnknown));
    assert_eq!(
        scan("a: hsl(\u{e9}\u{e9},1,1);\nb: hwb(\u{e9}\u{e9},1,1) #fff\n"),
        vec![must_parse("#fff", 2, 16)]
    );
}

#[test]
fn white_space_around_a_literal_is_dropped() {
    assert_eq!(parse_standard(" #ff0000\u{a0}"), parse_standard("#ff0000"));
    assert_eq!(parse_standard("\u{2003}rgb(1, 2, 3)\u{3000}"), parse_standard("rgb(1, 2, 3)"));
    assert!(parse_standard("\u{2003}rgb(1, 2, 3)\u{3000}").is_ok());
    assert_eq!(parse_standard("red"), Ok(value(Color::new(1.0, 0.0, 0.0, 1.0))));
}

#[test]
fn hex_channel_is_its_byte_over_255() {
    let c = color(parse_standard("#3cBD0080").unwrap());
    assert_eq!((c.r, c.g, c.b, c.a), (60.0 / 255.0, 189.0 / 255.0, 0.0, 128.0 / 255.0));
    let c = color(parse_standard("#F2c").unwrap());
    assert_eq!((c.r, c.g, c.b, c.a), (1.0, 34.0 / 255.0, 204.0 / 255.0, 1.0));
    let c = color(parse_standard("#0f0E").unwrap());
    assert_eq!((c.r, c.g, c.b, c.a), (0.0, 1.0, 0.0, 238.0 / 255.0));
    let c = color(try_parse_color("#e7b911", &number, &hsl).unwrap());
    assert_eq!((c.r, c.g, c.b, c.a), (231.0 / 255.0, 185.0 / 255.0, 17.0 / 255.0, 1.0));
}

#[test]
fn fractional_outcome_comes_first() {
    let red = value(Color::new(1.0, 0.0, 0.0, 1.0));
    let blue = value(Color::new(0.0, 0.0, 1.0, 1.0));
    assert_eq!(first_success(Ok(red), Ok(blue)), Ok(red));
    assert_eq!(first_success(Ok(red), Err(ColorError::InvalidHex)), Ok(red));
    assert_eq!(first_success(Err(ColorError::InvalidFunction), Ok(blue)), Ok(blue));
    assert_eq!(
        first_success(Err(ColorError::InvalidFunction), Err(ColorError::InvalidUnknown)),
        Err(ColorError::InvalidUnknown)
    );
}

#[test]
fn nodes_are_equal_by_hex_serialization() {
    let fractional = must_parse("hsl(0.48, 1., 0.45)", 1, 1);
    let mut standard = must_parse("hsl(172.8, 100%, 45%)", 1, 1);
    standard.matched = fractional.matched.clone();
    assert!(same_node(&fractional, &standard));
    assert!(!same_node(&fractional, &must_parse("hsl(0.48, 1., 0.45)", 1, 2)));
    assert!(!same_node(&fractional, &must_parse("hsl(0.48, 1., 0.5)", 1, 1)));
    let colors = scan(DOCUMENT);
    assert!(same_node(&colors[0], &must_parse("#999", 2, 15)));
    assert!(same_node(&colors[7], &must_parse("hsl(225, 100%, 70%)", 9, 11)));
}
