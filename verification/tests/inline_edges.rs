use docmark::parser::inline::{
    check_head_symbol, convert_raw_style_to_text_body_style, lookup_until_close,
    parse_text_body_style, RawStyle,
};
use docmark::types::{TextBody, TextBodyStyle};

fn span(style: TextBodyStyle, value: &str) -> TextBody {
    TextBody {
        style,
        value: value.to_string(),
    }
}

fn plain(value: &str) -> TextBody {
    span(TextBodyStyle::Plain, value)
}

fn joined(spans: &[TextBody]) -> String {
    let mut all = String::new();
    for one in spans {
        all.push_str(&one.value);
    }
    all
}

#[test]
fn single_asterisk_is_one_plain_span() {
    assert_eq!(parse_text_body_style("*"), vec![plain("*")]);
}

#[test]
fn single_underscore_is_one_plain_span() {
    assert_eq!(parse_text_body_style("_"), vec![plain("_")]);
}

#[test]
fn single_backtick_is_one_plain_span() {
    assert_eq!(parse_text_body_style("`"), vec![plain("`")]);
}

#[test]
fn single_markers_leave_no_rest() {
    let found = lookup_until_close("*", &RawStyle::AsteriskItalic);
    assert_eq!(found.text_body, plain("*"));
    assert_eq!(found.rest, "");
    let found = lookup_until_close("_", &RawStyle::UnderscoreItalic);
    assert_eq!(found.text_body, plain("_"));
    assert_eq!(found.rest, "");
    let found = lookup_until_close("`", &RawStyle::Code);
    assert_eq!(found.text_body, plain("`"));
    assert_eq!(found.rest, "");
}

#[test]
fn bare_double_asterisk_is_plain() {
    assert_eq!(parse_text_body_style("**"), vec![plain("**")]);
}

#[test]
fn double_asterisk_head_is_strong_first() {
    assert!(matches!(check_head_symbol("**x"), RawStyle::Strong));
    assert_eq!(parse_text_body_style("**x"), vec![plain("**x")]);
}

#[test]
fn triple_asterisk_gives_strong_delimiter_then_italic_delimiter() {
    assert_eq!(
        parse_text_body_style("***x"),
        vec![plain("**"), plain("*x")]
    );
}

#[test]
fn quad_asterisk_gives_two_strong_delimiters() {
    assert_eq!(
        parse_text_body_style("****x"),
        vec![plain("**"), plain("**x")]
    );
}

#[test]
fn strong_with_empty_content_is_not_closed() {
    assert_eq!(
        parse_text_body_style("****"),
        vec![plain("**"), plain("**")]
    );
}

#[test]
fn italic_with_empty_content_is_not_closed() {
    assert_eq!(parse_text_body_style("__"), vec![plain("_"), plain("_")]);
}

#[test]
fn code_with_empty_content_is_not_closed() {
    assert_eq!(parse_text_body_style("``"), vec![plain("`"), plain("`")]);
    assert_eq!(parse_text_body_style("``x"), vec![plain("`"), plain("`x")]);
}

#[test]
fn unclosed_before_a_marker_at_the_very_end() {
    assert_eq!(
        parse_text_body_style("**abc_"),
        vec![plain("**abc"), plain("_")]
    );
}

#[test]
fn marker_inside_content_breaks_the_span() {
    assert_eq!(
        parse_text_body_style("*a_b*"),
        vec![plain("*a"), plain("_b"), plain("*")]
    );
    assert_eq!(
        parse_text_body_style("**a*b**"),
        vec![plain("**a"), span(TextBodyStyle::Italic, "b"), plain("*")]
    );
}

#[test]
fn strong_closes_only_on_two_asterisks() {
    let found = lookup_until_close("**a*b", &RawStyle::Strong);
    assert_eq!(found.text_body, plain("**a"));
    assert_eq!(found.rest, "*b");
}

#[test]
fn italic_closes_on_the_first_of_two_asterisks() {
    let found = lookup_until_close("*a**b", &RawStyle::AsteriskItalic);
    assert_eq!(found.text_body, span(TextBodyStyle::Italic, "a"));
    assert_eq!(found.rest, "*b");
}

#[test]
fn italic_kind_on_a_double_asterisk_keeps_one_asterisk() {
    let found = lookup_until_close("**x", &RawStyle::AsteriskItalic);
    assert_eq!(found.text_body, plain("*"));
    assert_eq!(found.rest, "*x");
}

#[test]
fn unclosed_code_swallows_other_markers() {
    assert_eq!(parse_text_body_style("`a*b_c"), vec![plain("`a*b_c")]);
    assert_eq!(
        parse_text_body_style("x `a **b** c"),
        vec![plain("x "), plain("`a **b** c")]
    );
}

#[test]
fn two_unclosed_openings_are_not_merged() {
    assert_eq!(
        parse_text_body_style("_one *two"),
        vec![plain("_one "), plain("*two")]
    );
    assert_eq!(
        parse_text_body_style("**one *two"),
        vec![plain("**one "), plain("*two")]
    );
}

#[test]
fn second_asterisk_closes_the_first() {
    assert_eq!(
        parse_text_body_style("*one *two"),
        vec![span(TextBodyStyle::Italic, "one "), plain("two")]
    );
}

#[test]
fn code_between_stray_markers_is_still_code() {
    assert_eq!(
        parse_text_body_style("*`*`*`"),
        vec![plain("*"), span(TextBodyStyle::Code, "*"), plain("*"), plain("`")]
    );
}

#[test]
fn unclosed_strong_is_cut_at_the_next_marker() {
    assert_eq!(
        parse_text_body_style("**unclosed _next"),
        vec![plain("**unclosed "), plain("_next")]
    );
}

#[test]
fn unclosed_italic_at_end_of_input() {
    assert_eq!(parse_text_body_style("*unclosed"), vec![plain("*unclosed")]);
}

#[test]
fn closed_spans_round_trip() {
    assert_eq!(
        parse_text_body_style("**bold**"),
        vec![span(TextBodyStyle::Strong, "bold")]
    );
    assert_eq!(
        parse_text_body_style("*italic*"),
        vec![span(TextBodyStyle::Italic, "italic")]
    );
    assert_eq!(
        parse_text_body_style("_italic_"),
        vec![span(TextBodyStyle::Italic, "italic")]
    );
    assert_eq!(
        parse_text_body_style("`code`"),
        vec![span(TextBodyStyle::Code, "code")]
    );
}

#[test]
fn closed_spans_lose_their_delimiters_and_unclosed_ones_keep_them() {
    let closed = parse_text_body_style("**bold** and `code`");
    assert_eq!(joined(&closed), "bold and code");
    assert_ne!(joined(&closed), "**bold** and `code`");
    let unclosed = parse_text_body_style("**bold and `code");
    assert_eq!(joined(&unclosed), "**bold and `code");
    let mixed = parse_text_body_style("_it_ *open");
    assert_eq!(
        mixed,
        vec![span(TextBodyStyle::Italic, "it"), plain(" "), plain("*open")]
    );
    assert_eq!(joined(&mixed), "it *open");
}

#[test]
fn every_step_takes_at_least_one_character() {
    let inputs = ["*", "**", "***", "_", "`", "``", "a", "*a", "**a**", "`a`b", "_*`"];
    for input in inputs {
        let kind = check_head_symbol(input);
        let found = lookup_until_close(input, &kind);
        assert!(!found.text_body.value.is_empty(), "{input:?}");
        assert!(
            found.rest.chars().count() < input.chars().count(),
            "{input:?}"
        );
    }
}

#[test]
fn markers_only_give_at_most_one_span_per_character() {
    let inputs = ["*_`", "`_*", "_*_*_*", "***", "*****", "```", "___", "*_*_", "**_**"];
    for input in inputs {
        let spans = parse_text_body_style(input);
        assert!(!spans.is_empty(), "{input:?}");
        assert!(spans.len() <= input.chars().count(), "{input:?}");
        assert!(spans.iter().all(|one| !one.value.is_empty()), "{input:?}");
        assert!(
            spans.iter().all(|one| one.style == TextBodyStyle::Plain),
            "{input:?}"
        );
        assert_eq!(joined(&spans), input);
    }
}

#[test]
fn thousands_of_stray_markers_end() {
    let input = "_".repeat(5000);
    let spans = parse_text_body_style(&input);
    assert_eq!(spans.len(), 5000);
    assert!(spans.iter().all(|one| *one == plain("_")));
    let input = "*".repeat(5001);
    let spans = parse_text_body_style(&input);
    assert_eq!(spans.len(), 2501);
    assert_eq!(spans[0], plain("**"));
    assert_eq!(spans[2500], plain("*"));
}

#[test]
fn characters_outside_ascii_are_counted_as_one_each() {
    assert_eq!(
        parse_text_body_style("h\u{e9}llo **w\u{f6}rld** \u{2713} _\u{65e5}\u{672c}_"),
        vec![
            plain("h\u{e9}llo "),
            span(TextBodyStyle::Strong, "w\u{f6}rld"),
            plain(" \u{2713} "),
            span(TextBodyStyle::Italic, "\u{65e5}\u{672c}"),
        ]
    );
    let found = lookup_until_close("`\u{1f600}` \u{e9}", &RawStyle::Code);
    assert_eq!(found.text_body, span(TextBodyStyle::Code, "\u{1f600}"));
    assert_eq!(found.rest, " \u{e9}");
}

#[test]
fn line_breaks_are_ordinary_content() {
    assert_eq!(
        parse_text_body_style("**a\nb** c\n"),
        vec![span(TextBodyStyle::Strong, "a\nb"), plain(" c\n")]
    );
}

#[test]
fn raw_styles_map_to_the_four_visible_styles() {
    assert_eq!(
        convert_raw_style_to_text_body_style(&RawStyle::Plain),
        TextBodyStyle::Plain
    );
    assert_eq!(
        convert_raw_style_to_text_body_style(&RawStyle::Strong),
        TextBodyStyle::Strong
    );
    assert_eq!(
        convert_raw_style_to_text_body_style(&RawStyle::AsteriskItalic),
        TextBodyStyle::Italic
    );
    assert_eq!(
        convert_raw_style_to_text_body_style(&RawStyle::UnderscoreItalic),
        TextBodyStyle::Italic
    );
    assert_eq!(
        convert_raw_style_to_text_body_style(&RawStyle::Code),
        TextBodyStyle::Code
    );
}

#[test]
fn head_symbol_of_a_character_outside_ascii_is_plain() {
    assert!(matches!(check_head_symbol("\u{e9}*"), RawStyle::Plain));
    assert!(matches!(check_head_symbol("*\u{e9}"), RawStyle::AsteriskItalic));
}
