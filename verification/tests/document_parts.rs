use docmark::parser::document::{split, split_found, SplitResult, SPLIT_PATTERN};
use docmark::parser::frontmatter::FRONTMATTER_PATTERN;

fn text(value: &str) -> Option<String> {
    Some(value.to_string())
}

#[test]
fn search_without_a_match_leaves_the_input_as_body() {
    let found = split_found("  as it stands \n", &None);
    assert_eq!(found.head, "");
    assert_eq!(found.body, "  as it stands \n");
}

#[test]
fn search_with_too_few_groups_leaves_the_input_as_body() {
    let found = split_found("input", &Some(vec![]));
    assert_eq!(found, SplitResult { head: String::new(), body: "input".to_string() });
    let found = split_found("input", &Some(vec![text("whole"), text("head")]));
    assert_eq!(found, SplitResult { head: String::new(), body: "input".to_string() });
}

#[test]
fn search_with_a_group_that_took_no_part_leaves_the_input_as_body() {
    let found = split_found("input", &Some(vec![text("whole"), None, text("rest")]));
    assert_eq!(found, SplitResult { head: String::new(), body: "input".to_string() });
    let found = split_found("input", &Some(vec![text("whole"), text("head"), None]));
    assert_eq!(found, SplitResult { head: String::new(), body: "input".to_string() });
}

#[test]
fn search_with_both_groups_gives_head_and_trimmed_body() {
    let groups = Some(vec![text("whole"), text("---\nk: v\n---"), text(" \n body text \n ")]);
    let found = split_found("input", &groups);
    assert_eq!(found.head, "---\nk: v\n---");
    assert_eq!(found.body, "body text");
}

#[test]
fn body_without_header_is_not_trimmed() {
    let found = split("  \n no header here \n ");
    assert_eq!(found.head, "");
    assert_eq!(found.body, "  \n no header here \n ");
}

#[test]
fn header_ends_at_the_first_three_dashes_behind_its_opening() {
    let found = split("---\na: b --- c\n---\nbody");
    assert_eq!(found.head, "---\na: b ---");
    assert_eq!(found.body, "c\n---\nbody");
}

#[test]
fn header_must_open_with_dashes_and_a_line_break() {
    let found = split("--- a ---\nbody");
    assert_eq!(found.head, "");
    assert_eq!(found.body, "--- a ---\nbody");
    let found = split("text\n---\na: b\n---\nbody");
    assert_eq!(found.head, "");
    assert_eq!(found.body, "text\n---\na: b\n---\nbody");
}

#[test]
fn line_breaks_between_header_and_body_are_dropped() {
    let found = split("---\na: b\n---\n\n\n\n  body  \n\n");
    assert_eq!(found.head, "---\na: b\n---");
    assert_eq!(found.body, "body");
}

#[test]
fn split_keeps_characters_outside_ascii() {
    let found = split("\u{3000}---\ntitre: \u{e9}t\u{e9}\n---\n\u{65e5}\u{672c}\u{8a9e}\u{a0}");
    assert_eq!(found.head, "---\ntitre: \u{e9}t\u{e9}\n---");
    assert_eq!(found.body, "\u{65e5}\u{672c}\u{8a9e}");
}

#[test]
fn patterns_are_the_documented_ones() {
    assert_eq!(SPLIT_PATTERN, "^(---\\n[\\s\\S]*?---)\\n*([\\s\\S]*)$");
    assert_eq!(FRONTMATTER_PATTERN, "---\\n+([\\s\\S]+)---");
}
