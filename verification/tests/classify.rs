use open_responses::classifier::{analyze_reasoning, classify, estimate_tokens};
use open_responses::strutil::truncate_for_display;
use open_responses::items::ResponseItem;
use open_responses::reasoning::ReasoningLevel;

fn item(
    item_type: &str,
    content: Option<&str>,
    summary: Option<&str>,
    encrypted_content: Option<&str>,
) -> ResponseItem {
    ResponseItem {
        item_type: item_type.to_string(),
        content: content.map(|s| s.to_string()),
        summary: summary.map(|s| s.to_string()),
        encrypted_content: encrypted_content.map(|s| s.to_string()),
        name: None,
        arguments: None,
        id: None,
        tool_call_id: None,
    }
}

#[test]
fn raw_content_classifies_as_raw() {
    let it = item("reasoning", Some("step by step"), None, None);
    let (level, text) = classify(&it);
    assert_eq!(level, ReasoningLevel::Raw);
    assert_eq!(text, "step by step");
}

#[test]
fn content_takes_precedence_over_summary() {
    let it = item("reasoning", Some("draft"), Some("s"), None);
    let (level, text) = classify(&it);
    assert_eq!(level, ReasoningLevel::Raw);
    assert_eq!(text, "draft");
}

#[test]
fn summary_wins_when_encrypted_beside_content() {
    let it = item("reasoning", Some("raw"), Some("short"), Some("blob"));
    let (level, text) = classify(&it);
    assert_eq!(level, ReasoningLevel::Summary);
    assert_eq!(text, "short");
}

#[test]
fn encrypted_only_classifies_as_encrypted() {
    let it = item("reasoning", None, None, Some("0123456789abcdef"));
    let (level, text) = classify(&it);
    assert_eq!(level, ReasoningLevel::Encrypted);
    assert_eq!(text, "[encrypted]");
}

#[test]
fn non_reasoning_item_has_no_level() {
    let it = item("message", Some("hello"), None, None);
    let (level, text) = classify(&it);
    assert_eq!(level, ReasoningLevel::Absent);
    assert_eq!(text, "");
}

#[test]
fn empty_reasoning_item_has_no_level() {
    let it = item("reasoning", None, None, None);
    let (level, text) = classify(&it);
    assert_eq!(level, ReasoningLevel::Absent);
    assert_eq!(text, "");
}

#[test]
fn level_names() {
    assert_eq!(ReasoningLevel::Raw.as_str(), "RAW");
    assert_eq!(ReasoningLevel::Summary.as_str(), "SUMMARY");
    assert_eq!(ReasoningLevel::Encrypted.as_str(), "ENCRYPTED");
    assert_eq!(ReasoningLevel::Absent.as_str(), "NONE");
}

#[test]
fn truncation_keeps_short_text_and_cuts_long_text() {
    assert_eq!(truncate_for_display("short", 200), "short");
    assert_eq!(truncate_for_display("abcdefghij", 4), "abcd...");
    assert_eq!(truncate_for_display("", 0), "");
    assert_eq!(truncate_for_display("xy", 2), "xy");
}

#[test]
fn token_estimate_rounds_down() {
    assert_eq!(estimate_tokens(""), 0);
    assert_eq!(estimate_tokens("abc"), 0);
    assert_eq!(estimate_tokens("abcd"), 1);
    assert_eq!(estimate_tokens("abcdefghi"), 2);
}

#[test]
fn encrypted_items_contribute_zero_tokens() {
    let items = vec![item(
        "reasoning",
        None,
        None,
        Some("a very long encrypted payload that should not count"),
    )];
    let (level, tokens) = analyze_reasoning(&items);
    assert_eq!(level, ReasoningLevel::Encrypted);
    assert_eq!(tokens, 0);
}

#[test]
fn aggregate_takes_highest_fidelity_and_sums_tokens() {
    let items = vec![
        item("reasoning", None, None, Some("encrypted-blob")),
        item("reasoning", None, Some("12345678"), None),
        item("reasoning", Some("abcdefghabcdefgh"), None, None),
        item("message", Some("done"), None, None),
    ];
    let (level, tokens) = analyze_reasoning(&items);
    assert_eq!(level, ReasoningLevel::Raw);
    // 8/4 from the summary plus 16/4 from the raw trace; encrypted adds zero
    assert_eq!(tokens, 2 + 4);
}
