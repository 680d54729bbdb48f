use workspace_engine::review::{extract_valid_ids, parse_review_message};

#[test]
fn parse_pr_message_title_only() {
    let msg = parse_review_message("My PR Title").unwrap();
    assert_eq!(msg.title, "My PR Title");
    assert_eq!(msg.body, "");
}

#[test]
fn parse_pr_message_title_and_body() {
    let msg = parse_review_message("My PR Title\n\nThis is the body.").unwrap();
    assert_eq!(msg.title, "My PR Title");
    assert_eq!(msg.body, "This is the body.");
}

#[test]
fn parse_pr_message_multiline_body() {
    let msg = parse_review_message("Title\n\nLine 1\nLine 2\nLine 3").unwrap();
    assert_eq!(msg.title, "Title");
    assert_eq!(msg.body, "Line 1\nLine 2\nLine 3");
}

#[test]
fn parse_pr_message_skips_blank_lines_between_title_and_body() {
    let msg = parse_review_message("Title\n\n\n\nBody starts here").unwrap();
    assert_eq!(msg.title, "Title");
    assert_eq!(msg.body, "Body starts here");
}

#[test]
fn parse_pr_message_trims_whitespace() {
    let msg = parse_review_message("  Title with spaces  \n\n  Body with spaces  ").unwrap();
    assert_eq!(msg.title, "Title with spaces");
    assert_eq!(msg.body, "Body with spaces");
}

#[test]
fn parse_pr_message_empty_string_fails() {
    let result = parse_review_message("");
    assert!(result.is_err());
    assert!(result.unwrap_err().to_string().contains("empty PR title"));
}

#[test]
fn parse_pr_message_whitespace_only_fails() {
    let result = parse_review_message("   \n\n   ");
    assert!(result.is_err());
    assert!(result.unwrap_err().to_string().contains("empty PR title"));
}

#[test]
fn parse_pr_message_blank_first_line_fails() {
    let result = parse_review_message("\nActual title on second line");
    assert!(result.is_err());
    assert!(result.unwrap_err().to_string().contains("empty PR title"));
}

#[test]
fn extract_valid_ids_parses_comma_separated_numbers() {
    let ids = extract_valid_ids("1,2,3");
    assert_eq!(ids, vec![1, 2, 3]);
}

#[test]
fn extract_valid_ids_trims_whitespace() {
    let ids = extract_valid_ids(" 1,  2 ,   3 ");
    assert_eq!(ids, vec![1, 2, 3]);
}

#[test]
fn extract_valid_ids_ignores_invalid_entries() {
    let ids = extract_valid_ids("1,abc,3,-5,4.2,,0");
    assert_eq!(ids, vec![1, 3, 0]);
}

#[test]
fn extract_valid_ids_empty_input_returns_empty_vec() {
    let ids = extract_valid_ids("");
    assert!(ids.is_empty());
}
