use unicode_width::UnicodeWidthStr;
use workspace_engine::text::{strip_ansi_codes, truncate_text};

#[test]
fn text_at_exact_limit_is_not_truncated() {
    assert_eq!(truncate_text("hello", 5), "hello");
}

#[test]
fn text_exceeding_limit_is_truncated_with_ellipsis() {
    assert_eq!(truncate_text("hello world", 5), "hell…");
}

#[test]
fn truncation_does_not_drop_plain_text_when_boundary_ends_with_m() {
    assert_eq!(truncate_text("lorem ipsum", 5), "lore…");
}

#[test]
fn max_width_of_two_keeps_one_character_plus_ellipsis() {
    assert_eq!(truncate_text("hello", 2), "h…");
}

#[test]
fn empty_text_stays_empty() {
    assert_eq!(truncate_text("", 10), "");
}

#[test]
fn max_width_of_zero_gives_empty_string() {
    assert_eq!(truncate_text("hello", 0), "");
}

#[test]
fn max_width_of_one_gives_ellipsis_only() {
    assert_eq!(truncate_text("hello", 1), "…");
}

#[test]
fn unicode_single_width_characters() {
    assert_eq!(
        truncate_text("über-cool", 5),
        "über…",
        "ü is a single-width character (1 display column"
    );
}

#[test]
fn cjk_double_width_characters() {
    // Each CJK character occupies 2 display columns.
    assert_eq!(
        truncate_text("你好世界", 5),
        "你好…",
        "你(2) + 好(2) = 4 cols, + …(1) = 5 cols total."
    );
    assert_eq!(truncate_text("你好世界", 5).width(), 5);
}

#[test]
fn cjk_does_not_exceed_max_width() {
    // With max_width 4, a second CJK char (2 cols) leaves no room
    // for the ellipsis alongside it, so only the first char + … fits.
    let result = truncate_text("你好世界", 4);
    assert_eq!(result.width(), 3, "你(2) + …(1) = 3 cols ≤ 4");
    assert_eq!(result, "你…");
}

#[test]
fn truncation_preserves_exact_boundary() {
    let msg = "this is a overly long commit message to demonstrate truncation";
    let result = truncate_text(msg, 60);
    assert!(result.ends_with('…'));
    assert_eq!(
        result.width(),
        60,
        "For ASCII text, display width == char count"
    );
}

#[test]
fn emoji_characters() {
    // Many emoji are wide characters; ensure we respect their display width.
    let single = "🙂";
    let single_width = single.width();
    assert!(single_width >= 1);
    // A single emoji that fits within max_width should not be truncated.
    assert_eq!(truncate_text(single, single_width), single);
    // Repeated emoji should be truncated without exceeding max_width.
    let repeated = "🙂🙂🙂";
    let result = truncate_text(repeated, single_width * 2 + 1);
    assert_eq!(result, "🙂🙂…");

    let result = truncate_text(repeated, single_width * 2);
    assert_eq!(
        result, "🙂…",
        "4 columns aren't enough, so we use less than the allowed width"
    );
}

#[test]
fn zero_width_combining_characters_are_handled() {
    let text = "a\u{0301}";
    assert_eq!(
        text.width(),
        1,
        "'a' + COMBINING ACUTE ACCENT; display width should be 1."
    );
    assert_eq!(
        truncate_text(text, 1),
        text,
        "With max_width equal to the display width, no truncation should occur."
    );
}

#[test]
fn ansi_codes_only_produce_no_visible_output_within_width() {
    let just_color = "\x1b[31m\x1b[0m";
    let max_width = 5;
    assert!(
        max_width < just_color.width(),
        "Naive counting would want to truncate this string"
    );
    assert_eq!(
        truncate_text(just_color, max_width),
        just_color,
        "nothing changes as non-printing characters don't participate"
    );
}

#[test]
fn ansi_colored_text_is_truncated_without_counting_escapes() {
    // "\x1b[31m" = red, "\x1b[0m" = reset — both zero-width.
    let colored = "\x1b[31mhello world\x1b[0m";
    let result = truncate_text(colored, 5);
    assert_eq!(
            result, "\x1b[31mhell…",
            "The ANSI prefix should be preserved and the visible text truncated to 4 chars + ellipsis.
            This also means we will remove relevant ansi codes."
        );
}

#[test]
fn broken_ansi_sequence_is_handled_without_panic() {
    let broken = "hello world\x1b[31broken";
    assert_eq!(
        strip_ansi_codes(broken),
        "hello world",
        "Missing the terminating 'm' after the CSI sequence is fine,
        but it hides everything after"
    );
}

#[test]
fn plain_text_is_unchanged_by_strip_ansi() {
    assert_eq!(strip_ansi_codes("hello world"), "hello world");
}

#[test]
fn strip_ansi_removes_color_codes() {
    let colored = "\x1b[31mhello\x1b[0m world";
    assert_eq!(strip_ansi_codes(colored), "hello world");
}
