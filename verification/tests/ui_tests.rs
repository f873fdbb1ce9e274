use tudo::ui::{cursor_visual_position, truncate_str, wrap_lines, wrap_str};

// ── wrap_str ──────────────────────────────────────────────────────────────

#[test]
fn wrap_ascii_short_no_wrap() {
    assert_eq!(wrap_str("hello", 10), vec!["hello"]);
}

#[test]
fn wrap_ascii_exact_width() {
    assert_eq!(wrap_str("abcde", 5), vec!["abcde"]);
}

#[test]
fn wrap_ascii_splits() {
    assert_eq!(wrap_str("abcdefgh", 5), vec!["abcde", "fgh"]);
}

#[test]
fn wrap_cjk_respects_double_width() {
    // Each CJK char = 2 cols. With max_width=6, only 3 chars fit per line.
    let s = "あいうえお";
    let result = wrap_str(s, 6);
    assert_eq!(result, vec!["あいう", "えお"]);
}

#[test]
fn wrap_cjk_exact_width() {
    assert_eq!(wrap_str("あいう", 6), vec!["あいう"]);
}

#[test]
fn wrap_mixed_ascii_and_cjk() {
    let s = "aあbcう";
    let result = wrap_str(s, 4);
    assert_eq!(result, vec!["aあb", "cう"]);
}

#[test]
fn wrap_cjk_boundary_breaks_before_overflow() {
    let s = "あいう";
    let result = wrap_str(s, 5);
    assert_eq!(result, vec!["あい", "う"]);
}

#[test]
fn wrap_zero_width_returns_whole_string() {
    assert_eq!(wrap_str("test", 0), vec!["test"]);
}

#[test]
fn wrap_empty_string() {
    assert_eq!(wrap_str("", 10), vec![""]);
}

// ── truncate_str ──────────────────────────────────────────────────────────

#[test]
fn truncate_ascii_short_no_truncation() {
    assert_eq!(truncate_str("hello", 10), "hello");
}

#[test]
fn truncate_ascii_exact_width() {
    assert_eq!(truncate_str("abcde", 5), "abcde");
}

#[test]
fn truncate_ascii_adds_ellipsis() {
    assert_eq!(truncate_str("abcdefgh", 5), "abcde…");
}

#[test]
fn truncate_cjk_respects_double_width() {
    assert_eq!(truncate_str("あいうえお", 5), "あい…");
}

#[test]
fn truncate_cjk_exact_fit() {
    assert_eq!(truncate_str("あいう", 6), "あいう");
}

#[test]
fn truncate_mixed_ascii_and_cjk() {
    assert_eq!(truncate_str("aあbc", 4), "aあb…");
}

#[test]
fn truncate_empty_string() {
    assert_eq!(truncate_str("", 10), "");
}

// ── wrap_lines (multi-line detail) ────────────────────────────────────────

#[test]
fn wrap_lines_ascii_multiline() {
    let result = wrap_lines("hello\nworld", 4);
    assert_eq!(result, vec!["hell", "o", "worl", "d"]);
}

#[test]
fn wrap_lines_cjk_multiline() {
    let result = wrap_lines("あい\nうえ", 4);
    assert_eq!(result, vec!["あい", "うえ"]);
}

#[test]
fn wrap_lines_mixed_multiline() {
    let result = wrap_lines("aあ\nbい", 3);
    assert_eq!(result, vec!["aあ", "bい"]);
}

#[test]
fn wrap_lines_single_line_unchanged() {
    let result = wrap_lines("hello", 10);
    assert_eq!(result, vec!["hello"]);
}

#[test]
fn wrap_lines_cjk_at_boundary_1col_remaining_wraps() {
    let result = wrap_lines("abあ", 3);
    assert_eq!(result, vec!["ab", "あ"]);
}

#[test]
fn wrap_lines_cjk_exactly_fills_width_no_extra_wrap() {
    let result = wrap_lines("aあ", 3);
    assert_eq!(result, vec!["aあ"]);
}

// ── cursor_visual_position ────────────────────────────────────────────────

#[test]
fn cursor_visual_pos_empty_buffer() {
    assert_eq!(cursor_visual_position("", 0, 10), (0, 0));
}

#[test]
fn cursor_visual_pos_ascii_no_wrap() {
    assert_eq!(cursor_visual_position("hello", 3, 10), (0, 3));
}

#[test]
fn cursor_visual_pos_ascii_at_end() {
    assert_eq!(cursor_visual_position("hello", 5, 10), (0, 5));
}

#[test]
fn cursor_visual_pos_wraps_to_next_row() {
    assert_eq!(cursor_visual_position("hello world", 8, 5), (1, 3));
}

#[test]
fn cursor_visual_pos_with_newline() {
    assert_eq!(cursor_visual_position("hi\nworld", 5, 10), (1, 2));
}

#[test]
fn cursor_visual_pos_cjk() {
    assert_eq!(cursor_visual_position("あいう", 9, 4), (1, 2));
}

#[test]
fn cursor_visual_pos_cjk_mid() {
    assert_eq!(cursor_visual_position("あいう", 3, 4), (0, 2));
}

#[test]
fn cursor_visual_pos_at_newline_char() {
    assert_eq!(cursor_visual_position("hello\nworld", 5, 10), (0, 5));
}

#[test]
fn cursor_visual_pos_start_of_second_line() {
    assert_eq!(cursor_visual_position("hello\nworld", 6, 10), (1, 0));
}
