use zed_ctrmml::context::{
    has_pcm_token_before, is_at_number, is_in_comment, is_instrument_definition_context,
    is_quoted, is_rate_offset_context, meta_prefix_start_col, string_prefix,
    tokenize_outside_quotes,
};
use zed_ctrmml::text::line_at;

#[test]
fn line_at_splits_on_line_feeds() {
    let text = "a\r\nb\n\nc";
    assert_eq!(line_at(text, 0), Some("a".to_string()));
    assert_eq!(line_at(text, 1), Some("b".to_string()));
    assert_eq!(line_at(text, 2), Some("".to_string()));
    assert_eq!(line_at(text, 3), Some("c".to_string()));
    assert_eq!(line_at(text, 4), None);
}

#[test]
fn line_at_final_line_ending_adds_no_line() {
    assert_eq!(line_at("x\n", 0), Some("x".to_string()));
    assert_eq!(line_at("x\n", 1), None);
    assert_eq!(line_at("", 0), None);
    assert_eq!(line_at("a\rb", 0), Some("a\rb".to_string()));
    assert_eq!(line_at("a\r", 0), Some("a\r".to_string()));
}

#[test]
fn meta_start_after_last_hash() {
    assert_eq!(meta_prefix_start_col("#ti", 3), 1);
    assert_eq!(meta_prefix_start_col("#a #b", 5), 4);
    assert_eq!(meta_prefix_start_col("abc", 2), 2);
    // 'é' takes two bytes: the '#' stands at byte 2.
    assert_eq!(meta_prefix_start_col("é#x", 4), 3);
    // Column 1 falls inside 'é': the cursor column is kept.
    assert_eq!(meta_prefix_start_col("é#x", 1), 1);
    // Past the end of the line.
    assert_eq!(meta_prefix_start_col("#x", 9), 9);
}

#[test]
fn string_prefix_inside_open_string() {
    let line = "@1 pcm \"sa";
    assert_eq!(string_prefix(line, 10), Some(("sa".to_string(), 8)));
    assert_eq!(string_prefix(line, 8), Some(("".to_string(), 8)));
    assert_eq!(string_prefix(line, 7), None);
    assert_eq!(string_prefix("\"a\" b", 5), None);
    assert_eq!(string_prefix("\"é\" \"ü", 8), Some(("ü".to_string(), 6)));
    assert_eq!(string_prefix("\"x", 20), None);
}

#[test]
fn pcm_token_must_be_a_whole_word() {
    assert!(has_pcm_token_before("@1 pcm \"x", 8));
    assert!(has_pcm_token_before("pcm", 3));
    assert!(!has_pcm_token_before("@1 pcmx \"", 9));
    assert!(!has_pcm_token_before("@1 xpcm \"", 9));
    assert!(!has_pcm_token_before("@1 pcm \"x", 5));
    assert!(has_pcm_token_before("@1\tpcm\u{3000}\"x", 11));
}

#[test]
fn instrument_definition_context_needs_at_digits_space() {
    assert!(is_instrument_definition_context("  @12 ", 6));
    assert!(is_instrument_definition_context("@1 ", 3));
    assert!(!is_instrument_definition_context("@ ", 2));
    assert!(!is_instrument_definition_context("@12x ", 5));
    assert!(!is_instrument_definition_context("@12  ", 5));
    assert!(!is_instrument_definition_context("@12", 3));
    assert!(!is_instrument_definition_context("@12 ", 9));
}

#[test]
fn rate_offset_context_after_pcm_definition() {
    assert!(is_rate_offset_context("@1 pcm \"a.wav\" ", 15));
    assert!(is_rate_offset_context("@1 pcm \"a b.wav\" ", 17));
    assert!(!is_rate_offset_context("@1 pcm \"a.wav\"", 14));
    assert!(!is_rate_offset_context("@1 fm \"a.wav\" ", 14));
    assert!(!is_rate_offset_context("@x pcm \"a.wav\" ", 15));
    assert!(!is_rate_offset_context("@1 pcm \"a.wav\" 1 ", 17));
}

#[test]
fn comment_starts_outside_strings() {
    assert!(is_in_comment("c ; x", 4));
    assert!(!is_in_comment("c ; x", 2));
    assert!(!is_in_comment("\";\" x", 5));
    assert!(is_in_comment("\";\" ;", 5));
    assert!(!is_in_comment("c ; x", 40));
}

#[test]
fn tokenizer_keeps_quoted_spaces() {
    assert_eq!(
        tokenize_outside_quotes("a \"b c\"  d"),
        vec!["a".to_string(), "\"b c\"".to_string(), "d".to_string()]
    );
    assert_eq!(tokenize_outside_quotes("   "), Vec::<String>::new());
    assert_eq!(tokenize_outside_quotes("x\"y z"), vec!["x\"y z".to_string()]);
}

#[test]
fn at_number_and_quoted_tokens() {
    assert!(is_at_number("@12"));
    assert!(!is_at_number("@"));
    assert!(!is_at_number("@1a"));
    assert!(!is_at_number("12"));
    assert!(is_quoted("\"\""));
    assert!(is_quoted("\"a.wav\""));
    assert!(!is_quoted("\""));
    assert!(!is_quoted("\"a"));
}

#[test]
fn tokenizer_without_quotes_splits_on_white_space() {
    for input in ["a b\tc", "  @1   pcm ", "x\u{3000}y\u{a0}z", ""] {
        let expected: Vec<String> = input.split_whitespace().map(String::from).collect();
        assert_eq!(tokenize_outside_quotes(input), expected);
    }
}

#[test]
fn comment_extends_to_the_right() {
    let line = "A c ; \"x\" é";
    assert!(is_in_comment(line, 5));
    for col in [6, 8, 10, 12] {
        assert!(is_in_comment(line, col));
    }
}
