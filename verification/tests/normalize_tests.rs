use mdterm::normalize::build_pipe_table_separator;
use mdterm::normalize::is_box_table_line;
use mdterm::normalize::is_pipe_table_line;
use mdterm::normalize::is_pipe_table_separator;
use mdterm::normalize::normalize_table_blocks;
use mdterm::normalize::split_table_prefix;
use mdterm::normalize::strip_prefix;

#[test]
fn synthesizes_missing_separator_row() {
    let input = "| a | b |\n| 1 | 2 |\nafter";
    let out = normalize_table_blocks(input);
    assert_eq!(out, "| a | b |\n| --- | --- |\n| 1 | 2 |\n\nafter");
}

#[test]
fn separator_count_matches_header_cells() {
    let input = "| a | b | c |";
    let out = normalize_table_blocks(input);
    assert_eq!(out, "| a | b | c |\n| --- | --- | --- |\n");
}

#[test]
fn valid_table_block_is_kept() {
    let input = "| a |\n| --- |\n\ntail";
    let out = normalize_table_blocks(input);
    assert_eq!(out, input);
}

#[test]
fn normalization_is_idempotent_on_valid_block_text() {
    let input = "| a | b |\n| --- | --- |\n| 1 | 2 |\n\ntail";
    let once = normalize_table_blocks(input);
    assert_eq!(once, input);
    let twice = normalize_table_blocks(&once);
    assert_eq!(twice, once);
}

#[test]
fn normalization_is_idempotent_with_trailing_newline() {
    let input = "| a |\n| --- |\n";
    let once = normalize_table_blocks(input);
    assert_eq!(once, input);
    assert_eq!(normalize_table_blocks(&once), once);
    let repaired = normalize_table_blocks("| a | b |\n");
    assert_eq!(repaired, "| a | b |\n| --- | --- |\n");
    assert_eq!(normalize_table_blocks(&repaired), repaired);
}

#[test]
fn drops_box_drawing_lines() {
    let input = "\u{250c}\u{2500}\u{2510}\nplain";
    let out = normalize_table_blocks(input);
    assert_eq!(out, "plain");
}

#[test]
fn quoted_table_prefix_is_stripped() {
    let input = "> | a |\n> | 1 |";
    let out = normalize_table_blocks(input);
    assert_eq!(out, "| a |\n| --- |\n| 1 |\n");
}

#[test]
fn plain_text_passes_through() {
    let out = normalize_table_blocks("one\ntwo\n");
    assert_eq!(out, "one\ntwo\n");
    let out2 = normalize_table_blocks("one\ntwo");
    assert_eq!(out2, "one\ntwo");
}

#[test]
fn split_table_prefix_handles_quotes_and_markers() {
    let (n, rest) = split_table_prefix("  > - | a |").expect("split");
    assert_eq!(n, 6);
    assert_eq!(rest, "| a |");
    let (n2, rest2) = split_table_prefix("12. | x |").expect("split");
    assert_eq!(n2, 4);
    assert_eq!(rest2, "| x |");
    assert!(split_table_prefix("").is_none());
}

#[test]
fn strip_prefix_truncates_short_lines() {
    assert_eq!(strip_prefix("abcdef", 2), "cdef");
    assert_eq!(strip_prefix("ab", 5), "");
}

#[test]
fn classifies_separator_and_table_lines() {
    assert!(is_pipe_table_separator(" | --- | :-: | "));
    assert!(!is_pipe_table_separator("| a |"));
    assert!(!is_pipe_table_separator("---"));
    assert!(is_pipe_table_line("| a |"));
    assert!(!is_pipe_table_line("| --- |"));
    assert!(!is_pipe_table_line("plain"));
    assert!(is_box_table_line("  \u{2502} x \u{2502}"));
    assert!(!is_box_table_line("| x |"));
}

#[test]
fn builds_separator_from_first_pipe_row() {
    let rows = vec!["| a | b |".to_string(), "| 1 | 2 |".to_string()];
    assert_eq!(build_pipe_table_separator(&rows), Some("| --- | --- |".to_string()));
    let no_rows: Vec<String> = Vec::new();
    assert_eq!(build_pipe_table_separator(&no_rows), None);
    let lone = vec!["|".to_string()];
    assert_eq!(build_pipe_table_separator(&lone), None);
}
