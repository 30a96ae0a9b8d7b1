use mdterm::line::line_to_plain_string;
use mdterm::line::StyledLine;
use mdterm::render_markdown_text;
use mdterm::render_markdown_text_with_width;
use mdterm::set_tables_enabled;
use mdterm::RenderConfig;

fn lines_to_strings(lines: &Vec<StyledLine>) -> Vec<String> {
    lines.iter().map(|l| line_to_plain_string(l)).collect()
}

#[test]
fn wraps_plain_text_when_width_provided() {
    let markdown = "This is a simple sentence that should wrap.";
    let config = RenderConfig::new();
    let rendered = render_markdown_text_with_width(markdown, Some(16), &config);
    let lines = lines_to_strings(&rendered);
    assert_eq!(
        lines,
        vec![
            "This is a simple".to_string(),
            "sentence that".to_string(),
            "should wrap.".to_string(),
        ]
    );
}

#[test]
fn wraps_list_items_preserving_indent() {
    let markdown = "- first second third fourth";
    let config = RenderConfig::new();
    let rendered = render_markdown_text_with_width(markdown, Some(14), &config);
    let lines = lines_to_strings(&rendered);
    assert_eq!(
        lines,
        vec!["- first second".to_string(), "  third fourth".to_string()]
    );
}

#[test]
fn wraps_nested_lists() {
    let markdown =
        "- outer item with several words to wrap\n  - inner item that also needs wrapping";
    let config = RenderConfig::new();
    let rendered = render_markdown_text_with_width(markdown, Some(20), &config);
    let lines = lines_to_strings(&rendered);
    assert_eq!(
        lines,
        vec![
            "- outer item with".to_string(),
            "  several words to".to_string(),
            "  wrap".to_string(),
            "    - inner item".to_string(),
            "      that also".to_string(),
            "      needs wrapping".to_string(),
        ]
    );
}

#[test]
fn wraps_ordered_lists() {
    let markdown = "1. ordered item contains many words for wrapping";
    let config = RenderConfig::new();
    let rendered = render_markdown_text_with_width(markdown, Some(18), &config);
    let lines = lines_to_strings(&rendered);
    assert_eq!(
        lines,
        vec![
            "1. ordered item".to_string(),
            "   contains many".to_string(),
            "   words for".to_string(),
            "   wrapping".to_string(),
        ]
    );
}

#[test]
fn wraps_blockquotes() {
    let markdown = "> block quote with content that should wrap nicely";
    let config = RenderConfig::new();
    let rendered = render_markdown_text_with_width(markdown, Some(22), &config);
    let lines = lines_to_strings(&rendered);
    assert_eq!(
        lines,
        vec![
            "> block quote with".to_string(),
            "> content that should".to_string(),
            "> wrap nicely".to_string(),
        ]
    );
}

#[test]
fn wraps_blockquotes_inside_lists() {
    let markdown = "- list item\n  > block quote inside list that wraps";
    let config = RenderConfig::new();
    let rendered = render_markdown_text_with_width(markdown, Some(24), &config);
    let lines = lines_to_strings(&rendered);
    assert_eq!(
        lines,
        vec![
            "- list item".to_string(),
            "  > block quote inside".to_string(),
            "  > list that wraps".to_string(),
        ]
    );
}

#[test]
fn wraps_list_items_containing_blockquotes() {
    let markdown = "1. item with quote\n   > quoted text that should wrap";
    let config = RenderConfig::new();
    let rendered = render_markdown_text_with_width(markdown, Some(24), &config);
    let lines = lines_to_strings(&rendered);
    assert_eq!(
        lines,
        vec![
            "1. item with quote".to_string(),
            "   > quoted text that".to_string(),
            "   > should wrap".to_string(),
        ]
    );
}

#[test]
fn does_not_wrap_code_blocks() {
    let markdown = "````\nfn main() { println!(\"hi from a long line\"); }\n````";
    let config = RenderConfig::new();
    let rendered = render_markdown_text_with_width(markdown, Some(10), &config);
    let lines = lines_to_strings(&rendered);
    assert_eq!(
        lines,
        vec!["fn main() { println!(\"hi from a long line\"); }".to_string()]
    );
}

#[test]
fn rendering_same_input_twice_is_identical() {
    let markdown = "# Title\n\nSome *styled* text with `code` and a [link](https://example.test).\n\n- one\n- two";
    let config = RenderConfig::new();
    let first = render_markdown_text_with_width(markdown, Some(30), &config);
    let second = render_markdown_text_with_width(markdown, Some(30), &config);
    assert_eq!(first, second);
}

#[test]
fn heading_inside_quote_keeps_heading_style() {
    let markdown = "> # Heading";
    let config = RenderConfig::new();
    let rendered = render_markdown_text_with_width(markdown, Some(40), &config);
    assert_eq!(lines_to_strings(&rendered), vec!["> # Heading".to_string()]);
    // The line's base style is the quote's green; the heading spans keep
    // their own bold and underline.
    let line = &rendered[0];
    assert_eq!(line.style.fg, Some(mdterm::style::TermColor::Green));
    let hash = line
        .spans
        .iter()
        .find(|s| s.text.contains('#'))
        .expect("heading marker span");
    assert!(hash.style.bold);
    assert!(hash.style.underlined);
}

#[test]
fn link_destination_is_appended() {
    let markdown = "see [docs](https://example.test)";
    let config = RenderConfig::new();
    let rendered = render_markdown_text(markdown, &config);
    let lines = lines_to_strings(&rendered);
    assert_eq!(lines, vec!["see docs (https://example.test)".to_string()]);
}

#[test]
fn rule_renders_as_dashes() {
    let markdown = "a\n\n---\n\nb";
    let config = RenderConfig::new();
    let rendered = render_markdown_text(markdown, &config);
    let lines = lines_to_strings(&rendered);
    assert_eq!(
        lines,
        vec![
            "a".to_string(),
            "".to_string(),
            "\u{2014}\u{2014}\u{2014}".to_string(),
            "".to_string(),
            "b".to_string(),
        ]
    );
}

#[test]
fn code_block_round_trips_under_any_width() {
    let body = "left  spaced      out\n\ttabbed\n    indented trailing   ";
    let markdown = format!("```\n{}\n```", body);
    for width in [1usize, 5, 8, 80] {
        let config = RenderConfig::new();
        let rendered = render_markdown_text_with_width(&markdown, Some(width), &config);
        let joined = lines_to_strings(&rendered).join("\n");
        assert_eq!(joined, body);
    }
}

#[test]
fn table_rendering_produces_borders() {
    let markdown = "| a | b |\n| 1 | 2 |";
    let mut config = RenderConfig::new();
    set_tables_enabled(&mut config, true);
    let rendered = render_markdown_text_with_width(markdown, Some(40), &config);
    let lines = lines_to_strings(&rendered);
    assert!(lines.len() >= 4, "expected a bordered table, got {lines:?}");
    assert!(lines[0].starts_with('\u{250c}'), "top border: {lines:?}");
    assert!(lines[lines.len() - 1].starts_with('\u{2514}'), "bottom border: {lines:?}");
    assert!(lines.iter().any(|l| l.contains('a') && l.contains('b')));
    assert!(lines.iter().any(|l| l.contains('1') && l.contains('2')));
}

#[test]
fn tables_disabled_renders_plain_text() {
    let markdown = "| a | b |";
    let config = RenderConfig::new();
    let rendered = render_markdown_text(markdown, &config);
    let lines = lines_to_strings(&rendered);
    assert_eq!(lines, vec!["| a | b |".to_string()]);
}

#[test]
fn crlf_line_splitting_drops_carriage_returns() {
    // The event-text splitter behaves like `str::lines`: a carriage return
    // before a split newline is dropped, a bare final one stays.
    let chars: Vec<char> = "a\r\nb\r\nc".chars().collect();
    let lines = mdterm::text::text_lines_exec(&chars);
    let strs: Vec<String> = lines.iter().map(|l| l.iter().collect()).collect();
    assert_eq!(strs, vec!["a".to_string(), "b".to_string(), "c".to_string()]);
    let tail: Vec<char> = "x\r".chars().collect();
    let lines2 = mdterm::text::text_lines_exec(&tail);
    let strs2: Vec<String> = lines2.iter().map(|l| l.iter().collect()).collect();
    assert_eq!(strs2, vec!["x\r".to_string()]);
}
