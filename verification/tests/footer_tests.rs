use mdterm::footer::UnifiedExecFooter;
use mdterm::footer::UnifiedExecProcessDetails;
use mdterm::line::StyledLine;

fn render_text(footer: &UnifiedExecFooter, width: u16) -> String {
    footer
        .render_lines(width)
        .iter()
        .map(|line: &StyledLine| {
            line.spans
                .iter()
                .map(|span| span.text.clone())
                .collect::<String>()
        })
        .collect::<Vec<_>>()
        .join("\n")
}

#[test]
fn desired_height_empty() {
    let footer = UnifiedExecFooter::new();
    assert_eq!(footer.desired_height(40), 0);
}

#[test]
fn narrow_width_does_not_reference_ps() {
    let mut footer = UnifiedExecFooter::new();
    footer.set_processes(vec![UnifiedExecProcessDetails {
        command_display: "cargo test -p codex-core".to_string(),
        recent_chunks: Vec::new(),
    }]);
    let rendered = render_text(&footer, 10);
    assert!(
        !rendered.contains("/ps"),
        "expected footer to avoid /ps hint, got: {rendered:?}"
    );
}

#[test]
fn multiline_processes_show_truncated_snippet() {
    let mut footer = UnifiedExecFooter::new();
    footer.set_processes(vec![UnifiedExecProcessDetails {
        command_display: "echo hello\nand then continue".to_string(),
        recent_chunks: Vec::new(),
    }]);
    let rendered = render_text(&footer, 80);
    assert!(rendered.contains("echo hello"));
    assert!(rendered.contains("[...]"));
    assert!(!rendered.contains("and then continue"));
}

#[test]
fn set_processes_reports_changes() {
    let mut footer = UnifiedExecFooter::new();
    assert!(footer.is_empty());
    let procs = vec![UnifiedExecProcessDetails {
        command_display: "sleep 5".to_string(),
        recent_chunks: vec!["zzz".to_string()],
    }];
    let same = vec![UnifiedExecProcessDetails {
        command_display: "sleep 5".to_string(),
        recent_chunks: vec!["zzz".to_string()],
    }];
    assert!(footer.set_processes(procs));
    assert!(!footer.is_empty());
    assert!(!footer.set_processes(same));
    assert!(footer.set_processes(Vec::new()));
    assert!(footer.is_empty());
}

#[test]
fn process_snippet_splits_first_line() {
    let (first, hidden) = UnifiedExecFooter::process_snippet("a\nb\nc");
    assert_eq!(first, "a");
    assert!(hidden);
    let (whole, hidden2) = UnifiedExecFooter::process_snippet("single");
    assert_eq!(whole, "single");
    assert!(!hidden2);
}

#[test]
fn footer_header_counts_processes() {
    let mut footer = UnifiedExecFooter::new();
    footer.set_processes(
        (0..3)
            .map(|idx| UnifiedExecProcessDetails {
                command_display: format!("cmd {idx}"),
                recent_chunks: Vec::new(),
            })
            .collect(),
    );
    let rendered = render_text(&footer, 50);
    let lines: Vec<&str> = rendered.split('\n').collect();
    assert_eq!(lines[0], "  3 background terminals running");
    assert_eq!(lines.len(), 4);
    assert!(lines[1].contains("cmd 0"));
}

#[test]
fn footer_caps_at_sixteen_processes() {
    let mut footer = UnifiedExecFooter::new();
    footer.set_processes(
        (0..20)
            .map(|idx| UnifiedExecProcessDetails {
                command_display: format!("cmd {idx}"),
                recent_chunks: Vec::new(),
            })
            .collect(),
    );
    let rendered = render_text(&footer, 50);
    let lines: Vec<&str> = rendered.split('\n').collect();
    // Header, sixteen processes, and the trailing count.
    assert_eq!(lines.len(), 18);
    assert!(lines[17].contains("... and 4 more running"));
}

#[test]
fn footer_chunks_use_arrow_then_blank_prefix() {
    let mut footer = UnifiedExecFooter::new();
    footer.set_processes(vec![UnifiedExecProcessDetails {
        command_display: "make".to_string(),
        recent_chunks: vec!["first out".to_string(), "second out".to_string()],
    }]);
    let rendered = render_text(&footer, 40);
    let lines: Vec<&str> = rendered.split('\n').collect();
    assert_eq!(lines[2], "    \u{21b3} first out");
    assert_eq!(lines[3], "      second out");
}
