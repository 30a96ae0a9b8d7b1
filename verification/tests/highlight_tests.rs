use mdterm::highlight::highlight_bash_to_lines;
use mdterm::highlight::highlight_to_lines;
use mdterm::language::HighlightLanguage;
use mdterm::line::StyledLine;

fn reconstructed(lines: &Vec<StyledLine>) -> String {
    lines
        .iter()
        .map(|l| {
            l.spans
                .iter()
                .map(|sp| sp.text.clone())
                .collect::<String>()
        })
        .collect::<Vec<_>>()
        .join("\n")
}

fn dimmed_tokens(lines: &Vec<StyledLine>) -> Vec<String> {
    lines
        .iter()
        .flat_map(|l| l.spans.iter())
        .filter(|sp| sp.style.dim)
        .map(|sp| sp.text.trim().to_string())
        .filter(|token| !token.is_empty())
        .collect()
}

#[test]
fn dims_expected_bash_operators() {
    let s = "echo foo && bar || baz | qux & (echo hi)";
    let lines = highlight_bash_to_lines(s);
    assert_eq!(reconstructed(&lines), s);

    let dimmed = dimmed_tokens(&lines);
    assert!(dimmed.contains(&"&&".to_string()));
    assert!(dimmed.contains(&"|".to_string()));
    assert!(!dimmed.contains(&"echo".to_string()));
}

#[test]
fn dims_redirects_and_strings() {
    let s = "echo \"hi\" > out.txt; echo 'ok'";
    let lines = highlight_bash_to_lines(s);
    assert_eq!(reconstructed(&lines), s);

    let dimmed = dimmed_tokens(&lines);
    assert!(dimmed.contains(&">".to_string()));
    assert!(dimmed.contains(&"\"hi\"".to_string()));
    assert!(dimmed.contains(&"'ok'".to_string()));
}

#[test]
fn highlights_command_and_strings() {
    let s = "echo \"hi\"";
    let lines = highlight_bash_to_lines(s);
    let mut echo_style = None;
    let mut string_style = None;
    for span in &lines[0].spans {
        if span.text == "echo" {
            echo_style = Some(span.style);
        }
        if span.text == "\"hi\"" {
            string_style = Some(span.style);
        }
    }
    let echo_style = echo_style.expect("echo span missing");
    let string_style = string_style.expect("string span missing");
    assert!(echo_style.fg.is_none());
    assert!(!echo_style.dim);
    assert!(string_style.dim);
}

#[test]
fn highlights_heredoc_body_as_string() {
    let s = "cat <<EOF\nheredoc body\nEOF";
    let lines = highlight_bash_to_lines(s);
    let body_line = &lines[1];
    let mut body_style = None;
    for span in &body_line.spans {
        if span.text == "heredoc body" {
            body_style = Some(span.style);
        }
    }
    let body_style = body_style.expect("missing heredoc span");
    assert!(body_style.dim);
}

#[test]
fn detects_languages_from_paths() {
    let cases = [
        ("foo.py", HighlightLanguage::Python),
        ("foo.ts", HighlightLanguage::TypeScript),
        ("foo.tsx", HighlightLanguage::Tsx),
        ("foo.json", HighlightLanguage::Json),
        ("README.md", HighlightLanguage::Markdown),
        ("foo.toml", HighlightLanguage::Toml),
        ("foo.yml", HighlightLanguage::Yaml),
        ("foo.rs", HighlightLanguage::Rust),
        ("foo.dart", HighlightLanguage::Dart),
        ("foo.sql", HighlightLanguage::Sql),
        ("foo.java", HighlightLanguage::Java),
        ("foo.kt", HighlightLanguage::Kotlin),
        ("foo.css", HighlightLanguage::Css),
        ("foo.scss", HighlightLanguage::Css),
        ("foo.html", HighlightLanguage::Html),
        ("foo.xml", HighlightLanguage::Xml),
        ("icon.svg", HighlightLanguage::Xml),
        ("Dockerfile", HighlightLanguage::Dockerfile),
        ("Dockerfile.dev", HighlightLanguage::Dockerfile),
        (".env", HighlightLanguage::Dotenv),
        (".env.local", HighlightLanguage::Dotenv),
        ("settings.ini", HighlightLanguage::Ini),
        ("main.tf", HighlightLanguage::Hcl),
    ];
    for (path, expected) in cases {
        let lang = HighlightLanguage::from_path(path).expect("language");
        assert_eq!(lang, expected, "path: {path}");
    }
}

#[test]
fn detects_languages_from_fences() {
    let cases = [
        ("python", HighlightLanguage::Python),
        ("ts", HighlightLanguage::TypeScript),
        ("tsx", HighlightLanguage::Tsx),
        ("json", HighlightLanguage::Json),
        ("markdown", HighlightLanguage::Markdown),
        ("md", HighlightLanguage::Markdown),
        ("toml", HighlightLanguage::Toml),
        ("yaml", HighlightLanguage::Yaml),
        ("rust", HighlightLanguage::Rust),
        ("dart", HighlightLanguage::Dart),
        ("flutter", HighlightLanguage::Dart),
        ("xml", HighlightLanguage::Xml),
        ("sql", HighlightLanguage::Sql),
        ("java", HighlightLanguage::Java),
        ("kotlin", HighlightLanguage::Kotlin),
        ("css", HighlightLanguage::Css),
        ("scss", HighlightLanguage::Css),
        ("html", HighlightLanguage::Html),
        ("terraform", HighlightLanguage::Hcl),
        ("dockerfile", HighlightLanguage::Dockerfile),
        ("dotenv", HighlightLanguage::Dotenv),
        ("env", HighlightLanguage::Dotenv),
        ("ini", HighlightLanguage::Ini),
    ];
    for (fence, expected) in cases {
        let lang = HighlightLanguage::from_fence_info(fence).expect("language");
        assert_eq!(lang, expected, "fence: {fence}");
    }
}

#[test]
fn highlights_common_repo_languages_without_error() {
    let cases: &[(HighlightLanguage, &str)] = &[
        (
            HighlightLanguage::Dart,
            "class A { final int x = 1; A(this.x); }",
        ),
        (
            HighlightLanguage::Sql,
            "select * from drivers where id = 1;",
        ),
        (HighlightLanguage::Java, "class A { int x = 1; }"),
        (HighlightLanguage::Kotlin, "data class A(val x: Int = 1)"),
        (HighlightLanguage::Css, "body { color: red; }"),
        (HighlightLanguage::Html, "<div class='x'>hi</div>"),
        (
            HighlightLanguage::Hcl,
            "resource \"x\" \"y\" { name = \"z\" }",
        ),
        (HighlightLanguage::Markdown, "# Title\n- item\n`code`\n"),
        (HighlightLanguage::Xml, "<a href=\"/\">hi</a>"),
        (HighlightLanguage::Dockerfile, "FROM alpine\nRUN echo hi\n"),
        (HighlightLanguage::Dotenv, "FOO=bar\n# comment\n"),
        (HighlightLanguage::Ini, "[sec]\nkey=value\n"),
    ];

    for (lang, src) in cases {
        let lines = highlight_to_lines(*lang, src);
        assert_eq!(reconstructed(&lines), *src);
    }
}

#[test]
fn unknown_extensions_resolve_to_nothing() {
    assert!(HighlightLanguage::from_path("foo.unknownext").is_none());
    assert!(HighlightLanguage::from_path("").is_none());
    assert!(HighlightLanguage::from_fence_info("").is_none());
    assert!(HighlightLanguage::from_fence_info("  ").is_none());
    assert!(HighlightLanguage::from_fence_info("nosuchlanguage").is_none());
}

#[test]
fn dotenv_styles_key_and_value() {
    let lines = highlight_to_lines(HighlightLanguage::Dotenv, "FOO=123");
    assert_eq!(reconstructed(&lines), "FOO=123");
    let spans = &lines[0].spans;
    assert_eq!(spans[0].text, "FOO");
    assert_eq!(spans[1].text, "=");
    assert_eq!(spans[2].text, "123");
    // An all-digit value takes the number color, not the string color.
    assert_ne!(spans[2].style, spans[0].style);
}

#[test]
fn ini_styles_sections_and_pairs() {
    let lines = highlight_to_lines(HighlightLanguage::Ini, "[sec]\nkey = value");
    assert_eq!(reconstructed(&lines), "[sec]\nkey = value");
    assert_eq!(lines[0].spans.len(), 1);
    let pair = &lines[1].spans;
    assert_eq!(pair[0].text, "key");
    assert_eq!(pair[1].text, " ");
    assert_eq!(pair[2].text, "=");
    assert_eq!(pair[3].text, " value");
}

#[test]
fn markdown_tokenizer_marks_headings_and_code() {
    let lines = highlight_to_lines(HighlightLanguage::Markdown, "## Head `x`");
    assert_eq!(reconstructed(&lines), "## Head `x`");
    let spans = &lines[0].spans;
    assert_eq!(spans[0].text, "##");
    assert_eq!(spans[1].text, " Head ");
    assert_eq!(spans[2].text, "`");
    assert_eq!(spans[3].text, "x");
    assert_eq!(spans[4].text, "`");
}

#[test]
fn dockerfile_tokenizer_marks_keywords_and_variables() {
    let lines = highlight_to_lines(HighlightLanguage::Dockerfile, "env PATH=$HOME/bin");
    assert_eq!(reconstructed(&lines), "env PATH=$HOME/bin");
    let spans = &lines[0].spans;
    assert_eq!(spans[0].text, "env");
    assert!(spans[0].style.bold);
    assert!(spans.iter().any(|s| s.text == "$"));
    assert!(spans.iter().any(|s| s.text == "HOME"));
}

#[test]
fn grammar_fidelity_on_multiline_sources() {
    let cases: &[(HighlightLanguage, &str)] = &[
        (HighlightLanguage::Python, "def f(x):\n    return x + 1\n"),
        (HighlightLanguage::Rust, "fn main() {\n    let x = \"hi\";\n}\n"),
        (HighlightLanguage::Json, "{\"a\": [1, 2, null]}"),
        (HighlightLanguage::Yaml, "a: 1\nb:\n  - x\n"),
        (HighlightLanguage::Toml, "[pkg]\nname = \"x\"\n"),
        (HighlightLanguage::JavaScript, "const x = () => 1;\n"),
        (HighlightLanguage::TypeScript, "let x: number = 1;\n"),
        (HighlightLanguage::Tsx, "const a = <div>hi</div>;\n"),
        (HighlightLanguage::Bash, "for f in *; do echo \"$f\"; done\n"),
    ];
    for (lang, src) in cases {
        let lines = highlight_to_lines(*lang, src);
        assert_eq!(reconstructed(&lines), *src, "language: {lang:?}");
    }
}
