//! Language resolution: maps file names or fenced-code info strings to the
//! language tag used by the highlighting pipeline.

use vstd::prelude::*;

use crate::text::{eq_lit, has_ch, last_idx, lemma_last_idx_found, rfind_char, starts_with_lit,
    str_chars, subvec, is_prefix};

verus! {

/// Languages the highlighting pipeline knows about.
#[derive(Debug, Copy, Clone, Eq, PartialEq, Structural)]
pub enum HighlightLanguage {
    Bash,
    Python,
    JavaScript,
    TypeScript,
    Tsx,
    Json,
    Toml,
    Yaml,
    Rust,
    Css,
    Html,
    Sql,
    Java,
    Kotlin,
    Dart,
    Hcl,
    Markdown,
    Xml,
    Dockerfile,
    Dotenv,
    Ini,
}

/// Lowercases one ASCII letter, leaving every other character unchanged.
#[verifier::allow_in_spec]
pub fn lower_char(c: char) -> char
    returns
        (if 'A' <= c && c <= 'Z' {
            ((c as u8) + 32) as char
        } else {
            c
        }),
{
    if 'A' <= c && c <= 'Z' {
        ((c as u8) + 32) as char
    } else {
        c
    }
}

/// ASCII-lowercases a character sequence.
pub open spec fn seq_lower(s: Seq<char>) -> Seq<char> {
    s.map_values(|c: char| lower_char(c))
}

/// ASCII-lowercases a character vector.
pub fn lower_chars(v: &Vec<char>) -> (r: Vec<char>)
    ensures
        r@ == seq_lower(v@),
{
    let mut r: Vec<char> = Vec::new();
    let mut i: usize = 0;
    while i < v.len()
        invariant
            i <= v@.len(),
            r@ == seq_lower(v@.take(i as int)),
        decreases v@.len() - i,
    {
        r.push(lower_char(v[i]));
        proof {
            assert(r@ =~= seq_lower(v@.take(i + 1 as int)));
        }
        i += 1;
    }
    proof {
        assert(v@.take(v@.len() as int) =~= v@);
    }
    r
}

/// The part of a path after its final slash (the whole path when it has no
/// slash).
pub open spec fn base_name(path: Seq<char>) -> Seq<char> {
    if has_ch(path, '/') {
        path.subrange(last_idx(path, '/') + 1, path.len() as int)
    } else {
        path
    }
}

/// The extension of a file name: the part after the final dot, absent when
/// there is no dot or when the only part before it is empty.
pub open spec fn ext_of(name: Seq<char>) -> Option<Seq<char>> {
    if has_ch(name, '.') && last_idx(name, '.') > 0 {
        Some(name.subrange(last_idx(name, '.') + 1, name.len() as int))
    } else {
        None
    }
}

/// The language a lowercased extension resolves to.
pub open spec fn ext_lang(e: Seq<char>) -> Option<HighlightLanguage> {
    if e == "sh"@ || e == "bash"@ {
        Some(HighlightLanguage::Bash)
    } else if e == "py"@ {
        Some(HighlightLanguage::Python)
    } else if e == "js"@ || e == "jsx"@ || e == "mjs"@ || e == "cjs"@ {
        Some(HighlightLanguage::JavaScript)
    } else if e == "ts"@ {
        Some(HighlightLanguage::TypeScript)
    } else if e == "tsx"@ {
        Some(HighlightLanguage::Tsx)
    } else if e == "json"@ {
        Some(HighlightLanguage::Json)
    } else if e == "md"@ {
        Some(HighlightLanguage::Markdown)
    } else if e == "toml"@ {
        Some(HighlightLanguage::Toml)
    } else if e == "yml"@ || e == "yaml"@ {
        Some(HighlightLanguage::Yaml)
    } else if e == "rs"@ {
        Some(HighlightLanguage::Rust)
    } else if e == "css"@ || e == "scss"@ {
        Some(HighlightLanguage::Css)
    } else if e == "html"@ || e == "htm"@ {
        Some(HighlightLanguage::Html)
    } else if e == "xml"@ || e == "svg"@ {
        Some(HighlightLanguage::Xml)
    } else if e == "ini"@ {
        Some(HighlightLanguage::Ini)
    } else if e == "sql"@ {
        Some(HighlightLanguage::Sql)
    } else if e == "java"@ {
        Some(HighlightLanguage::Java)
    } else if e == "kt"@ || e == "kts"@ {
        Some(HighlightLanguage::Kotlin)
    } else if e == "dart"@ {
        Some(HighlightLanguage::Dart)
    } else if e == "tf"@ || e == "hcl"@ {
        Some(HighlightLanguage::Hcl)
    } else {
        None
    }
}

/// The language a path resolves to: conventionally extensionless file names
/// are special-cased, then the lowercased extension decides.
pub open spec fn path_lang(path: Seq<char>) -> Option<HighlightLanguage> {
    let name = seq_lower(base_name(path));
    if name.len() == 0 {
        None
    } else if name == "dockerfile"@ || is_prefix("dockerfile."@, name) {
        Some(HighlightLanguage::Dockerfile)
    } else if name == ".env"@ || is_prefix(".env."@, name) {
        Some(HighlightLanguage::Dotenv)
    } else {
        match ext_of(name) {
            Some(e) => ext_lang(e),
            None => None,
        }
    }
}

/// The language a fenced-code info string resolves to.
pub open spec fn fence_lang(info: Seq<char>) -> Option<HighlightLanguage> {
    let t = seq_lower(first_token(info));
    if t.len() == 0 {
        None
    } else if t == "bash"@ || t == "sh"@ {
        Some(HighlightLanguage::Bash)
    } else if t == "py"@ || t == "python"@ {
        Some(HighlightLanguage::Python)
    } else if t == "js"@ || t == "javascript"@ {
        Some(HighlightLanguage::JavaScript)
    } else if t == "ts"@ || t == "typescript"@ {
        Some(HighlightLanguage::TypeScript)
    } else if t == "tsx"@ {
        Some(HighlightLanguage::Tsx)
    } else if t == "json"@ {
        Some(HighlightLanguage::Json)
    } else if t == "md"@ || t == "markdown"@ {
        Some(HighlightLanguage::Markdown)
    } else if t == "toml"@ {
        Some(HighlightLanguage::Toml)
    } else if t == "yml"@ || t == "yaml"@ {
        Some(HighlightLanguage::Yaml)
    } else if t == "rs"@ || t == "rust"@ {
        Some(HighlightLanguage::Rust)
    } else if t == "css"@ || t == "scss"@ {
        Some(HighlightLanguage::Css)
    } else if t == "html"@ {
        Some(HighlightLanguage::Html)
    } else if t == "xml"@ {
        Some(HighlightLanguage::Xml)
    } else if t == "sql"@ {
        Some(HighlightLanguage::Sql)
    } else if t == "java"@ {
        Some(HighlightLanguage::Java)
    } else if t == "kotlin"@ || t == "kt"@ {
        Some(HighlightLanguage::Kotlin)
    } else if t == "dart"@ || t == "flutter"@ {
        Some(HighlightLanguage::Dart)
    } else if t == "hcl"@ || t == "terraform"@ {
        Some(HighlightLanguage::Hcl)
    } else if t == "dockerfile"@ {
        Some(HighlightLanguage::Dockerfile)
    } else if t == "dotenv"@ || t == "env"@ {
        Some(HighlightLanguage::Dotenv)
    } else if t == "ini"@ {
        Some(HighlightLanguage::Ini)
    } else {
        None
    }
}

/// ASCII whitespace for token splitting.
#[verifier::allow_in_spec]
pub fn is_ws(c: char) -> bool
    returns
        (c == ' ' || c == '\t' || c == '\n' || c == '\r'),
{
    c == ' ' || c == '\t' || c == '\n' || c == '\r'
}

/// The index at which leading whitespace ends, starting the scan at `i`.
pub open spec fn ws_end(s: Seq<char>, i: int) -> int
    decreases s.len() - i,
{
    if i < 0 || i >= s.len() || !is_ws(s[i]) {
        i
    } else {
        ws_end(s, i + 1)
    }
}

/// The index at which the token starting at `i` ends.
pub open spec fn token_end(s: Seq<char>, i: int) -> int
    decreases s.len() - i,
{
    if i < 0 || i >= s.len() || is_ws(s[i]) {
        i
    } else {
        token_end(s, i + 1)
    }
}

/// The first whitespace-delimited token of `s`.
pub open spec fn first_token(s: Seq<char>) -> Seq<char> {
    s.subrange(ws_end(s, 0), token_end(s, ws_end(s, 0)))
}

proof fn lemma_ws_end_step(s: Seq<char>, a: int, b: int)
    requires
        0 <= a <= b <= s.len(),
        forall|k: int| a <= k < b ==> is_ws(s[k]),
        b == s.len() || !is_ws(s[b]),
    ensures
        ws_end(s, a) == b,
    decreases b - a,
{
    if a < b {
        lemma_ws_end_step(s, a + 1, b);
    }
}

proof fn lemma_token_end_step(s: Seq<char>, a: int, b: int)
    requires
        0 <= a <= b <= s.len(),
        forall|k: int| a <= k < b ==> !is_ws(s[k]),
        b == s.len() || is_ws(s[b]),
    ensures
        token_end(s, a) == b,
    decreases b - a,
{
    if a < b {
        lemma_token_end_step(s, a + 1, b);
    }
}

impl HighlightLanguage {
    /// Resolves a path to a language by its file name: `dockerfile`- and
    /// `.env`-style names first, then the lowercased extension.
    pub fn from_path(path: &str) -> (r: Option<HighlightLanguage>)
        ensures
            r == path_lang(path@),
    {
        let chars = str_chars(path);
        let n = chars.len();
        let start: usize = match rfind_char(&chars, '/') {
            Some(i) => {
                proof {
                    assert(i < n);
                }
                i + 1
            },
            None => 0,
        };
        let raw = subvec(&chars, start, n);
        proof {
            assert(raw@ == base_name(path@));
        }
        let name = lower_chars(&raw);
        if name.len() == 0 {
            return None;
        }
        if eq_lit(&name, "dockerfile") || starts_with_lit(&name, "dockerfile.") {
            return Some(HighlightLanguage::Dockerfile);
        }
        if eq_lit(&name, ".env") || starts_with_lit(&name, ".env.") {
            return Some(HighlightLanguage::Dotenv);
        }
        let m = name.len();
        let e = match rfind_char(&name, '.') {
            Some(i) if i > 0 => {
                proof {
                    assert(i < m);
                }
                subvec(&name, i + 1, m)
            },
            Some(_) => {
                return None;
            },
            None => {
                return None;
            },
        };
        proof {
            assert(ext_of(name@) == Some(e@));
        }
        Self::ext_language(&e)
    }

    /// Resolves a lowercased extension to a language.
    fn ext_language(e: &Vec<char>) -> (r: Option<HighlightLanguage>)
        ensures
            r == ext_lang(e@),
    {
        if eq_lit(e, "sh") || eq_lit(e, "bash") {
            Some(HighlightLanguage::Bash)
        } else if eq_lit(e, "py") {
            Some(HighlightLanguage::Python)
        } else if eq_lit(e, "js") || eq_lit(e, "jsx") || eq_lit(e, "mjs") || eq_lit(e, "cjs") {
            Some(HighlightLanguage::JavaScript)
        } else if eq_lit(e, "ts") {
            Some(HighlightLanguage::TypeScript)
        } else if eq_lit(e, "tsx") {
            Some(HighlightLanguage::Tsx)
        } else if eq_lit(e, "json") {
            Some(HighlightLanguage::Json)
        } else if eq_lit(e, "md") {
            Some(HighlightLanguage::Markdown)
        } else if eq_lit(e, "toml") {
            Some(HighlightLanguage::Toml)
        } else if eq_lit(e, "yml") || eq_lit(e, "yaml") {
            Some(HighlightLanguage::Yaml)
        } else if eq_lit(e, "rs") {
            Some(HighlightLanguage::Rust)
        } else if eq_lit(e, "css") || eq_lit(e, "scss") {
            Some(HighlightLanguage::Css)
        } else if eq_lit(e, "html") || eq_lit(e, "htm") {
            Some(HighlightLanguage::Html)
        } else if eq_lit(e, "xml") || eq_lit(e, "svg") {
            Some(HighlightLanguage::Xml)
        } else if eq_lit(e, "ini") {
            Some(HighlightLanguage::Ini)
        } else if eq_lit(e, "sql") {
            Some(HighlightLanguage::Sql)
        } else if eq_lit(e, "java") {
            Some(HighlightLanguage::Java)
        } else if eq_lit(e, "kt") || eq_lit(e, "kts") {
            Some(HighlightLanguage::Kotlin)
        } else if eq_lit(e, "dart") {
            Some(HighlightLanguage::Dart)
        } else if eq_lit(e, "tf") || eq_lit(e, "hcl") {
            Some(HighlightLanguage::Hcl)
        } else {
            None
        }
    }

    /// Resolves a fenced-code info string: the first whitespace-delimited
    /// token, lowercased, decides the language.
    pub fn from_fence_info(info: &str) -> (r: Option<HighlightLanguage>)
        ensures
            r == fence_lang(info@),
    {
        let chars = str_chars(info);
        let n = chars.len();
        let mut a: usize = 0;
        while a < n && is_ws(chars[a])
            invariant
                a <= n,
                n == chars@.len(),
                forall|k: int| 0 <= k < a ==> is_ws(chars@[k]),
            decreases n - a,
        {
            a += 1;
        }
        let mut b: usize = a;
        while b < n && !is_ws(chars[b])
            invariant
                a <= b <= n,
                n == chars@.len(),
                forall|k: int| a <= k < b ==> !is_ws(chars@[k]),
            decreases n - b,
        {
            b += 1;
        }
        proof {
            lemma_ws_end_step(chars@, 0, a as int);
            lemma_token_end_step(chars@, a as int, b as int);
        }
        let raw = subvec(&chars, a, b);
        let t = lower_chars(&raw);
        proof {
            assert(t@ == seq_lower(first_token(info@)));
        }
        if t.len() == 0 {
            None
        } else if eq_lit(&t, "bash") || eq_lit(&t, "sh") {
            Some(HighlightLanguage::Bash)
        } else if eq_lit(&t, "py") || eq_lit(&t, "python") {
            Some(HighlightLanguage::Python)
        } else if eq_lit(&t, "js") || eq_lit(&t, "javascript") {
            Some(HighlightLanguage::JavaScript)
        } else if eq_lit(&t, "ts") || eq_lit(&t, "typescript") {
            Some(HighlightLanguage::TypeScript)
        } else if eq_lit(&t, "tsx") {
            Some(HighlightLanguage::Tsx)
        } else if eq_lit(&t, "json") {
            Some(HighlightLanguage::Json)
        } else if eq_lit(&t, "md") || eq_lit(&t, "markdown") {
            Some(HighlightLanguage::Markdown)
        } else if eq_lit(&t, "toml") {
            Some(HighlightLanguage::Toml)
        } else if eq_lit(&t, "yml") || eq_lit(&t, "yaml") {
            Some(HighlightLanguage::Yaml)
        } else if eq_lit(&t, "rs") || eq_lit(&t, "rust") {
            Some(HighlightLanguage::Rust)
        } else if eq_lit(&t, "css") || eq_lit(&t, "scss") {
            Some(HighlightLanguage::Css)
        } else if eq_lit(&t, "html") {
            Some(HighlightLanguage::Html)
        } else if eq_lit(&t, "xml") {
            Some(HighlightLanguage::Xml)
        } else if eq_lit(&t, "sql") {
            Some(HighlightLanguage::Sql)
        } else if eq_lit(&t, "java") {
            Some(HighlightLanguage::Java)
        } else if eq_lit(&t, "kotlin") || eq_lit(&t, "kt") {
            Some(HighlightLanguage::Kotlin)
        } else if eq_lit(&t, "dart") || eq_lit(&t, "flutter") {
            Some(HighlightLanguage::Dart)
        } else if eq_lit(&t, "hcl") || eq_lit(&t, "terraform") {
            Some(HighlightLanguage::Hcl)
        } else if eq_lit(&t, "dockerfile") {
            Some(HighlightLanguage::Dockerfile)
        } else if eq_lit(&t, "dotenv") || eq_lit(&t, "env") {
            Some(HighlightLanguage::Dotenv)
        } else if eq_lit(&t, "ini") {
            Some(HighlightLanguage::Ini)
        } else {
            None
        }
    }
}

} // verus!
