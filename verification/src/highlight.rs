//! The highlighting pipeline: grammar-based highlighting through an outside
//! incremental parser for most languages, and bespoke line tokenizers for
//! lightweight formats, both guaranteeing byte-exact text reconstruction.

use vstd::prelude::*;

use crate::capture::{capture_at, capture_of_index, capture_style, highlight_names, names_spec,
    style_for_capture, Capture};
use crate::language::{is_ws, HighlightLanguage};
use crate::line::{lemma_views_of_push, views_of, LineS, RLine, RSpan, SpanS};
use crate::normalize::{digit_count, is_digit, wsf, lemma_wsf_step};
use crate::style::TextStyle;
use crate::text::{is_prefix, starts_with_lit, str_chars, subvec};

verus! {

// ---------- shared scanning helpers ----------

/// A span model with the given text and style.
pub open spec fn sspan(t: Seq<char>, st: TextStyle) -> SpanS {
    SpanS { text: t, style: st }
}

/// A span model with no style of its own.
pub open spec fn plain_span(t: Seq<char>) -> SpanS {
    SpanS { text: t, style: TextStyle::plain() }
}

/// A line model with the given spans and no base style.
pub open spec fn line_of(spans: Seq<SpanS>) -> LineS {
    LineS { spans, style: TextStyle::plain() }
}

/// The number of leading characters different from `c`.
pub open spec fn until_ch(s: Seq<char>, c: char) -> nat
    decreases s.len(),
{
    if s.len() > 0 && s[0] != c {
        1 + until_ch(s.drop_first(), c)
    } else {
        0
    }
}

pub proof fn lemma_until_ch_le(s: Seq<char>, c: char)
    ensures
        until_ch(s, c) <= s.len(),
    decreases s.len(),
{
    if s.len() > 0 && s[0] != c {
        lemma_until_ch_le(s.drop_first(), c);
    }
}

/// The length of the leading run of `c`.
pub open spec fn run_len(s: Seq<char>, c: char) -> nat
    decreases s.len(),
{
    if s.len() > 0 && s[0] == c {
        1 + run_len(s.drop_first(), c)
    } else {
        0
    }
}

pub proof fn lemma_run_len_le(s: Seq<char>, c: char)
    ensures
        run_len(s, c) <= s.len(),
    decreases s.len(),
{
    if s.len() > 0 && s[0] == c {
        lemma_run_len_le(s.drop_first(), c);
    }
}

/// Whether an adjacent pair `a` then `b` occurs in `s`.
pub open spec fn has_pair(s: Seq<char>, a: char, b: char) -> bool {
    exists|k: int| 0 <= k && k + 1 < s.len() && #[trigger] s[k] == a && s[k + 1] == b
}

fn until_ch_exec(v: &Vec<char>, i: usize, c: char) -> (r: usize)
    requires
        i <= v@.len(),
    ensures
        i + r <= v@.len(),
        r as nat == until_ch(v@.skip(i as int), c),
    decreases v@.len() - i,
{
    if i < v.len() && v[i] != c {
        proof {
            assert(v@.skip(i as int)[0] == v@[i as int]);
            assert(v@.skip(i as int).drop_first() =~= v@.skip(i + 1 as int));
        }
        1 + until_ch_exec(v, i + 1, c)
    } else {
        proof {
            if i < v@.len() {
                assert(v@.skip(i as int)[0] == v@[i as int]);
            }
        }
        0
    }
}

fn run_len_exec(v: &Vec<char>, i: usize, c: char) -> (r: usize)
    requires
        i <= v@.len(),
    ensures
        i + r <= v@.len(),
        r as nat == run_len(v@.skip(i as int), c),
    decreases v@.len() - i,
{
    if i < v.len() && v[i] == c {
        proof {
            assert(v@.skip(i as int)[0] == v@[i as int]);
            assert(v@.skip(i as int).drop_first() =~= v@.skip(i + 1 as int));
        }
        1 + run_len_exec(v, i + 1, c)
    } else {
        proof {
            if i < v@.len() {
                assert(v@.skip(i as int)[0] == v@[i as int]);
            }
        }
        0
    }
}

fn has_pair_exec(v: &Vec<char>, a: char, b: char) -> (r: bool)
    ensures
        r == has_pair(v@, a, b),
{
    let n = v.len();
    if n < 2 {
        return false;
    }
    let mut i: usize = 0;
    while i < n - 1
        invariant
            n == v@.len(),
            n >= 2,
            i <= n - 1,
            forall|k: int| 0 <= k < i ==> !(#[trigger] v@[k] == a && v@[k + 1] == b),
        decreases n - i,
    {
        if v[i] == a && v[i + 1] == b {
            proof {
                assert(v@[i as int] == a && v@[i + 1 as int] == b);
            }
            return true;
        }
        i += 1;
    }
    false
}

/// The leading whitespace of a line and what follows it.
fn split_indent(v: &Vec<char>) -> (r: (Vec<char>, Vec<char>))
    ensures
        r.0@ == v@.take(wsf(v@) as int),
        r.1@ == v@.skip(wsf(v@) as int),
        r.0@.len() + r.1@.len() == v@.len(),
        r.1@.len() > 0 ==> !is_ws(r.1@[0]),
        r.0@.len() == wsf(v@),
        wsf(v@) <= v@.len(),
{
    let n = v.len();
    let mut a: usize = 0;
    while a < n && is_ws(v[a])
        invariant
            a <= n,
            n == v@.len(),
            forall|k: int| 0 <= k < a ==> is_ws(v@[k]),
        decreases n - a,
    {
        a += 1;
    }
    proof {
        lemma_wsf_step(v@, a as int);
    }
    let ind = subvec(v, 0, a);
    let rest = subvec(v, a, n);
    proof {
        assert(ind@ =~= v@.take(a as int));
        assert(rest@ =~= v@.skip(a as int));
        if rest@.len() > 0 {
            assert(rest@[0] == v@[a as int]);
        }
    }
    (ind, rest)
}

// ---------- the markdown tokenizer ----------

/// Inline scanning of a markdown line: backtick-delimited code spans take the
/// code style, backticks the punctuation style, and everything else the base
/// style.
pub open spec fn md_inline_rec(
    s: Seq<char>,
    buf: Seq<char>,
    in_code: bool,
    base: TextStyle,
    acc: Seq<SpanS>,
) -> Seq<SpanS>
    decreases s.len(),
{
    if s.len() == 0 {
        if buf.len() > 0 {
            acc.push(sspan(buf, if in_code {
                md_code_style()
            } else {
                base
            }))
        } else {
            acc
        }
    } else if s[0] == '`' {
        let acc1 = if buf.len() > 0 {
            acc.push(sspan(buf, if in_code {
                md_code_style()
            } else {
                base
            }))
        } else {
            acc
        };
        md_inline_rec(
            s.drop_first(),
            Seq::empty(),
            !in_code,
            base,
            acc1.push(sspan(seq!['`'], md_marker_style())),
        )
    } else {
        md_inline_rec(s.drop_first(), buf.push(s[0]), in_code, base, acc)
    }
}

/// The style of inline code in the markdown tokenizer.
pub open spec fn md_code_style() -> TextStyle {
    capture_style(HighlightLanguage::Markdown, Capture::Str)
}

/// The style of structural markers in the markdown tokenizer.
pub open spec fn md_marker_style() -> TextStyle {
    capture_style(HighlightLanguage::Markdown, Capture::PunctuationSpecial)
}

/// The style of heading text in the markdown tokenizer.
pub open spec fn md_heading_style() -> TextStyle {
    capture_style(HighlightLanguage::Markdown, Capture::Keyword)
}

/// The spans of inline markdown content under a base style.
pub open spec fn md_inline(s: Seq<char>, base: TextStyle) -> Seq<SpanS> {
    md_inline_rec(s, Seq::empty(), false, base, Seq::empty())
}

/// One tokenized markdown line.
pub open spec fn md_line(raw: Seq<char>) -> LineS {
    if raw.len() == 0 {
        line_of(Seq::empty())
    } else {
        let a = wsf(raw);
        let ind = raw.take(a as int);
        let t = raw.skip(a as int);
        let pre: Seq<SpanS> = if ind.len() > 0 {
            seq![plain_span(ind)]
        } else {
            Seq::empty()
        };
        if is_prefix("```"@, t) {
            line_of(pre.push(sspan(t, md_marker_style())))
        } else {
            let h = run_len(t, '#');
            if h > 0 && h < t.len() && (t[h as int] == ' ' || t[h as int] == '\t') {
                line_of(
                    pre.push(sspan(t.take(h as int), md_marker_style())) + md_inline(
                        t.skip(h as int),
                        md_heading_style(),
                    ),
                )
            } else if is_prefix("- "@, t) || is_prefix("* "@, t) || is_prefix("+ "@, t) {
                line_of(
                    pre.push(sspan(t.take(1), md_marker_style())) + md_inline(
                        t.skip(1),
                        TextStyle::plain(),
                    ),
                )
            } else if digit_count(t) > 0 && (has_pair(t, '.', ' ') || has_pair(t, ')', ' ')) && ({
                let d = digit_count(t);
                d < t.len() && (t[d as int] == '.' || t[d as int] == ')') && d + 1 < t.len() && t[d
                    + 1 as int] == ' '
            }) {
                let me = digit_count(t) + 1;
                line_of(
                    pre.push(sspan(t.take(me as int), md_marker_style())) + md_inline(
                        t.skip(me as int),
                        TextStyle::plain(),
                    ),
                )
            } else {
                line_of(pre + md_inline(t, TextStyle::plain()))
            }
        }
    }
}

/// Scans inline markdown content, pushing the resulting spans onto `line`.
fn md_inline_exec(line: &mut RLine, s: &Vec<char>, base: TextStyle)
    ensures
        final(line)@ == (LineS {
            spans: old(line)@.spans + md_inline(s@, base),
            style: old(line)@.style,
        }),
{
    let ghost start = line@.spans;
    let mut buf: Vec<char> = Vec::new();
    let mut in_code = false;
    let mut i: usize = 0;
    proof {
        assert(s@.skip(0) =~= s@);
        assert(buf@ =~= Seq::<char>::empty());
    }
    while i < s.len()
        invariant
            i <= s@.len(),
            line@.style == old(line)@.style,
            md_inline_rec(s@.skip(i as int), buf@, in_code, base, line@.spans) == md_inline_rec(
                s@,
                Seq::empty(),
                false,
                base,
                start,
            ),
        decreases s@.len() - i,
    {
        let ghost pre = s@.skip(i as int);
        let ghost old_buf = buf@;
        let ghost old_ic = in_code;
        let ghost old_spans = line@.spans;
        proof {
            assert(pre[0] == s@[i as int]);
            assert(pre.drop_first() =~= s@.skip(i + 1 as int));
        }
        if s[i] == '`' {
            if buf.len() > 0 {
                let style = if in_code {
                    style_for_capture(HighlightLanguage::Markdown, Capture::Str)
                } else {
                    base
                };
                let span = RSpan::new(buf, style);
                line.push_span(span);
                buf = Vec::new();
                proof {
                    assert(buf@ =~= Seq::<char>::empty());
                }
            } else {
                proof {
                    assert(buf@ =~= Seq::<char>::empty());
                }
            }
            let tick = str_chars("`");
            proof {
                reveal_strlit("`");
                assert(tick@ =~= seq!['`']);
            }
            let bt = style_for_capture(HighlightLanguage::Markdown, Capture::PunctuationSpecial);
            line.push_span(RSpan::new(tick, bt));
            in_code = !in_code;
            proof {
                let bspan = sspan(old_buf, if old_ic { md_code_style() } else { base });
                let acc1: Seq<SpanS> = if old_buf.len() > 0 { old_spans.push(bspan) } else { old_spans };
                let tsp = sspan(seq!['`'], md_marker_style());
                assert(line@.spans == acc1.push(tsp));
                assert(md_inline_rec(pre, old_buf, old_ic, base, old_spans) == md_inline_rec(
                    pre.drop_first(), Seq::empty(), !old_ic, base, acc1.push(tsp)));
            }
        } else {
            buf.push(s[i]);
            proof {
                assert(buf@ == old_buf.push(pre[0]));
                assert(md_inline_rec(pre, old_buf, old_ic, base, old_spans) == md_inline_rec(
                    pre.drop_first(), old_buf.push(pre[0]), old_ic, base, old_spans));
            }
        }
        i += 1;
    }
    proof {
        assert(s@.skip(s@.len() as int) =~= Seq::<char>::empty());
    }
    if buf.len() > 0 {
        let style = if in_code {
            style_for_capture(HighlightLanguage::Markdown, Capture::Str)
        } else {
            base
        };
        line.push_span(RSpan::new(buf, style));
    }
    proof {
        lemma_md_inline_acc(s@, Seq::empty(), false, base, start);
        assert(line@.spans =~= start + md_inline(s@, base));
    }
}

/// Tokenizes one markdown line.
#[verifier::rlimit(100)]
#[verifier::spinoff_prover]
fn md_line_exec(raw: &Vec<char>) -> (r: RLine)
    ensures
        r@ == md_line(raw@),
{
    let mut line = RLine::new();
    if raw.len() == 0 {
        return line;
    }
    let (ind, t) = split_indent(raw);
    let ghost pre: Seq<SpanS> = if ind@.len() > 0 {
        seq![plain_span(ind@)]
    } else {
        Seq::empty()
    };
    if ind.len() > 0 {
        line.push_span(RSpan::plain(ind));
        proof {
            assert(line@.spans =~= pre);
        }
    } else {
        proof {
            assert(line@.spans =~= pre);
        }
    }
    let marker_style = style_for_capture(HighlightLanguage::Markdown, Capture::PunctuationSpecial);
    if starts_with_lit(&t, "```") {
        let tv = copy_chars(&t);
        line.push_span(RSpan::new(tv, marker_style));
        proof {
            assert(line@ =~= md_line(raw@));
        }
        return line;
    }
    let n = t.len();
    let h = run_len_exec(&t, 0, '#');
    proof {
        assert(t@.skip(0) =~= t@);
    }
    if h > 0 && h < n && (t[h] == ' ' || t[h] == '\t') {
        let marker = subvec(&t, 0, h);
        let after = subvec(&t, h, n);
        line.push_span(RSpan::new(marker, marker_style));
        let heading = style_for_capture(HighlightLanguage::Markdown, Capture::Keyword);
        md_inline_exec(&mut line, &after, heading);
        proof {
            assert(line@.spans =~= pre.push(sspan(t@.take(h as int), md_marker_style()))
                + md_inline(t@.skip(h as int), md_heading_style()));
            assert(line@ =~= md_line(raw@));
        }
        return line;
    }
    if starts_with_lit(&t, "- ") || starts_with_lit(&t, "* ") || starts_with_lit(&t, "+ ") {
        proof {
            reveal_strlit("- ");
            reveal_strlit("* ");
            reveal_strlit("+ ");
            assert(t@.len() >= 2);
        }
        let marker = subvec(&t, 0, 1);
        let rest = subvec(&t, 1, n);
        line.push_span(RSpan::new(marker, marker_style));
        md_inline_exec(&mut line, &rest, TextStyle::plain());
        proof {
            assert(line@.spans =~= pre.push(sspan(t@.take(1), md_marker_style())) + md_inline(
                t@.skip(1),
                TextStyle::plain(),
            ));
            assert(line@ =~= md_line(raw@));
        }
        return line;
    }
    let d = crate::normalize::digit_count_exec(&t, 0);
    let pair_dot = has_pair_exec(&t, '.', ' ');
    let pair_par = has_pair_exec(&t, ')', ' ');
    if d > 0 && (pair_dot || pair_par) && d < n && (t[d] == '.' || t[d] == ')') && d + 1 < n && t[d
        + 1] == ' ' {
        let me = d + 1;
        let marker = subvec(&t, 0, me);
        let rest = subvec(&t, me, n);
        line.push_span(RSpan::new(marker, marker_style));
        md_inline_exec(&mut line, &rest, TextStyle::plain());
        proof {
            assert(line@.spans =~= pre.push(sspan(t@.take(me as int), md_marker_style()))
                + md_inline(t@.skip(me as int), TextStyle::plain()));
            assert(line@ =~= md_line(raw@));
        }
        return line;
    }
    md_inline_exec(&mut line, &t, TextStyle::plain());
    proof {
        assert(line@.spans =~= pre + md_inline(t@, TextStyle::plain()));
        assert(line@ =~= md_line(raw@));
    }
    line
}

/// Copies a character vector.
fn copy_chars(v: &Vec<char>) -> (r: Vec<char>)
    ensures
        r@ == v@,
{
    let r = subvec(v, 0, v.len());
    proof {
        assert(v@.subrange(0, v@.len() as int) =~= v@);
    }
    r
}

/// Scanning with an accumulator appends to it.
proof fn lemma_md_inline_acc(
    s: Seq<char>,
    buf: Seq<char>,
    in_code: bool,
    base: TextStyle,
    acc: Seq<SpanS>,
)
    ensures
        md_inline_rec(s, buf, in_code, base, acc) == acc + md_inline_rec(
            s,
            buf,
            in_code,
            base,
            Seq::empty(),
        ),
    decreases s.len(),
{
    let e = Seq::<SpanS>::empty();
    if s.len() == 0 {
        if buf.len() > 0 {
            assert(acc.push(sspan(buf, if in_code {
                md_code_style()
            } else {
                base
            })) =~= acc + e.push(sspan(buf, if in_code {
                md_code_style()
            } else {
                base
            })));
        } else {
            assert(acc =~= acc + e);
        }
    } else if s[0] == '`' {
        let bspan = sspan(buf, if in_code {
            md_code_style()
        } else {
            base
        });
        let tick = sspan(seq!['`'], md_marker_style());
        let acc1: Seq<SpanS> = if buf.len() > 0 {
            acc.push(bspan)
        } else {
            acc
        };
        let e1: Seq<SpanS> = if buf.len() > 0 {
            e.push(bspan)
        } else {
            e
        };
        lemma_md_inline_acc(s.drop_first(), Seq::empty(), !in_code, base, acc1.push(tick));
        lemma_md_inline_acc(s.drop_first(), Seq::empty(), !in_code, base, e1.push(tick));
        assert(acc1.push(tick) =~= acc + e1.push(tick));
        assert(acc1.push(tick) + md_inline_rec(s.drop_first(), Seq::empty(), !in_code, base, e)
            =~= acc + (e1.push(tick) + md_inline_rec(s.drop_first(), Seq::empty(), !in_code, base, e)));
    } else {
        lemma_md_inline_acc(s.drop_first(), buf.push(s[0]), in_code, base, acc);
    }
}

// ---------- the dockerfile tokenizer ----------

/// Whether `c` may appear in a variable name.
#[verifier::allow_in_spec]
pub fn is_ident_ch(c: char) -> bool
    returns
        (is_digit(c) || ('a' <= c && c <= 'z') || ('A' <= c && c <= 'Z') || c == '_'),
{
    is_digit(c) || ('a' <= c && c <= 'z') || ('A' <= c && c <= 'Z') || c == '_'
}

/// The length of the leading variable-name run.
pub open spec fn ident_len(s: Seq<char>) -> nat
    decreases s.len(),
{
    if s.len() > 0 && is_ident_ch(s[0]) {
        1 + ident_len(s.drop_first())
    } else {
        0
    }
}

pub proof fn lemma_ident_len_le(s: Seq<char>)
    ensures
        ident_len(s) <= s.len(),
    decreases s.len(),
{
    if s.len() > 0 && is_ident_ch(s[0]) {
        lemma_ident_len_le(s.drop_first());
    }
}

fn ident_len_exec(v: &Vec<char>, i: usize) -> (r: usize)
    requires
        i <= v@.len(),
    ensures
        i + r <= v@.len(),
        r as nat == ident_len(v@.skip(i as int)),
    decreases v@.len() - i,
{
    if i < v.len() && is_ident_ch(v[i]) {
        proof {
            assert(v@.skip(i as int)[0] == v@[i as int]);
            assert(v@.skip(i as int).drop_first() =~= v@.skip(i + 1 as int));
        }
        1 + ident_len_exec(v, i + 1)
    } else {
        proof {
            if i < v@.len() {
                assert(v@.skip(i as int)[0] == v@[i as int]);
            }
        }
        0
    }
}

/// The length of the leading run of non-whitespace characters.
pub open spec fn nonws_len(s: Seq<char>) -> nat
    decreases s.len(),
{
    if s.len() > 0 && !is_ws(s[0]) {
        1 + nonws_len(s.drop_first())
    } else {
        0
    }
}

pub proof fn lemma_nonws_len_le(s: Seq<char>)
    ensures
        nonws_len(s) <= s.len(),
    decreases s.len(),
{
    if s.len() > 0 && !is_ws(s[0]) {
        lemma_nonws_len_le(s.drop_first());
    }
}

fn nonws_len_exec(v: &Vec<char>, i: usize) -> (r: usize)
    requires
        i <= v@.len(),
    ensures
        i + r <= v@.len(),
        r as nat == nonws_len(v@.skip(i as int)),
    decreases v@.len() - i,
{
    if i < v.len() && !is_ws(v[i]) {
        proof {
            assert(v@.skip(i as int)[0] == v@[i as int]);
            assert(v@.skip(i as int).drop_first() =~= v@.skip(i + 1 as int));
        }
        1 + nonws_len_exec(v, i + 1)
    } else {
        proof {
            if i < v@.len() {
                assert(v@.skip(i as int)[0] == v@[i as int]);
            }
        }
        0
    }
}

pub open spec fn dk_comment_style() -> TextStyle {
    capture_style(HighlightLanguage::Dockerfile, Capture::Comment)
}

pub open spec fn dk_keyword_style() -> TextStyle {
    capture_style(HighlightLanguage::Dockerfile, Capture::Keyword)
}

pub open spec fn dk_op_style() -> TextStyle {
    capture_style(HighlightLanguage::Dockerfile, Capture::Operator)
}

pub open spec fn dk_string_style() -> TextStyle {
    capture_style(HighlightLanguage::Dockerfile, Capture::Str)
}

pub open spec fn dk_var_style() -> TextStyle {
    capture_style(HighlightLanguage::Dockerfile, Capture::Variable)
}

/// Flushes a pending unstyled buffer onto the span accumulator.
pub open spec fn flush_plain(acc: Seq<SpanS>, buf: Seq<char>) -> Seq<SpanS> {
    if buf.len() > 0 {
        acc.push(plain_span(buf))
    } else {
        acc
    }
}

/// Whether a token is a dockerfile instruction keyword, case-insensitively.
pub open spec fn is_dk_kw(t: Seq<char>) -> bool {
    let l = crate::language::seq_lower(t);
    l == "from"@ || l == "as"@ || l == "run"@ || l == "cmd"@ || l == "label"@ || l == "expose"@
        || l == "env"@ || l == "add"@ || l == "copy"@ || l == "entrypoint"@ || l == "volume"@
        || l == "user"@ || l == "workdir"@ || l == "arg"@ || l == "onbuild"@ || l == "stopsignal"@
        || l == "healthcheck"@ || l == "shell"@ || l == "maintainer"@
}

fn is_dk_kw_exec(t: &Vec<char>) -> (r: bool)
    ensures
        r == is_dk_kw(t@),
{
    let l = crate::language::lower_chars(t);
    crate::text::eq_lit(&l, "from") || crate::text::eq_lit(&l, "as") || crate::text::eq_lit(
        &l,
        "run",
    ) || crate::text::eq_lit(&l, "cmd") || crate::text::eq_lit(&l, "label") || crate::text::eq_lit(
        &l,
        "expose",
    ) || crate::text::eq_lit(&l, "env") || crate::text::eq_lit(&l, "add") || crate::text::eq_lit(
        &l,
        "copy",
    ) || crate::text::eq_lit(&l, "entrypoint") || crate::text::eq_lit(&l, "volume")
        || crate::text::eq_lit(&l, "user") || crate::text::eq_lit(&l, "workdir")
        || crate::text::eq_lit(&l, "arg") || crate::text::eq_lit(&l, "onbuild")
        || crate::text::eq_lit(&l, "stopsignal") || crate::text::eq_lit(&l, "healthcheck")
        || crate::text::eq_lit(&l, "shell") || crate::text::eq_lit(&l, "maintainer")
}

/// Scans dockerfile argument text: `$NAME` and `${NAME}` expansions take the
/// operator and variable styles, quoted pieces the string style, and
/// everything else no style.
pub open spec fn dk_scan(s: Seq<char>, buf: Seq<char>, acc: Seq<SpanS>) -> Seq<SpanS>
    decreases s.len(),
    via dk_scan_dec
{
    if s.len() == 0 {
        flush_plain(acc, buf)
    } else if s[0] == '$' {
        let acc2 = flush_plain(acc, buf).push(sspan(seq!['$'], dk_op_style()));
        if s.len() > 1 && s[1] == '{' {
            let acc3 = acc2.push(sspan(seq!['{'], dk_op_style()));
            let nl = until_ch(s.skip(2), '}');
            let acc4: Seq<SpanS> = if nl > 0 {
                acc3.push(sspan(s.skip(2).take(nl as int), dk_var_style()))
            } else {
                acc3
            };
            if 2 + nl < s.len() && s[2 + nl as int] == '}' {
                dk_scan(
                    s.skip(3 + nl as int),
                    Seq::empty(),
                    acc4.push(sspan(seq!['}'], dk_op_style())),
                )
            } else {
                dk_scan(s.skip(2 + nl as int), Seq::empty(), acc4)
            }
        } else {
            let nl = ident_len(s.skip(1));
            let acc3: Seq<SpanS> = if nl > 0 {
                acc2.push(sspan(s.skip(1).take(nl as int), dk_var_style()))
            } else {
                acc2
            };
            dk_scan(s.skip(1 + nl as int), Seq::empty(), acc3)
        }
    } else if s[0] == '"' || s[0] == '\'' {
        let acc1 = flush_plain(acc, buf);
        let e = 1 + until_ch(s.skip(1), s[0]);
        let pl: int = if e < s.len() {
            e as int + 1
        } else {
            s.len() as int
        };
        dk_scan(s.skip(pl), Seq::empty(), acc1.push(sspan(s.take(pl), dk_string_style())))
    } else {
        dk_scan(s.drop_first(), buf.push(s[0]), acc)
    }
}

#[via_fn]
proof fn dk_scan_dec(s: Seq<char>, buf: Seq<char>, acc: Seq<SpanS>) {
    if s.len() > 0 {
        if s[0] == '$' {
            if s.len() > 1 && s[1] == '{' {
                lemma_until_ch_le(s.skip(2), '}');
            } else {
                lemma_ident_len_le(s.skip(1));
            }
        } else if s[0] == '"' || s[0] == '\'' {
            lemma_until_ch_le(s.skip(1), s[0]);
        }
    }
}

fn dk_scan_exec(line: &mut RLine, s: &Vec<char>, i: usize, buf: Vec<char>)
    requires
        i <= s@.len(),
    ensures
        final(line)@.spans == dk_scan(s@.skip(i as int), buf@, old(line)@.spans),
        final(line)@.style == old(line)@.style,
    decreases s@.len() - i,
{
    let ghost pre = s@.skip(i as int);
    let n = s.len();
    if i == n {
        if buf.len() > 0 {
            line.push_span(RSpan::plain(buf));
        }
        return ;
    }
    proof {
        assert(pre[0] == s@[i as int]);
        assert(pre.drop_first() =~= s@.skip(i + 1 as int));
    }
    let c = s[i];
    if c == '$' {
        if buf.len() > 0 {
            line.push_span(RSpan::plain(buf));
        }
        let dollar = str_chars("$");
        proof {
            reveal_strlit("$");
            assert(dollar@ =~= seq!['$']);
        }
        let op = style_for_capture(HighlightLanguage::Dockerfile, Capture::Operator);
        line.push_span(RSpan::new(dollar, op));
        if i + 1 < n && s[i + 1] == '{' {
            let obrace = str_chars("{");
            proof {
                reveal_strlit("{");
                assert(obrace@ =~= seq!['{']);
            }
            line.push_span(RSpan::new(obrace, op));
            let nl = until_ch_exec(s, i + 2, '}');
            proof {
                assert(pre.skip(2) =~= s@.skip(i + 2 as int));
            }
            if nl > 0 {
                let name = subvec(s, i + 2, i + 2 + nl);
                proof {
                    assert(name@ =~= pre.skip(2).take(nl as int));
                }
                let var = style_for_capture(HighlightLanguage::Dockerfile, Capture::Variable);
                line.push_span(RSpan::new(name, var));
            }
            if i + 2 + nl < n && s[i + 2 + nl] == '}' {
                proof {
                    assert(pre[2 + nl as int] == s@[(i + 2 + nl) as int]);
                }
                let cbrace = str_chars("}");
                proof {
                    reveal_strlit("}");
                    assert(cbrace@ =~= seq!['}']);
                }
                line.push_span(RSpan::new(cbrace, op));
                proof {
                    assert(pre.skip(3 + nl as int) =~= s@.skip((i + 3 + nl) as int));
                }
                dk_scan_exec(line, s, i + 3 + nl, Vec::new());
            } else {
                proof {
                    if 2 + nl < pre.len() {
                        assert(pre[2 + nl as int] == s@[(i + 2 + nl) as int]);
                    }
                    assert(pre.skip(2 + nl as int) =~= s@.skip((i + 2 + nl) as int));
                }
                dk_scan_exec(line, s, i + 2 + nl, Vec::new());
            }
        } else {
            proof {
                if i + 1 < n {
                    assert(pre[1] == s@[i + 1 as int]);
                }
                assert(pre.skip(1) =~= s@.skip(i + 1 as int));
            }
            let nl = ident_len_exec(s, i + 1);
            if nl > 0 {
                let name = subvec(s, i + 1, i + 1 + nl);
                proof {
                    assert(name@ =~= pre.skip(1).take(nl as int));
                }
                let var = style_for_capture(HighlightLanguage::Dockerfile, Capture::Variable);
                line.push_span(RSpan::new(name, var));
            }
            proof {
                assert(pre.skip(1 + nl as int) =~= s@.skip((i + 1 + nl) as int));
            }
            dk_scan_exec(line, s, i + 1 + nl, Vec::new());
        }
    } else if c == '"' || c == '\'' {
        if buf.len() > 0 {
            line.push_span(RSpan::plain(buf));
        }
        proof {
            assert(pre.skip(1) =~= s@.skip(i + 1 as int));
        }
        let u = until_ch_exec(s, i + 1, c);
        let e_abs = i + 1 + u;
        let pl_abs: usize = if e_abs < n {
            e_abs + 1
        } else {
            n
        };
        let piece = subvec(s, i, pl_abs);
        proof {
            assert(piece@ =~= pre.take(pl_abs - i));
        }
        let st = style_for_capture(HighlightLanguage::Dockerfile, Capture::Str);
        line.push_span(RSpan::new(piece, st));
        proof {
            assert(pre.skip(pl_abs - i) =~= s@.skip(pl_abs as int));
        }
        dk_scan_exec(line, s, pl_abs, Vec::new());
    } else {
        let mut b2 = buf;
        b2.push(c);
        dk_scan_exec(line, s, i + 1, b2);
    }
}

/// One tokenized dockerfile line.
pub open spec fn dk_line(raw: Seq<char>) -> LineS {
    if raw.len() == 0 {
        line_of(Seq::empty())
    } else {
        let a = wsf(raw);
        let ind = raw.take(a as int);
        let t = raw.skip(a as int);
        let pre: Seq<SpanS> = if ind.len() > 0 {
            seq![plain_span(ind)]
        } else {
            Seq::empty()
        };
        if t.len() > 0 && t[0] == '#' {
            line_of(pre.push(sspan(t, dk_comment_style())))
        } else {
            let fw = nonws_len(t);
            if fw < t.len() {
                if is_dk_kw(t.take(fw as int)) {
                    line_of(
                        pre.push(sspan(t.take(fw as int), dk_keyword_style())) + dk_scan(
                            t.skip(fw as int),
                            Seq::empty(),
                            Seq::empty(),
                        ),
                    )
                } else {
                    line_of(pre + dk_scan(t, Seq::empty(), Seq::empty()))
                }
            } else {
                if is_dk_kw(t) {
                    line_of(pre.push(sspan(t, dk_keyword_style())))
                } else {
                    line_of(pre + dk_scan(t, Seq::empty(), Seq::empty()))
                }
            }
        }
    }
}

/// Tokenizes one dockerfile line.
#[verifier::rlimit(100)]
#[verifier::spinoff_prover]
fn dk_line_exec(raw: &Vec<char>) -> (r: RLine)
    ensures
        r@ == dk_line(raw@),
{
    let mut line = RLine::new();
    if raw.len() == 0 {
        return line;
    }
    let (ind, t) = split_indent(raw);
    let ghost pre: Seq<SpanS> = if ind@.len() > 0 {
        seq![plain_span(ind@)]
    } else {
        Seq::empty()
    };
    if ind.len() > 0 {
        line.push_span(RSpan::plain(ind));
        proof {
            assert(line@.spans =~= pre);
        }
    } else {
        proof {
            assert(line@.spans =~= pre);
        }
    }
    if t.len() > 0 && t[0] == '#' {
        let tv = copy_chars(&t);
        let cs = style_for_capture(HighlightLanguage::Dockerfile, Capture::Comment);
        line.push_span(RSpan::new(tv, cs));
        proof {
            assert(line@ =~= dk_line(raw@));
        }
        return line;
    }
    let n = t.len();
    let fw = nonws_len_exec(&t, 0);
    proof {
        assert(t@.skip(0) =~= t@);
    }
    if fw < n {
        let tok = subvec(&t, 0, fw);
        proof {
            assert(tok@ =~= t@.take(fw as int));
        }
        if is_dk_kw_exec(&tok) {
            let kw = style_for_capture(HighlightLanguage::Dockerfile, Capture::Keyword);
            line.push_span(RSpan::new(tok, kw));
            proof {
                assert(t@.skip(fw as int).skip(0) =~= t@.skip(fw as int));
            }
            dk_scan_exec(&mut line, &t, fw, Vec::new());
            proof {
                assert(line@.spans =~= pre.push(sspan(t@.take(fw as int), dk_keyword_style()))
                    + dk_scan(t@.skip(fw as int), Seq::empty(), Seq::empty())) by {
                    lemma_dk_scan_acc(t@.skip(fw as int), Seq::empty(), pre.push(
                        sspan(t@.take(fw as int), dk_keyword_style())));
                }
                assert(line@ =~= dk_line(raw@));
            }
            return line;
        }
        dk_scan_exec(&mut line, &t, 0, Vec::new());
        proof {
            lemma_dk_scan_acc(t@, Seq::empty(), pre);
            assert(line@.spans =~= pre + dk_scan(t@, Seq::empty(), Seq::empty()));
            assert(line@ =~= dk_line(raw@));
        }
        return line;
    }
    if is_dk_kw_exec(&t) {
        let kw = style_for_capture(HighlightLanguage::Dockerfile, Capture::Keyword);
        let tv = copy_chars(&t);
        line.push_span(RSpan::new(tv, kw));
        proof {
            assert(line@ =~= dk_line(raw@));
        }
        return line;
    }
    dk_scan_exec(&mut line, &t, 0, Vec::new());
    proof {
        lemma_dk_scan_acc(t@, Seq::empty(), pre);
        assert(line@.spans =~= pre + dk_scan(t@, Seq::empty(), Seq::empty()));
        assert(line@ =~= dk_line(raw@));
    }
    line
}

/// Scanning with an accumulator appends to it.
proof fn lemma_dk_scan_acc(s: Seq<char>, buf: Seq<char>, acc: Seq<SpanS>)
    ensures
        dk_scan(s, buf, acc) == acc + dk_scan(s, buf, Seq::empty()),
    decreases s.len(),
{
    let e = Seq::<SpanS>::empty();
    if s.len() == 0 {
        if buf.len() > 0 {
            assert(acc.push(plain_span(buf)) =~= acc + e.push(plain_span(buf)));
        } else {
            assert(acc =~= acc + e);
        }
    } else if s[0] == '$' {
        let dsp = sspan(seq!['$'], dk_op_style());
        let acc2 = flush_plain(acc, buf).push(dsp);
        let e2 = flush_plain(e, buf).push(dsp);
        assert(acc2 =~= acc + e2);
        if s.len() > 1 && s[1] == '{' {
            let osp = sspan(seq!['{'], dk_op_style());
            lemma_until_ch_le(s.skip(2), '}');
            let nl = until_ch(s.skip(2), '}');
            let acc3 = acc2.push(osp);
            let e3 = e2.push(osp);
            assert(acc3 =~= acc + e3);
            let vsp = sspan(s.skip(2).take(nl as int), dk_var_style());
            let acc4: Seq<SpanS> = if nl > 0 { acc3.push(vsp) } else { acc3 };
            let e4: Seq<SpanS> = if nl > 0 { e3.push(vsp) } else { e3 };
            assert(acc4 =~= acc + e4);
            if 2 + nl < s.len() && s[2 + nl as int] == '}' {
                let csp = sspan(seq!['}'], dk_op_style());
                lemma_dk_scan_acc(s.skip(3 + nl as int), Seq::empty(), acc4.push(csp));
                lemma_dk_scan_acc(s.skip(3 + nl as int), Seq::empty(), e4.push(csp));
                assert(acc4.push(csp) =~= acc + e4.push(csp));
                assert(acc4.push(csp) + dk_scan(s.skip(3 + nl as int), Seq::empty(), e) =~= acc + (
                e4.push(csp) + dk_scan(s.skip(3 + nl as int), Seq::empty(), e)));
            } else {
                lemma_dk_scan_acc(s.skip(2 + nl as int), Seq::empty(), acc4);
                lemma_dk_scan_acc(s.skip(2 + nl as int), Seq::empty(), e4);
                assert(acc4 + dk_scan(s.skip(2 + nl as int), Seq::empty(), e) =~= acc + (e4
                    + dk_scan(s.skip(2 + nl as int), Seq::empty(), e)));
            }
        } else {
            lemma_ident_len_le(s.skip(1));
            let nl = ident_len(s.skip(1));
            let vsp = sspan(s.skip(1).take(nl as int), dk_var_style());
            let acc3: Seq<SpanS> = if nl > 0 { acc2.push(vsp) } else { acc2 };
            let e3: Seq<SpanS> = if nl > 0 { e2.push(vsp) } else { e2 };
            assert(acc3 =~= acc + e3);
            lemma_dk_scan_acc(s.skip(1 + nl as int), Seq::empty(), acc3);
            lemma_dk_scan_acc(s.skip(1 + nl as int), Seq::empty(), e3);
            assert(acc3 + dk_scan(s.skip(1 + nl as int), Seq::empty(), e) =~= acc + (e3 + dk_scan(
            s.skip(1 + nl as int), Seq::empty(), e)));
        }
    } else if s[0] == '"' || s[0] == '\'' {
        lemma_until_ch_le(s.skip(1), s[0]);
        let eq = 1 + until_ch(s.skip(1), s[0]);
        let pl: int = if eq < s.len() { eq as int + 1 } else { s.len() as int };
        let ssp = sspan(s.take(pl), dk_string_style());
        let acc1 = flush_plain(acc, buf).push(ssp);
        let e1 = flush_plain(e, buf).push(ssp);
        assert(acc1 =~= acc + e1);
        lemma_dk_scan_acc(s.skip(pl), Seq::empty(), acc1);
        lemma_dk_scan_acc(s.skip(pl), Seq::empty(), e1);
        assert(acc1 + dk_scan(s.skip(pl), Seq::empty(), e) =~= acc + (e1 + dk_scan(s.skip(pl),
            Seq::empty(), e)));
    } else {
        lemma_dk_scan_acc(s.drop_first(), buf.push(s[0]), acc);
    }
}

// ---------- the dotenv tokenizer ----------

/// The trailing-whitespace count of a character vector.
fn trailing_ws(v: &Vec<char>) -> (r: usize)
    ensures
        r as nat == crate::normalize::wsb(v@),
        r <= v@.len(),
{
    let n = v.len();
    let mut b: usize = 0;
    while b < n && is_ws(v[n - 1 - b])
        invariant
            b <= n,
            n == v@.len(),
            forall|k: int| n - b <= k < n ==> is_ws(v@[k]),
        decreases n - b,
    {
        b += 1;
    }
    proof {
        crate::normalize::lemma_wsb_step(v@, b as int);
    }
    b
}

/// Whether `c` occurs in the vector.
pub fn contains_ch(v: &Vec<char>, c: char) -> (r: bool)
    ensures
        r == crate::text::has_ch(v@, c),
{
    let mut i: usize = 0;
    while i < v.len()
        invariant
            i <= v@.len(),
            forall|k: int| 0 <= k < i ==> v@[k] != c,
        decreases v@.len() - i,
    {
        if v[i] == c {
            proof {
                assert(v@[i as int] == c);
            }
            return true;
        }
        i += 1;
    }
    false
}

/// Whether every character is an ASCII digit.
pub open spec fn all_digits(s: Seq<char>) -> bool {
    forall|k: int| 0 <= k < s.len() ==> is_digit(#[trigger] s[k])
}

fn all_digits_exec(v: &Vec<char>) -> (r: bool)
    ensures
        r == all_digits(v@),
{
    let mut i: usize = 0;
    while i < v.len()
        invariant
            i <= v@.len(),
            forall|k: int| 0 <= k < i ==> is_digit(#[trigger] v@[k]),
        decreases v@.len() - i,
    {
        if !is_digit(v[i]) {
            proof {
                assert(!is_digit(v@[i as int]));
            }
            return false;
        }
        i += 1;
    }
    true
}

/// One tokenized dotenv line: comments take the comment style; otherwise an
/// optional `export ` keyword, the key, the `=` sign and the value are
/// styled, with a numeric-looking value taking the number style.
pub open spec fn dv_line(l: Seq<char>) -> LineS {
    if l.len() == 0 {
        line_of(Seq::empty())
    } else {
        let a = wsf(l);
        let t = l.skip(a as int);
        if t.len() > 0 && t[0] == '#' {
            line_of(seq![sspan(l, capture_style(HighlightLanguage::Dotenv, Capture::Comment))])
        } else {
            let exporting = is_prefix("export "@, t);
            let idx: int = if exporting {
                a as int + 7
            } else {
                a as int
            };
            let pre: Seq<SpanS> = if exporting {
                seq![
                    sspan(l.take(idx), capture_style(HighlightLanguage::Dotenv, Capture::Keyword)),
                ]
            } else if a > 0 {
                seq![plain_span(l.take(a as int))]
            } else {
                Seq::empty()
            };
            let rel = until_ch(l.skip(idx), '=');
            if idx + rel >= l.len() {
                if idx < l.len() {
                    line_of(pre.push(plain_span(l.skip(idx))))
                } else {
                    line_of(pre)
                }
            } else {
                let eq = idx + rel;
                let keyseg = l.subrange(idx, eq);
                let ktl = keyseg.len() - crate::normalize::wsb(keyseg);
                let key_token = keyseg.take(ktl);
                let key_ws = keyseg.skip(ktl);
                let acc1 = pre + (if key_token.len() > 0 {
                    seq![
                        sspan(
                            key_token,
                            capture_style(HighlightLanguage::Dotenv, Capture::Attribute),
                        ),
                    ]
                } else {
                    Seq::empty()
                }) + (if key_ws.len() > 0 {
                    seq![plain_span(key_ws)]
                } else {
                    Seq::empty()
                });
                let acc2 = acc1.push(
                    sspan(seq!['='], capture_style(HighlightLanguage::Dotenv, Capture::Operator)),
                );
                let value = l.skip(eq + 1);
                if value.len() == 0 {
                    line_of(acc2)
                } else {
                    let vl = wsf(value);
                    let leading = value.take(vl as int);
                    let vt = value.skip(vl as int);
                    let acc3 = acc2 + (if leading.len() > 0 {
                        seq![plain_span(leading)]
                    } else {
                        Seq::empty()
                    });
                    let st = if (vt.len() > 0 && (vt[0] == '"' || vt[0] == '\''))
                        || crate::text::has_ch(vt, '/') || crate::text::has_ch(vt, '.') {
                        capture_style(HighlightLanguage::Dotenv, Capture::Str)
                    } else if all_digits(vt) {
                        capture_style(HighlightLanguage::Dotenv, Capture::Number)
                    } else {
                        capture_style(HighlightLanguage::Dotenv, Capture::Str)
                    };
                    line_of(acc3.push(sspan(vt, st)))
                }
            }
        }
    }
}

/// Tokenizes one dotenv line.
#[verifier::rlimit(100)]
#[verifier::spinoff_prover]
fn dv_line_exec(raw: &Vec<char>) -> (r: RLine)
    ensures
        r@ == dv_line(raw@),
{
    let mut line = RLine::new();
    if raw.len() == 0 {
        return line;
    }
    let n = raw.len();
    let (ind, t) = split_indent(raw);
    let a = ind.len();
    if t.len() > 0 && t[0] == '#' {
        let lv = copy_chars(raw);
        let cs = style_for_capture(HighlightLanguage::Dotenv, Capture::Comment);
        line.push_span(RSpan::new(lv, cs));
        proof {
            assert(line@ =~= dv_line(raw@));
        }
        return line;
    }
    let exporting = starts_with_lit(&t, "export ");
    let idx: usize = if exporting {
        proof {
            reveal_strlit("export ");
            assert(t@.len() >= 7);
        }
        a + 7
    } else {
        a
    };
    let ghost pre: Seq<SpanS> = if exporting {
        seq![sspan(raw@.take(idx as int), capture_style(HighlightLanguage::Dotenv, Capture::Keyword))]
    } else if a > 0 {
        seq![plain_span(raw@.take(a as int))]
    } else {
        Seq::empty()
    };
    if exporting {
        let kwtext = subvec(raw, 0, idx);
        let kw = style_for_capture(HighlightLanguage::Dotenv, Capture::Keyword);
        proof {
            assert(kwtext@ =~= raw@.take(idx as int));
        }
        line.push_span(RSpan::new(kwtext, kw));
        proof {
            assert(line@.spans =~= pre);
        }
    } else if a > 0 {
        line.push_span(RSpan::plain(ind));
        proof {
            assert(line@.spans =~= pre);
        }
    } else {
        proof {
            assert(line@.spans =~= pre);
        }
    }
    let rel = until_ch_exec(raw, idx, '=');
    if idx + rel >= n {
        if idx < n {
            let restv = subvec(raw, idx, n);
            proof {
                assert(restv@ =~= raw@.skip(idx as int));
            }
            line.push_span(RSpan::plain(restv));
        }
        proof {
            assert(line@ =~= dv_line(raw@));
        }
        return line;
    }
    let eq = idx + rel;
    let keyseg = subvec(raw, idx, eq);
    proof {
        assert(keyseg@ =~= raw@.subrange(idx as int, eq as int));
    }
    let b = trailing_ws(&keyseg);
    let ktl = keyseg.len() - b;
    if ktl > 0 {
        let key_token = subvec(&keyseg, 0, ktl);
        proof {
            assert(key_token@ =~= keyseg@.take(ktl as int));
        }
        let ks = style_for_capture(HighlightLanguage::Dotenv, Capture::Attribute);
        line.push_span(RSpan::new(key_token, ks));
    }
    if b > 0 {
        let key_ws = subvec(&keyseg, ktl, keyseg.len());
        proof {
            assert(key_ws@ =~= keyseg@.skip(ktl as int));
        }
        line.push_span(RSpan::plain(key_ws));
    }
    let eqs = str_chars("=");
    proof {
        reveal_strlit("=");
        assert(eqs@ =~= seq!['=']);
    }
    let op = style_for_capture(HighlightLanguage::Dotenv, Capture::Operator);
    line.push_span(RSpan::new(eqs, op));
    let ghost keysegv = raw@.subrange(idx as int, eq as int);
    let ghost acc2 = pre + (if keysegv.take(keysegv.len() - crate::normalize::wsb(keysegv)).len()
        > 0 {
        seq![
            sspan(
                keysegv.take(keysegv.len() - crate::normalize::wsb(keysegv)),
                capture_style(HighlightLanguage::Dotenv, Capture::Attribute),
            ),
        ]
    } else {
        Seq::empty()
    }) + (if keysegv.skip(keysegv.len() - crate::normalize::wsb(keysegv)).len() > 0 {
        seq![plain_span(keysegv.skip(keysegv.len() - crate::normalize::wsb(keysegv)))]
    } else {
        Seq::empty()
    });
    proof {
        assert(line@.spans =~= acc2.push(sspan(seq!['='], capture_style(HighlightLanguage::Dotenv,
            Capture::Operator))));
    }
    if eq + 1 == n {
        proof {
            assert(raw@.skip(eq + 1 as int).len() == 0);
            assert(line@ =~= dv_line(raw@));
        }
        return line;
    }
    let value = subvec(raw, eq + 1, n);
    proof {
        assert(value@ =~= raw@.skip(eq + 1 as int));
    }
    let (leading, vt) = split_indent(&value);
    if leading.len() > 0 {
        line.push_span(RSpan::plain(leading));
    }
    let quoted = vt.len() > 0 && (vt[0] == '"' || vt[0] == '\'');
    let st = if quoted || contains_ch(&vt, '/') || contains_ch(&vt, '.') {
        style_for_capture(HighlightLanguage::Dotenv, Capture::Str)
    } else if all_digits_exec(&vt) {
        style_for_capture(HighlightLanguage::Dotenv, Capture::Number)
    } else {
        style_for_capture(HighlightLanguage::Dotenv, Capture::Str)
    };
    line.push_span(RSpan::new(vt, st));
    proof {
        assert(line@ =~= dv_line(raw@));
    }
    line
}

// ---------- the ini tokenizer ----------

/// The number of leading characters that are neither `=` nor `:`.
pub open spec fn until_sep_ini(s: Seq<char>) -> nat
    decreases s.len(),
{
    if s.len() > 0 && s[0] != '=' && s[0] != ':' {
        1 + until_sep_ini(s.drop_first())
    } else {
        0
    }
}

fn until_sep_ini_exec(v: &Vec<char>, i: usize) -> (r: usize)
    requires
        i <= v@.len(),
    ensures
        i + r <= v@.len(),
        r as nat == until_sep_ini(v@.skip(i as int)),
    decreases v@.len() - i,
{
    if i < v.len() && v[i] != '=' && v[i] != ':' {
        proof {
            assert(v@.skip(i as int)[0] == v@[i as int]);
            assert(v@.skip(i as int).drop_first() =~= v@.skip(i + 1 as int));
        }
        1 + until_sep_ini_exec(v, i + 1)
    } else {
        proof {
            if i < v@.len() {
                assert(v@.skip(i as int)[0] == v@[i as int]);
            }
        }
        0
    }
}

/// One tokenized ini line: comments and section headers take one style for
/// the whole line; a `key = value` line styles its key, separator and value.
pub open spec fn ini_line(l: Seq<char>) -> LineS {
    if l.len() == 0 {
        line_of(Seq::empty())
    } else {
        let a = wsf(l);
        let t = l.skip(a as int);
        if t.len() > 0 && (t[0] == ';' || t[0] == '#') {
            line_of(seq![sspan(l, capture_style(HighlightLanguage::Ini, Capture::Comment))])
        } else if t.len() >= 2 && t[0] == '[' && t.last() == ']' {
            line_of(seq![sspan(l, capture_style(HighlightLanguage::Ini, Capture::Keyword))])
        } else {
            let k = until_sep_ini(t);
            if k >= t.len() {
                line_of(seq![plain_span(l)])
            } else {
                let pre: Seq<SpanS> = if a > 0 {
                    seq![plain_span(l.take(a as int))]
                } else {
                    Seq::empty()
                };
                let keyp = t.take(k as int);
                let ktl = keyp.len() - crate::normalize::wsb(keyp);
                let key_token = keyp.take(ktl);
                let key_ws = keyp.skip(ktl);
                let acc1 = pre + (if key_token.len() > 0 {
                    seq![
                        sspan(
                            key_token,
                            capture_style(HighlightLanguage::Ini, Capture::Attribute),
                        ),
                    ]
                } else {
                    Seq::empty()
                }) + (if key_ws.len() > 0 {
                    seq![plain_span(key_ws)]
                } else {
                    Seq::empty()
                });
                let acc2 = acc1.push(
                    sspan(
                        seq![t[k as int]],
                        capture_style(HighlightLanguage::Ini, Capture::Operator),
                    ),
                );
                let value = t.skip(k as int + 1);
                if value.len() > 0 {
                    acc2.push(sspan(value, capture_style(HighlightLanguage::Ini, Capture::Str)));
                    line_of(
                        acc2.push(
                            sspan(value, capture_style(HighlightLanguage::Ini, Capture::Str)),
                        ),
                    )
                } else {
                    line_of(acc2)
                }
            }
        }
    }
}

/// Tokenizes one ini line.
#[verifier::rlimit(100)]
#[verifier::spinoff_prover]
fn ini_line_exec(raw: &Vec<char>) -> (r: RLine)
    ensures
        r@ == ini_line(raw@),
{
    let mut line = RLine::new();
    if raw.len() == 0 {
        return line;
    }
    let (ind, t) = split_indent(raw);
    let a = ind.len();
    if t.len() > 0 && (t[0] == ';' || t[0] == '#') {
        let lv = copy_chars(raw);
        let cs = style_for_capture(HighlightLanguage::Ini, Capture::Comment);
        line.push_span(RSpan::new(lv, cs));
        proof {
            assert(line@ =~= ini_line(raw@));
        }
        return line;
    }
    if t.len() >= 2 && t[0] == '[' && t[t.len() - 1] == ']' {
        proof {
            assert(t@.last() == t@[t@.len() - 1]);
        }
        let lv = copy_chars(raw);
        let cs = style_for_capture(HighlightLanguage::Ini, Capture::Keyword);
        line.push_span(RSpan::new(lv, cs));
        proof {
            assert(line@ =~= ini_line(raw@));
        }
        return line;
    }
    proof {
        if t@.len() >= 2 && t@[0] == '[' {
            assert(t@.last() == t@[t@.len() - 1]);
        }
    }
    let k = until_sep_ini_exec(&t, 0);
    proof {
        assert(t@.skip(0) =~= t@);
    }
    if k >= t.len() {
        let lv = copy_chars(raw);
        line.push_span(RSpan::plain(lv));
        proof {
            assert(line@ =~= ini_line(raw@));
        }
        return line;
    }
    let ghost pre: Seq<SpanS> = if a > 0 {
        seq![plain_span(raw@.take(a as int))]
    } else {
        Seq::empty()
    };
    if a > 0 {
        line.push_span(RSpan::plain(ind));
        proof {
            assert(line@.spans =~= pre);
        }
    } else {
        proof {
            assert(line@.spans =~= pre);
        }
    }
    let keyp = subvec(&t, 0, k);
    proof {
        assert(keyp@ =~= t@.take(k as int));
    }
    let b = trailing_ws(&keyp);
    let ktl = keyp.len() - b;
    if ktl > 0 {
        let key_token = subvec(&keyp, 0, ktl);
        proof {
            assert(key_token@ =~= keyp@.take(ktl as int));
        }
        let ks = style_for_capture(HighlightLanguage::Ini, Capture::Attribute);
        line.push_span(RSpan::new(key_token, ks));
    }
    if b > 0 {
        let key_ws = subvec(&keyp, ktl, keyp.len());
        proof {
            assert(key_ws@ =~= keyp@.skip(ktl as int));
        }
        line.push_span(RSpan::plain(key_ws));
    }
    let mut sep: Vec<char> = Vec::new();
    sep.push(t[k]);
    proof {
        assert(sep@ =~= seq![t@[k as int]]);
    }
    let op = style_for_capture(HighlightLanguage::Ini, Capture::Operator);
    line.push_span(RSpan::new(sep, op));
    if k + 1 < t.len() {
        let value = subvec(&t, k + 1, t.len());
        proof {
            assert(value@ =~= t@.skip(k + 1 as int));
        }
        let vs = style_for_capture(HighlightLanguage::Ini, Capture::Str);
        line.push_span(RSpan::new(value, vs));
    }
    proof {
        assert(line@ =~= ini_line(raw@));
    }
    line
}

// ---------- per-line mapping ----------

/// Which tokenizer a lightweight language uses, applied per line.
pub open spec fn token_line(lang: HighlightLanguage, l: Seq<char>) -> LineS {
    match lang {
        HighlightLanguage::Markdown => md_line(l),
        HighlightLanguage::Dockerfile => dk_line(l),
        HighlightLanguage::Dotenv => dv_line(l),
        _ => ini_line(l),
    }
}

/// The tokenized lines of a lightweight language.
pub open spec fn token_lines(lang: HighlightLanguage, ls: Seq<Seq<char>>) -> Seq<LineS>
    decreases ls.len(),
{
    if ls.len() == 0 {
        Seq::empty()
    } else {
        token_lines(lang, ls.drop_last()).push(token_line(lang, ls.last()))
    }
}

/// Tokenizes a source text line by line with one of the lightweight
/// tokenizers.
fn tokenize_exec(lang: HighlightLanguage, source: &Vec<char>) -> (r: Vec<RLine>)
    requires
        lang == HighlightLanguage::Markdown || lang == HighlightLanguage::Dockerfile || lang
            == HighlightLanguage::Dotenv || lang == HighlightLanguage::Ini,
    ensures
        views_of(r@) == token_lines(lang, crate::text::split_nl(source@)),
{
    let lines = crate::text::split_nl_exec(source);
    let ghost lv = views_of(lines@);
    let mut out: Vec<RLine> = Vec::new();
    let mut i: usize = 0;
    proof {
        assert(views_of(out@) =~= token_lines(lang, lv.take(0)));
    }
    while i < lines.len()
        invariant
            i <= lines@.len(),
            lv == views_of(lines@),
            lang == HighlightLanguage::Markdown || lang == HighlightLanguage::Dockerfile || lang
                == HighlightLanguage::Dotenv || lang == HighlightLanguage::Ini,
            views_of(out@) == token_lines(lang, lv.take(i as int)),
        decreases lines@.len() - i,
    {
        let line = match lang {
            HighlightLanguage::Markdown => md_line_exec(&lines[i]),
            HighlightLanguage::Dockerfile => dk_line_exec(&lines[i]),
            HighlightLanguage::Dotenv => dv_line_exec(&lines[i]),
            _ => ini_line_exec(&lines[i]),
        };
        proof {
            lemma_views_of_push(out@, line);
            assert(lv.take(i + 1 as int).drop_last() =~= lv.take(i as int));
            assert(lv.take(i + 1 as int).last() == lv[i as int]);
            assert(views_of(out@).push(line@) =~= token_lines(lang, lv.take(i + 1 as int)));
        }
        out.push(line);
        i += 1;
    }
    proof {
        assert(lv.take(lines@.len() as int) =~= lv);
    }
    out
}

// ---------- the grammar-based strategy ----------

/// One step of the highlighter's event stream, reduced to plain values: a
/// scope opening with its capture index, a scope closing, or a source piece.
pub enum HlPiece {
    Start(usize),
    End,
    Text(Vec<char>),
}

#[verifier::external_type_specification]
#[verifier::external_body]
pub struct ExHighlightConfiguration(tree_sitter_highlight::HighlightConfiguration);

#[verifier::external_type_specification]
#[verifier::external_body]
pub struct ExHighlightEvent(tree_sitter_highlight::HighlightEvent);

#[verifier::external_type_specification]
#[verifier::external_body]
pub struct ExHighlightError(tree_sitter_highlight::Error);

/// The grammar a configuration was built for.
pub uninterp spec fn cfg_tag(c: tree_sitter_highlight::HighlightConfiguration) -> Seq<char>;

/// The capture names a configuration was configured with.
pub uninterp spec fn cfg_names(c: tree_sitter_highlight::HighlightConfiguration) -> Seq<Seq<char>>;

/// Whether the grammar and query of a given tag load successfully.
pub uninterp spec fn cfg_ok(tag: Seq<char>, names: Seq<Seq<char>>) -> bool;

/// The event pieces the highlighter reports for a configuration tag, its
/// capture names, and a source text; absent when highlighting fails.
pub uninterp spec fn grammar_run(tag: Seq<char>, names: Seq<Seq<char>>, source: Seq<char>) -> Option<
    Seq<HlPiece>,
>;

/// The pieces of an optional piece vector.
pub open spec fn pieces_of(r: Option<Vec<HlPiece>>) -> Option<Seq<HlPiece>> {
    match r {
        Some(v) => Some(v@),
        None => None,
    }
}

/// The grammar tag a language resolves to; the lightweight formats share the
/// bash tag, though their tokenizers answer before it is consulted.
pub open spec fn lang_tag(lang: HighlightLanguage) -> Seq<char> {
    match lang {
        HighlightLanguage::Bash => "bash"@,
        HighlightLanguage::Python => "python"@,
        HighlightLanguage::JavaScript => "javascript"@,
        HighlightLanguage::TypeScript => "typescript"@,
        HighlightLanguage::Tsx => "tsx"@,
        HighlightLanguage::Json => "json"@,
        HighlightLanguage::Toml => "toml"@,
        HighlightLanguage::Yaml => "yaml"@,
        HighlightLanguage::Rust => "rust"@,
        HighlightLanguage::Css => "css"@,
        HighlightLanguage::Html => "html"@,
        HighlightLanguage::Sql => "sql"@,
        HighlightLanguage::Java => "java"@,
        HighlightLanguage::Kotlin => "kotlin"@,
        HighlightLanguage::Dart => "dart"@,
        HighlightLanguage::Hcl => "hcl"@,
        HighlightLanguage::Xml => "xml"@,
        _ => "bash"@,
    }
}

/// The optional style of the innermost active capture.
pub open spec fn hl_style(lang: HighlightLanguage, stack: Seq<usize>) -> Option<TextStyle> {
    if stack.len() > 0 {
        Some(capture_style(lang, capture_at(stack.last() as int)))
    } else {
        None
    }
}

/// A span under an optional style: styled, or plain when no capture is
/// active.
pub open spec fn opt_span(t: Seq<char>, st: Option<TextStyle>) -> SpanS {
    match st {
        Some(x) => sspan(t, x),
        None => plain_span(t),
    }
}

/// Appends a span to the last line, dropping it when no line exists.
pub open spec fn append_span_last(lines: Seq<LineS>, sp: SpanS) -> Seq<LineS> {
    if lines.len() == 0 {
        lines
    } else {
        lines.update(
            lines.len() - 1,
            LineS { spans: lines.last().spans.push(sp), style: lines.last().style },
        )
    }
}

/// Distributes one source piece's newline-split parts over the line list:
/// every part after the first starts a new line, and nonempty parts become
/// spans on the last line.
pub open spec fn seg_step(
    lines: Seq<LineS>,
    parts: Seq<Seq<char>>,
    st: Option<TextStyle>,
    first: bool,
) -> Seq<LineS>
    decreases parts.len(),
{
    if parts.len() == 0 {
        lines
    } else {
        let lines1 = if first {
            lines
        } else {
            lines.push(line_of(Seq::empty()))
        };
        let lines2 = if parts[0].len() > 0 {
            append_span_last(lines1, opt_span(parts[0], st))
        } else {
            lines1
        };
        seg_step(lines2, parts.drop_first(), st, false)
    }
}

/// The state of the scope-stack walk over highlighter pieces.
#[verifier::ext_equal]
pub ghost struct HlStateS {
    pub lines: Seq<LineS>,
    pub stack: Seq<usize>,
}

/// One piece applied to the walk state.
pub open spec fn hl_step(lang: HighlightLanguage, st: HlStateS, p: HlPiece) -> HlStateS {
    match p {
        HlPiece::Start(i) => HlStateS { lines: st.lines, stack: st.stack.push(i) },
        HlPiece::End => HlStateS {
            lines: st.lines,
            stack: if st.stack.len() > 0 {
                st.stack.drop_last()
            } else {
                st.stack
            },
        },
        HlPiece::Text(t) => HlStateS {
            lines: seg_step(st.lines, crate::text::split_nl(t@), hl_style(lang, st.stack), true),
            stack: st.stack,
        },
    }
}

pub open spec fn hl_fold_rec(lang: HighlightLanguage, ps: Seq<HlPiece>, st: HlStateS) -> HlStateS
    decreases ps.len(),
{
    if ps.len() == 0 {
        st
    } else {
        hl_fold_rec(lang, ps.drop_first(), hl_step(lang, st, ps[0]))
    }
}

pub open spec fn hl_init() -> HlStateS {
    HlStateS { lines: seq![line_of(Seq::empty())], stack: Seq::empty() }
}

/// The lines the scope-stack walk produces for a piece stream.
pub open spec fn hl_fold(lang: HighlightLanguage, ps: Seq<HlPiece>) -> Seq<LineS> {
    hl_fold_rec(lang, ps, hl_init()).lines
}

/// Builds the styled lines for a piece stream.
fn hl_build(lang: HighlightLanguage, pieces: &Vec<HlPiece>) -> (r: Vec<RLine>)
    ensures
        views_of(r@) == hl_fold(lang, pieces@),
{
    let mut out: Vec<RLine> = Vec::new();
    out.push(RLine::new());
    let mut stack: Vec<usize> = Vec::new();
    let mut i: usize = 0;
    proof {
        assert(pieces@.skip(0) =~= pieces@);
        assert(views_of(out@) =~= hl_init().lines);
        assert(stack@ =~= hl_init().stack);
        assert((HlStateS { lines: views_of(out@), stack: stack@ }) =~= hl_init());
    }
    while i < pieces.len()
        invariant
            i <= pieces@.len(),
            views_of(out@).len() > 0,
            hl_fold_rec(lang, pieces@.skip(i as int), HlStateS { lines: views_of(out@), stack: stack@ })
                == hl_fold_rec(lang, pieces@, hl_init()),
        decreases pieces@.len() - i,
    {
        let ghost pre = pieces@.skip(i as int);
        let ghost st0 = HlStateS { lines: views_of(out@), stack: stack@ };
        proof {
            assert(pre[0] == pieces@[i as int]);
            assert(pre.drop_first() =~= pieces@.skip(i + 1 as int));
        }
        match &pieces[i] {
            HlPiece::Start(idx) => {
                stack.push(*idx);
                proof {
                    assert((HlStateS { lines: views_of(out@), stack: stack@ }) =~= hl_step(lang, st0, pre[0]));
                }
            },
            HlPiece::End => {
                if stack.len() > 0 {
                    stack.pop();
                    proof {
                        assert(stack@ =~= st0.stack.drop_last());
                    }
                }
                proof {
                    assert((HlStateS { lines: views_of(out@), stack: stack@ }) =~= hl_step(lang, st0, pre[0]));
                }
            },
            HlPiece::Text(t) => {
                let st_opt: Option<TextStyle> = if stack.len() > 0 {
                    let c = capture_of_index(stack[stack.len() - 1]);
                    proof {
                        assert(stack@.last() == stack@[stack@.len() - 1]);
                    }
                    Some(style_for_capture(lang, c))
                } else {
                    None
                };
                proof {
                    assert(st_opt == hl_style(lang, stack@));
                }
                let parts = crate::text::split_nl_exec(t);
                let ghost pv = views_of(parts@);
                let ghost lines0 = views_of(out@);
                let mut j: usize = 0;
                proof {
                    assert(pv.skip(0) =~= pv);
                }
                while j < parts.len()
                    invariant
                        j <= parts@.len(),
                        pv == views_of(parts@),
                        views_of(out@).len() > 0,
                        seg_step(views_of(out@), pv.skip(j as int), st_opt, j == 0) == seg_step(
                            lines0,
                            pv,
                            st_opt,
                            true,
                        ),
                    decreases parts@.len() - j,
                {
                    let ghost ppre = pv.skip(j as int);
                    let ghost plines = views_of(out@);
                    proof {
                        assert(ppre[0] == pv[j as int]);
                        assert(ppre.drop_first() =~= pv.skip(j + 1 as int));
                    }
                    if j > 0 {
                        let nl = RLine::new();
                        proof {
                            lemma_views_of_push(out@, nl);
                        }
                        out.push(nl);
                        proof {
                            assert(views_of(out@) =~= plines.push(line_of(Seq::empty())));
                        }
                    }
                    let ghost lines1 = views_of(out@);
                    if parts[j].len() > 0 {
                        let piece = copy_chars(&parts[j]);
                        let span = match st_opt {
                            Some(x) => RSpan::new(piece, x),
                            None => RSpan::plain(piece),
                        };
                        proof {
                            assert(span@ == opt_span(pv[j as int], st_opt));
                        }
                        let li = out.len() - 1;
                        let mut lastl = match out.pop() {
                            Some(l) => l,
                            None => RLine::new(),
                        };
                        let ghost popped = views_of(out@);
                        lastl.push_span(span);
                        proof {
                            lemma_views_of_push(out@, lastl);
                        }
                        out.push(lastl);
                        proof {
                            assert(views_of(out@) =~= append_span_last(lines1, opt_span(pv[j as int], st_opt)));
                        }
                    }
                    j += 1;
                }
                proof {
                    assert(pv.skip(parts@.len() as int) =~= Seq::<Seq<char>>::empty());
                    assert(views_of(out@) =~= seg_step(lines0, pv, st_opt, true));
                    assert((HlStateS { lines: views_of(out@), stack: stack@ }) =~= hl_step(lang, st0, pre[0]));
                }
            },
        }
        i += 1;
    }
    proof {
        assert(pieces@.skip(pieces@.len() as int) =~= Seq::<HlPiece>::empty());
    }
    out
}

/// The joined text of built lines.
fn lines_joined(out: &Vec<RLine>) -> (r: Vec<char>)
    ensures
        r@ == crate::line::lines_text(views_of(out@)),
{
    let mut r: Vec<char> = Vec::new();
    let mut i: usize = 0;
    while i < out.len()
        invariant
            i <= out@.len(),
            r@ == crate::line::lines_text(views_of(out@).take(i as int)),
        decreases out@.len() - i,
    {
        if i > 0 {
            r.push('\n');
        }
        let t = crate::line::rline_text(&out[i]);
        crate::text::append_chars(&mut r, &t);
        proof {
            let lv = views_of(out@);
            assert(lv.take(i + 1 as int).drop_last() =~= lv.take(i as int));
            assert(lv.take(i + 1 as int).last() == lv[i as int]);
            if i == 0 {
                assert(r@ =~= crate::line::lines_text(lv.take(1)));
            } else {
                assert(r@ =~= crate::line::lines_text(lv.take(i + 1 as int)));
            }
        }
        i += 1;
    }
    proof {
        assert(views_of(out@).take(out@.len() as int) =~= views_of(out@));
    }
    r
}

/// The whole source as one unstyled line.
pub open spec fn fallback_line(s: Seq<char>) -> LineS {
    line_of(seq![plain_span(s)])
}

/// What highlighting a source in a language yields: tokenized lines for the
/// lightweight formats; otherwise the grammar walk's lines when the grammar
/// loads, the run succeeds, and the lines reconstruct the source exactly, and
/// the whole source as one unstyled line in every other case.
pub open spec fn highlight_spec(lang: HighlightLanguage, s: Seq<char>) -> Seq<LineS> {
    match lang {
        HighlightLanguage::Markdown => token_lines(lang, crate::text::split_nl(s)),
        HighlightLanguage::Dockerfile => token_lines(lang, crate::text::split_nl(s)),
        HighlightLanguage::Dotenv => token_lines(lang, crate::text::split_nl(s)),
        HighlightLanguage::Ini => token_lines(lang, crate::text::split_nl(s)),
        _ => {
            if !cfg_ok(lang_tag(lang), names_spec()) {
                seq![fallback_line(s)]
            } else {
                match grammar_run(lang_tag(lang), names_spec(), s) {
                    None => seq![fallback_line(s)],
                    Some(ps) => {
                        let ls = hl_fold(lang, ps);
                        if crate::line::lines_text(ls) == s {
                            ls
                        } else {
                            seq![fallback_line(s)]
                        }
                    },
                }
            }
        },
    }
}

/// Relies on `tree_sitter_highlight::HighlightConfiguration::new` over
/// `tree_sitter_bash` with its shipped highlight query; `configure` fixes which
/// capture names the reported highlight indices refer to.
#[verifier::external_body]
fn config_bash(names: &Vec<String>) -> (r: Option<tree_sitter_highlight::HighlightConfiguration>)
    ensures
        r is Some <==> cfg_ok("bash"@, views_of(names@)),
        r matches Some(c) ==> cfg_tag(c) == "bash"@ && cfg_names(c) == views_of(names@),
{
    match tree_sitter_highlight::HighlightConfiguration::new(
        tree_sitter_bash::LANGUAGE.into(),
        "bash",
        tree_sitter_bash::HIGHLIGHT_QUERY,
        "",
        "",
    ) {
        Ok(mut config) => { config.configure(names); Some(config) },
        Err(_) => None,
    }
}

/// Relies on `tree_sitter_highlight::HighlightConfiguration::new` over
/// `tree_sitter_python` with its shipped highlight query; `configure` fixes which
/// capture names the reported highlight indices refer to.
#[verifier::external_body]
fn config_python(names: &Vec<String>) -> (r: Option<tree_sitter_highlight::HighlightConfiguration>)
    ensures
        r is Some <==> cfg_ok("python"@, views_of(names@)),
        r matches Some(c) ==> cfg_tag(c) == "python"@ && cfg_names(c) == views_of(names@),
{
    match tree_sitter_highlight::HighlightConfiguration::new(
        tree_sitter_python::LANGUAGE.into(),
        "python",
        tree_sitter_python::HIGHLIGHTS_QUERY,
        "",
        "",
    ) {
        Ok(mut config) => { config.configure(names); Some(config) },
        Err(_) => None,
    }
}

/// Relies on `tree_sitter_highlight::HighlightConfiguration::new` over
/// `tree_sitter_javascript` with its shipped highlight query; `configure` fixes which
/// capture names the reported highlight indices refer to.
#[verifier::external_body]
fn config_javascript(names: &Vec<String>) -> (r: Option<tree_sitter_highlight::HighlightConfiguration>)
    ensures
        r is Some <==> cfg_ok("javascript"@, views_of(names@)),
        r matches Some(c) ==> cfg_tag(c) == "javascript"@ && cfg_names(c) == views_of(names@),
{
    match tree_sitter_highlight::HighlightConfiguration::new(
        tree_sitter_javascript::LANGUAGE.into(),
        "javascript",
        tree_sitter_javascript::HIGHLIGHT_QUERY,
        "",
        "",
    ) {
        Ok(mut config) => { config.configure(names); Some(config) },
        Err(_) => None,
    }
}

/// Relies on `tree_sitter_highlight::HighlightConfiguration::new` over
/// `tree_sitter_typescript` with its shipped highlight query; `configure` fixes which
/// capture names the reported highlight indices refer to.
#[verifier::external_body]
fn config_typescript(names: &Vec<String>) -> (r: Option<tree_sitter_highlight::HighlightConfiguration>)
    ensures
        r is Some <==> cfg_ok("typescript"@, views_of(names@)),
        r matches Some(c) ==> cfg_tag(c) == "typescript"@ && cfg_names(c) == views_of(names@),
{
    match tree_sitter_highlight::HighlightConfiguration::new(
        tree_sitter_typescript::LANGUAGE_TYPESCRIPT.into(),
        "typescript",
        tree_sitter_typescript::HIGHLIGHTS_QUERY,
        "",
        "",
    ) {
        Ok(mut config) => { config.configure(names); Some(config) },
        Err(_) => None,
    }
}

/// Relies on `tree_sitter_highlight::HighlightConfiguration::new` over
/// `tree_sitter_typescript` with the TSX grammar and shared highlight query; `configure` fixes which
/// capture names the reported highlight indices refer to.
#[verifier::external_body]
fn config_tsx(names: &Vec<String>) -> (r: Option<tree_sitter_highlight::HighlightConfiguration>)
    ensures
        r is Some <==> cfg_ok("tsx"@, views_of(names@)),
        r matches Some(c) ==> cfg_tag(c) == "tsx"@ && cfg_names(c) == views_of(names@),
{
    match tree_sitter_highlight::HighlightConfiguration::new(
        tree_sitter_typescript::LANGUAGE_TSX.into(),
        "tsx",
        tree_sitter_typescript::HIGHLIGHTS_QUERY,
        "",
        "",
    ) {
        Ok(mut config) => { config.configure(names); Some(config) },
        Err(_) => None,
    }
}

/// Relies on `tree_sitter_highlight::HighlightConfiguration::new` over
/// `tree_sitter_json` with its shipped highlight query; `configure` fixes which
/// capture names the reported highlight indices refer to.
#[verifier::external_body]
fn config_json(names: &Vec<String>) -> (r: Option<tree_sitter_highlight::HighlightConfiguration>)
    ensures
        r is Some <==> cfg_ok("json"@, views_of(names@)),
        r matches Some(c) ==> cfg_tag(c) == "json"@ && cfg_names(c) == views_of(names@),
{
    match tree_sitter_highlight::HighlightConfiguration::new(
        tree_sitter_json::LANGUAGE.into(),
        "json",
        tree_sitter_json::HIGHLIGHTS_QUERY,
        "",
        "",
    ) {
        Ok(mut config) => { config.configure(names); Some(config) },
        Err(_) => None,
    }
}

/// Relies on `tree_sitter_highlight::HighlightConfiguration::new` over
/// `tree_sitter_toml_ng` with its shipped highlight query; `configure` fixes which
/// capture names the reported highlight indices refer to.
#[verifier::external_body]
fn config_toml(names: &Vec<String>) -> (r: Option<tree_sitter_highlight::HighlightConfiguration>)
    ensures
        r is Some <==> cfg_ok("toml"@, views_of(names@)),
        r matches Some(c) ==> cfg_tag(c) == "toml"@ && cfg_names(c) == views_of(names@),
{
    match tree_sitter_highlight::HighlightConfiguration::new(
        tree_sitter_toml_ng::LANGUAGE.into(),
        "toml",
        tree_sitter_toml_ng::HIGHLIGHTS_QUERY,
        "",
        "",
    ) {
        Ok(mut config) => { config.configure(names); Some(config) },
        Err(_) => None,
    }
}

/// Relies on `tree_sitter_highlight::HighlightConfiguration::new` over
/// `tree_sitter_yaml` with its shipped highlight query; `configure` fixes which
/// capture names the reported highlight indices refer to.
#[verifier::external_body]
fn config_yaml(names: &Vec<String>) -> (r: Option<tree_sitter_highlight::HighlightConfiguration>)
    ensures
        r is Some <==> cfg_ok("yaml"@, views_of(names@)),
        r matches Some(c) ==> cfg_tag(c) == "yaml"@ && cfg_names(c) == views_of(names@),
{
    match tree_sitter_highlight::HighlightConfiguration::new(
        tree_sitter_yaml::LANGUAGE.into(),
        "yaml",
        tree_sitter_yaml::HIGHLIGHTS_QUERY,
        "",
        "",
    ) {
        Ok(mut config) => { config.configure(names); Some(config) },
        Err(_) => None,
    }
}

/// Relies on `tree_sitter_highlight::HighlightConfiguration::new` over
/// `tree_sitter_rust` with its shipped highlight query; `configure` fixes which
/// capture names the reported highlight indices refer to.
#[verifier::external_body]
fn config_rust(names: &Vec<String>) -> (r: Option<tree_sitter_highlight::HighlightConfiguration>)
    ensures
        r is Some <==> cfg_ok("rust"@, views_of(names@)),
        r matches Some(c) ==> cfg_tag(c) == "rust"@ && cfg_names(c) == views_of(names@),
{
    match tree_sitter_highlight::HighlightConfiguration::new(
        tree_sitter_rust::LANGUAGE.into(),
        "rust",
        tree_sitter_rust::HIGHLIGHTS_QUERY,
        "",
        "",
    ) {
        Ok(mut config) => { config.configure(names); Some(config) },
        Err(_) => None,
    }
}

/// Relies on `tree_sitter_highlight::HighlightConfiguration::new` over
/// `tree_sitter_css` with its shipped highlight query; `configure` fixes which
/// capture names the reported highlight indices refer to.
#[verifier::external_body]
fn config_css(names: &Vec<String>) -> (r: Option<tree_sitter_highlight::HighlightConfiguration>)
    ensures
        r is Some <==> cfg_ok("css"@, views_of(names@)),
        r matches Some(c) ==> cfg_tag(c) == "css"@ && cfg_names(c) == views_of(names@),
{
    match tree_sitter_highlight::HighlightConfiguration::new(
        tree_sitter_css::LANGUAGE.into(),
        "css",
        tree_sitter_css::HIGHLIGHTS_QUERY,
        "",
        "",
    ) {
        Ok(mut config) => { config.configure(names); Some(config) },
        Err(_) => None,
    }
}

/// Relies on `tree_sitter_highlight::HighlightConfiguration::new` over
/// `tree_sitter_html` with its shipped highlight and injection queries; `configure` fixes which
/// capture names the reported highlight indices refer to.
#[verifier::external_body]
fn config_html(names: &Vec<String>) -> (r: Option<tree_sitter_highlight::HighlightConfiguration>)
    ensures
        r is Some <==> cfg_ok("html"@, views_of(names@)),
        r matches Some(c) ==> cfg_tag(c) == "html"@ && cfg_names(c) == views_of(names@),
{
    match tree_sitter_highlight::HighlightConfiguration::new(
        tree_sitter_html::LANGUAGE.into(),
        "html",
        tree_sitter_html::HIGHLIGHTS_QUERY,
        tree_sitter_html::INJECTIONS_QUERY,
        "",
    ) {
        Ok(mut config) => { config.configure(names); Some(config) },
        Err(_) => None,
    }
}

/// Relies on `tree_sitter_highlight::HighlightConfiguration::new` over
/// `tree_sitter_sequel` with its shipped highlight query; `configure` fixes which
/// capture names the reported highlight indices refer to.
#[verifier::external_body]
fn config_sql(names: &Vec<String>) -> (r: Option<tree_sitter_highlight::HighlightConfiguration>)
    ensures
        r is Some <==> cfg_ok("sql"@, views_of(names@)),
        r matches Some(c) ==> cfg_tag(c) == "sql"@ && cfg_names(c) == views_of(names@),
{
    match tree_sitter_highlight::HighlightConfiguration::new(
        tree_sitter_sequel::LANGUAGE.into(),
        "sql",
        tree_sitter_sequel::HIGHLIGHTS_QUERY,
        "",
        "",
    ) {
        Ok(mut config) => { config.configure(names); Some(config) },
        Err(_) => None,
    }
}

/// Relies on `tree_sitter_highlight::HighlightConfiguration::new` over
/// `tree_sitter_java` with its shipped highlight query; `configure` fixes which
/// capture names the reported highlight indices refer to.
#[verifier::external_body]
fn config_java(names: &Vec<String>) -> (r: Option<tree_sitter_highlight::HighlightConfiguration>)
    ensures
        r is Some <==> cfg_ok("java"@, views_of(names@)),
        r matches Some(c) ==> cfg_tag(c) == "java"@ && cfg_names(c) == views_of(names@),
{
    match tree_sitter_highlight::HighlightConfiguration::new(
        tree_sitter_java::LANGUAGE.into(),
        "java",
        tree_sitter_java::HIGHLIGHTS_QUERY,
        "",
        "",
    ) {
        Ok(mut config) => { config.configure(names); Some(config) },
        Err(_) => None,
    }
}

/// Relies on `tree_sitter_highlight::HighlightConfiguration::new` over
/// `tree_sitter_kotlin_codanna` with its shipped highlight query; `configure` fixes which
/// capture names the reported highlight indices refer to.
#[verifier::external_body]
fn config_kotlin(names: &Vec<String>) -> (r: Option<tree_sitter_highlight::HighlightConfiguration>)
    ensures
        r is Some <==> cfg_ok("kotlin"@, views_of(names@)),
        r matches Some(c) ==> cfg_tag(c) == "kotlin"@ && cfg_names(c) == views_of(names@),
{
    match tree_sitter_highlight::HighlightConfiguration::new(
        tree_sitter_kotlin_codanna::language(),
        "kotlin",
        tree_sitter_kotlin_codanna::HIGHLIGHTS_QUERY,
        "",
        "",
    ) {
        Ok(mut config) => { config.configure(names); Some(config) },
        Err(_) => None,
    }
}

/// Relies on `tree_sitter_highlight::HighlightConfiguration::new` over
/// `tree_sitter_dart` with its shipped highlight query; `configure` fixes which
/// capture names the reported highlight indices refer to.
#[verifier::external_body]
fn config_dart(names: &Vec<String>) -> (r: Option<tree_sitter_highlight::HighlightConfiguration>)
    ensures
        r is Some <==> cfg_ok("dart"@, views_of(names@)),
        r matches Some(c) ==> cfg_tag(c) == "dart"@ && cfg_names(c) == views_of(names@),
{
    match tree_sitter_highlight::HighlightConfiguration::new(
        tree_sitter_dart::LANGUAGE.into(),
        "dart",
        tree_sitter_dart::HIGHLIGHTS_QUERY,
        "",
        "",
    ) {
        Ok(mut config) => { config.configure(names); Some(config) },
        Err(_) => None,
    }
}

/// Relies on `tree_sitter_highlight::HighlightConfiguration::new` over
/// `tree_sitter_hcl` with an empty highlight query, as the crate ships none: the text parses but nothing is styled; `configure` fixes which
/// capture names the reported highlight indices refer to.
#[verifier::external_body]
fn config_hcl(names: &Vec<String>) -> (r: Option<tree_sitter_highlight::HighlightConfiguration>)
    ensures
        r is Some <==> cfg_ok("hcl"@, views_of(names@)),
        r matches Some(c) ==> cfg_tag(c) == "hcl"@ && cfg_names(c) == views_of(names@),
{
    match tree_sitter_highlight::HighlightConfiguration::new(
        tree_sitter_hcl::LANGUAGE.into(),
        "hcl",
        "",
        "",
        "",
    ) {
        Ok(mut config) => { config.configure(names); Some(config) },
        Err(_) => None,
    }
}

/// Relies on `tree_sitter_highlight::HighlightConfiguration::new` over
/// `tree_sitter_xml` with its shipped highlight query; `configure` fixes which
/// capture names the reported highlight indices refer to.
#[verifier::external_body]
fn config_xml(names: &Vec<String>) -> (r: Option<tree_sitter_highlight::HighlightConfiguration>)
    ensures
        r is Some <==> cfg_ok("xml"@, views_of(names@)),
        r matches Some(c) ==> cfg_tag(c) == "xml"@ && cfg_names(c) == views_of(names@),
{
    match tree_sitter_highlight::HighlightConfiguration::new(
        tree_sitter_xml::LANGUAGE_XML.into(),
        "xml",
        tree_sitter_xml::XML_HIGHLIGHT_QUERY,
        "",
        "",
    ) {
        Ok(mut config) => { config.configure(names); Some(config) },
        Err(_) => None,
    }
}

/// The grammar configuration of a language; the lightweight formats share the
/// bash configuration, mirroring the exhaustive dispatch, though their
/// tokenizers answer before it is consulted.
fn grammar_config(lang: HighlightLanguage, names: &Vec<String>) -> (r: Option<
    tree_sitter_highlight::HighlightConfiguration,
>)
    ensures
        r is Some <==> cfg_ok(lang_tag(lang), views_of(names@)),
        r matches Some(c) ==> cfg_tag(c) == lang_tag(lang) && cfg_names(c) == views_of(names@),
{
    match lang {
        HighlightLanguage::Bash => config_bash(names),
        HighlightLanguage::Python => config_python(names),
        HighlightLanguage::JavaScript => config_javascript(names),
        HighlightLanguage::TypeScript => config_typescript(names),
        HighlightLanguage::Tsx => config_tsx(names),
        HighlightLanguage::Json => config_json(names),
        HighlightLanguage::Toml => config_toml(names),
        HighlightLanguage::Yaml => config_yaml(names),
        HighlightLanguage::Rust => config_rust(names),
        HighlightLanguage::Css => config_css(names),
        HighlightLanguage::Html => config_html(names),
        HighlightLanguage::Sql => config_sql(names),
        HighlightLanguage::Java => config_java(names),
        HighlightLanguage::Kotlin => config_kotlin(names),
        HighlightLanguage::Dart => config_dart(names),
        HighlightLanguage::Hcl => config_hcl(names),
        HighlightLanguage::Xml => config_xml(names),
        _ => config_bash(names),
    }
}

/// Relies on `tree_sitter_highlight::Highlighter::highlight`: with a fixed
/// configuration and capture names the event stream is a function of the
/// source text alone; any failure to parse or iterate yields no result.
#[verifier::external_body]
fn run_highlighter(cfg: &tree_sitter_highlight::HighlightConfiguration, source: &str) -> (r:
    Option<Vec<HlPiece>>)
    ensures
        pieces_of(r) == grammar_run(cfg_tag(*cfg), cfg_names(*cfg), source@),
{
    let mut hl = tree_sitter_highlight::Highlighter::new();
    let res = hl.highlight(cfg, source.as_bytes(), None, None, |_| None);
    let out = match res {
        Ok(iter) => iter.map(|ev| convert_hl_event(ev, source)).collect(),
        Err(_) => None,
    };
    out
}

/// Converts one highlighter event to a plain piece: a source range becomes
/// its text, and a range off character boundaries, or an error event, yields
/// nothing.
#[verifier::external_body]
fn convert_hl_event(
    ev: Result<tree_sitter_highlight::HighlightEvent, tree_sitter_highlight::Error>,
    source: &str,
) -> (r: Option<HlPiece>)
{
    match ev {
        Ok(tree_sitter_highlight::HighlightEvent::HighlightStart(h)) => Some(HlPiece::Start(h.0)),
        Ok(tree_sitter_highlight::HighlightEvent::HighlightEnd) => Some(HlPiece::End),
        Ok(tree_sitter_highlight::HighlightEvent::Source { start, end }) => source.get(
            start..end,
        ).map(|t| HlPiece::Text(t.chars().collect())),
        Err(_) => None,
    }
}

/// Highlights a source text in the renderer's working form.
pub fn highlight_rlines(lang: HighlightLanguage, source: &str) -> (r: Vec<RLine>)
    ensures
        views_of(r@) == highlight_spec(lang, source@),
{
    let chars = str_chars(source);
    match lang {
        HighlightLanguage::Markdown => {
            return tokenize_exec(lang, &chars);
        },
        HighlightLanguage::Dockerfile => {
            return tokenize_exec(lang, &chars);
        },
        HighlightLanguage::Dotenv => {
            return tokenize_exec(lang, &chars);
        },
        HighlightLanguage::Ini => {
            return tokenize_exec(lang, &chars);
        },
        _ => {},
    }
    let names = highlight_names();
    let cfg = match grammar_config(lang, &names) {
        Some(c) => c,
        None => {
            return fallback_exec(chars);
        },
    };
    let pieces = match run_highlighter(&cfg, source) {
        Some(p) => p,
        None => {
            return fallback_exec(chars);
        },
    };
    let built = hl_build(lang, &pieces);
    let joined = lines_joined(&built);
    if crate::text::eq_chars(&joined, &chars) {
        built
    } else {
        fallback_exec(chars)
    }
}

/// The fallback: the whole source as one unstyled line.
fn fallback_exec(chars: Vec<char>) -> (r: Vec<RLine>)
    ensures
        views_of(r@) == seq![fallback_line(chars@)],
{
    let ghost cv = chars@;
    let mut line = RLine::new();
    line.push_span(RSpan::plain(chars));
    proof {
        assert(line@.spans =~= seq![plain_span(cv)]);
    }
    let mut out: Vec<RLine> = Vec::new();
    proof {
        lemma_views_of_push(out@, line);
    }
    out.push(line);
    proof {
        assert(views_of(out@) =~= seq![fallback_line(cv)]);
    }
    out
}

/// Highlights a source text in a language: per-line styled spans whose texts
/// reconstruct the source exactly.
pub fn highlight_to_lines(lang: HighlightLanguage, source: &str) -> (r: Vec<
    crate::line::StyledLine,
>)
    ensures
        views_of(r@) == highlight_spec(lang, source@),
{
    let rl = highlight_rlines(lang, source);
    crate::line::to_styled_lines(rl)
}

/// Highlights a bash script.
pub fn highlight_bash_to_lines(script: &str) -> (r: Vec<crate::line::StyledLine>)
    ensures
        views_of(r@) == highlight_spec(HighlightLanguage::Bash, script@),
{
    highlight_to_lines(HighlightLanguage::Bash, script)
}

} // verus!
