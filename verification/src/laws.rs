//! The library's stated laws, proved once over the specification functions
//! that the public contracts speak of.

use vstd::prelude::*;

use crate::highlight::{all_digits, dk_line, dk_scan, dv_line, fallback_line, flush_plain,
    has_pair, hl_fold, highlight_spec, ident_len, ini_line, lemma_ident_len_le,
    lemma_until_ch_le, line_of, md_code_style, md_heading_style, md_inline, md_inline_rec,
    md_line, md_marker_style, plain_span, run_len, sspan, token_line, token_lines, until_ch,
    until_sep_ini};
use crate::language::HighlightLanguage;
use crate::line::{lemma_spans_text_concat, lemma_spans_text_push, line_text, lines_text,
    spans_text, LineS, SpanS};
use crate::normalize::{build_sep_spec, completed_rows, digit_count, has_sep,
    lemma_digit_count_le, lemma_wsf_step, pipe_sep_spec, trim_spec, wsb, wsf};
use crate::style::{md_styles, TextStyle};
use crate::text::{join_nl, split_nl, split_nl_rec};
use crate::writer::{quote_active, w_flush, w_push_line, WState};

verus! {

// ---------- text fidelity of the highlighting pipeline ----------

proof fn lemma_spans_text_single(sp: SpanS)
    ensures
        spans_text(seq![sp]) == sp.text,
{
    reveal_with_fuel(spans_text, 2);
    assert(seq![sp].drop_last() =~= Seq::<SpanS>::empty());
    assert(seq![sp].last() == sp);
    assert(spans_text(seq![sp]) == spans_text(seq![sp].drop_last()) + sp.text);
    assert(spans_text(Seq::<SpanS>::empty()) =~= Seq::<char>::empty());
    assert(Seq::<char>::empty() + sp.text =~= sp.text);
}

proof fn lemma_until_found(s: Seq<char>, c: char)
    requires
        until_ch(s, c) < s.len(),
    ensures
        s[until_ch(s, c) as int] == c,
    decreases s.len(),
{
    if s.len() > 0 && s[0] != c {
        lemma_until_found(s.drop_first(), c);
    }
}

proof fn lemma_until_sep_found(s: Seq<char>)
    requires
        until_sep_ini(s) < s.len(),
    ensures
        s[until_sep_ini(s) as int] == '=' || s[until_sep_ini(s) as int] == ':',
    decreases s.len(),
{
    if s.len() > 0 && s[0] != '=' && s[0] != ':' {
        lemma_until_sep_found(s.drop_first());
    }
}

/// Inline markdown scanning re-emits exactly the scanned characters.
proof fn lemma_md_inline_text(
    s: Seq<char>,
    buf: Seq<char>,
    in_code: bool,
    base: TextStyle,
    acc: Seq<SpanS>,
)
    ensures
        spans_text(md_inline_rec(s, buf, in_code, base, acc)) == spans_text(acc) + buf + s,
    decreases s.len(),
{
    if s.len() == 0 {
        if buf.len() > 0 {
            lemma_spans_text_push(acc, sspan(buf, if in_code {
                md_code_style()
            } else {
                base
            }));
        }
        assert(spans_text(acc) + buf + s =~= spans_text(acc) + buf);
        if buf.len() == 0 {
            assert(spans_text(acc) + buf =~= spans_text(acc));
        }
    } else if s[0] == '`' {
        let bspan = sspan(buf, if in_code {
            md_code_style()
        } else {
            base
        });
        let acc1: Seq<SpanS> = if buf.len() > 0 {
            acc.push(bspan)
        } else {
            acc
        };
        let tick = sspan(seq!['`'], md_marker_style());
        lemma_md_inline_text(s.drop_first(), Seq::empty(), !in_code, base, acc1.push(tick));
        if buf.len() > 0 {
            lemma_spans_text_push(acc, bspan);
        }
        lemma_spans_text_push(acc1, tick);
        assert(spans_text(acc1.push(tick)) + Seq::<char>::empty() + s.drop_first() =~= spans_text(
            acc) + buf + s);
    } else {
        lemma_md_inline_text(s.drop_first(), buf.push(s[0]), in_code, base, acc);
        assert(spans_text(acc) + buf.push(s[0]) + s.drop_first() =~= spans_text(acc) + buf + s);
    }
}

/// One tokenized markdown line reconstructs its raw text.
proof fn lemma_md_line_fid(raw: Seq<char>)
    ensures
        line_text(md_line(raw)) == raw,
{
    if raw.len() == 0 {
        assert(line_text(md_line(raw)) =~= raw);
    } else {
        let a = wsf(raw);
        crate::normalize::lemma_wsf_le(raw);
        let ind = raw.take(a as int);
        let t = raw.skip(a as int);
        let pre: Seq<SpanS> = if ind.len() > 0 {
            seq![plain_span(ind)]
        } else {
            Seq::empty()
        };
        if ind.len() > 0 {
            lemma_spans_text_single(plain_span(ind));
        } else {
            assert(ind =~= Seq::<char>::empty());
        }
        assert(spans_text(pre) =~= ind);
        assert(ind + t =~= raw);
        if crate::text::is_prefix("```"@, t) {
            lemma_spans_text_push(pre, sspan(t, md_marker_style()));
        } else {
            let h = run_len(t, '#');
            crate::highlight::lemma_run_len_le(t, '#');
            if h > 0 && h < t.len() && (t[h as int] == ' ' || t[h as int] == '\t') {
                lemma_spans_text_push(pre, sspan(t.take(h as int), md_marker_style()));
                lemma_md_inline_text(t.skip(h as int), Seq::empty(), false, md_heading_style(),
                    Seq::empty());
                lemma_spans_text_concat(pre.push(sspan(t.take(h as int), md_marker_style())),
                    md_inline(t.skip(h as int), md_heading_style()));
                assert(line_text(md_line(raw)) =~= raw);
            } else if crate::text::is_prefix("- "@, t) || crate::text::is_prefix("* "@, t)
                || crate::text::is_prefix("+ "@, t) {
                proof_strlits();
                lemma_spans_text_push(pre, sspan(t.take(1), md_marker_style()));
                lemma_md_inline_text(t.skip(1), Seq::empty(), false, TextStyle::plain(),
                    Seq::empty());
                lemma_spans_text_concat(pre.push(sspan(t.take(1), md_marker_style())), md_inline(
                    t.skip(1),
                    TextStyle::plain(),
                ));
                assert(line_text(md_line(raw)) =~= raw);
            } else if digit_count(t) > 0 && (has_pair(t, '.', ' ') || has_pair(t, ')', ' ')) && ({
                let d = digit_count(t);
                d < t.len() && (t[d as int] == '.' || t[d as int] == ')') && d + 1 < t.len() && t[d
                    + 1 as int] == ' '
            }) {
                let me = digit_count(t) + 1;
                lemma_digit_count_le(t);
                lemma_spans_text_push(pre, sspan(t.take(me as int), md_marker_style()));
                lemma_md_inline_text(t.skip(me as int), Seq::empty(), false, TextStyle::plain(),
                    Seq::empty());
                lemma_spans_text_concat(pre.push(sspan(t.take(me as int), md_marker_style())),
                    md_inline(t.skip(me as int), TextStyle::plain()));
                assert(line_text(md_line(raw)) =~= raw);
            } else {
                lemma_md_inline_text(t, Seq::empty(), false, TextStyle::plain(), Seq::empty());
                lemma_spans_text_concat(pre, md_inline(t, TextStyle::plain()));
                assert(line_text(md_line(raw)) =~= raw);
            }
        }
    }
}

proof fn proof_strlits()
    ensures
        ("- "@).len() == 2,
        ("* "@).len() == 2,
        ("+ "@).len() == 2,
{
    reveal_strlit("- ");
    reveal_strlit("* ");
    reveal_strlit("+ ");
}

/// Dockerfile argument scanning re-emits exactly the scanned characters.
proof fn lemma_dk_scan_text(s: Seq<char>, buf: Seq<char>, acc: Seq<SpanS>)
    ensures
        spans_text(dk_scan(s, buf, acc)) == spans_text(acc) + buf + s,
    decreases s.len(),
{
    if s.len() == 0 {
        if buf.len() > 0 {
            lemma_spans_text_push(acc, plain_span(buf));
        }
        assert(spans_text(flush_plain(acc, buf)) =~= spans_text(acc) + buf + s);
    } else if s[0] == '$' {
        let acc1 = flush_plain(acc, buf);
        if buf.len() > 0 {
            lemma_spans_text_push(acc, plain_span(buf));
        }
        assert(spans_text(acc1) =~= spans_text(acc) + buf);
        let dsp = sspan(seq!['$'], crate::highlight::dk_op_style());
        let acc2 = acc1.push(dsp);
        lemma_spans_text_push(acc1, dsp);
        if s.len() > 1 && s[1] == '{' {
            let osp = sspan(seq!['{'], crate::highlight::dk_op_style());
            let acc3 = acc2.push(osp);
            lemma_spans_text_push(acc2, osp);
            lemma_until_ch_le(s.skip(2), '}');
            let nl = until_ch(s.skip(2), '}');
            let name = s.skip(2).take(nl as int);
            let vsp = sspan(name, crate::highlight::dk_var_style());
            let acc4: Seq<SpanS> = if nl > 0 {
                acc3.push(vsp)
            } else {
                acc3
            };
            if nl > 0 {
                lemma_spans_text_push(acc3, vsp);
            } else {
                assert(name =~= Seq::<char>::empty());
            }
            assert(spans_text(acc4) =~= spans_text(acc) + buf + seq!['$'] + seq!['{'] + name);
            if 2 + nl < s.len() && s[2 + nl as int] == '}' {
                let csp = sspan(seq!['}'], crate::highlight::dk_op_style());
                lemma_spans_text_push(acc4, csp);
                lemma_dk_scan_text(s.skip(3 + nl as int), Seq::empty(), acc4.push(csp));
                assert(spans_text(acc4.push(csp)) + Seq::<char>::empty() + s.skip(3 + nl as int)
                    =~= spans_text(acc) + buf + s);
            } else {
                lemma_dk_scan_text(s.skip(2 + nl as int), Seq::empty(), acc4);
                if 2 + nl < s.len() {
                    lemma_until_found(s.skip(2), '}');
                }
                assert(spans_text(acc4) + Seq::<char>::empty() + s.skip(2 + nl as int)
                    =~= spans_text(acc) + buf + s);
            }
        } else {
            lemma_ident_len_le(s.skip(1));
            let nl = ident_len(s.skip(1));
            let name = s.skip(1).take(nl as int);
            let vsp = sspan(name, crate::highlight::dk_var_style());
            let acc3: Seq<SpanS> = if nl > 0 {
                acc2.push(vsp)
            } else {
                acc2
            };
            if nl > 0 {
                lemma_spans_text_push(acc2, vsp);
            } else {
                assert(name =~= Seq::<char>::empty());
            }
            lemma_dk_scan_text(s.skip(1 + nl as int), Seq::empty(), acc3);
            assert(spans_text(acc3) + Seq::<char>::empty() + s.skip(1 + nl as int) =~= spans_text(
                acc) + buf + s);
        }
    } else if s[0] == '"' || s[0] == '\'' {
        let acc1 = flush_plain(acc, buf);
        if buf.len() > 0 {
            lemma_spans_text_push(acc, plain_span(buf));
        }
        lemma_until_ch_le(s.skip(1), s[0]);
        let e = 1 + until_ch(s.skip(1), s[0]);
        let pl: int = if e < s.len() {
            e as int + 1
        } else {
            s.len() as int
        };
        let ssp = sspan(s.take(pl), crate::highlight::dk_string_style());
        lemma_spans_text_push(acc1, ssp);
        lemma_dk_scan_text(s.skip(pl), Seq::empty(), acc1.push(ssp));
        assert(spans_text(acc1.push(ssp)) + Seq::<char>::empty() + s.skip(pl) =~= spans_text(acc)
            + buf + s);
    } else {
        lemma_dk_scan_text(s.drop_first(), buf.push(s[0]), acc);
        assert(spans_text(acc) + buf.push(s[0]) + s.drop_first() =~= spans_text(acc) + buf + s);
    }
}

/// One tokenized dockerfile line reconstructs its raw text.
proof fn lemma_dk_line_fid(raw: Seq<char>)
    ensures
        line_text(dk_line(raw)) == raw,
{
    if raw.len() == 0 {
        assert(line_text(dk_line(raw)) =~= raw);
    } else {
        let a = wsf(raw);
        crate::normalize::lemma_wsf_le(raw);
        let ind = raw.take(a as int);
        let t = raw.skip(a as int);
        let pre: Seq<SpanS> = if ind.len() > 0 {
            seq![plain_span(ind)]
        } else {
            Seq::empty()
        };
        if ind.len() > 0 {
            lemma_spans_text_single(plain_span(ind));
        } else {
            assert(ind =~= Seq::<char>::empty());
        }
        assert(spans_text(pre) =~= ind);
        assert(ind + t =~= raw);
        if t.len() > 0 && t[0] == '#' {
            lemma_spans_text_push(pre, sspan(t, crate::highlight::dk_comment_style()));
        } else {
            let fw = crate::highlight::nonws_len(t);
            crate::highlight::lemma_nonws_len_le(t);
            if fw < t.len() {
                if crate::highlight::is_dk_kw(t.take(fw as int)) {
                    lemma_spans_text_push(pre, sspan(t.take(fw as int),
                        crate::highlight::dk_keyword_style()));
                    lemma_dk_scan_text(t.skip(fw as int), Seq::empty(), Seq::empty());
                    lemma_spans_text_concat(pre.push(sspan(t.take(fw as int),
                        crate::highlight::dk_keyword_style())), dk_scan(t.skip(fw as int),
                        Seq::empty(), Seq::empty()));
                    assert(line_text(dk_line(raw)) =~= raw);
                } else {
                    lemma_dk_scan_text(t, Seq::empty(), Seq::empty());
                    lemma_spans_text_concat(pre, dk_scan(t, Seq::empty(), Seq::empty()));
                    assert(line_text(dk_line(raw)) =~= raw);
                }
            } else {
                if crate::highlight::is_dk_kw(t) {
                    lemma_spans_text_push(pre, sspan(t, crate::highlight::dk_keyword_style()));
                } else {
                    lemma_dk_scan_text(t, Seq::empty(), Seq::empty());
                    lemma_spans_text_concat(pre, dk_scan(t, Seq::empty(), Seq::empty()));
                }
                assert(line_text(dk_line(raw)) =~= raw);
            }
        }
    }
}

/// One tokenized dotenv line reconstructs its raw text.
proof fn lemma_dv_line_fid(raw: Seq<char>)
    ensures
        line_text(dv_line(raw)) == raw,
{
    if raw.len() == 0 {
        assert(line_text(dv_line(raw)) =~= raw);
        return ;
    }
    let a = wsf(raw);
    crate::normalize::lemma_wsf_le(raw);
    let t = raw.skip(a as int);
    if t.len() > 0 && t[0] == '#' {
        lemma_spans_text_single(sspan(raw, crate::capture::capture_style(
            HighlightLanguage::Dotenv, crate::capture::Capture::Comment)));
        assert(line_text(dv_line(raw)) =~= raw);
        return ;
    }
    let exporting = crate::text::is_prefix("export "@, t);
    proof_export_lit();
    let idx: int = if exporting {
        a as int + 7
    } else {
        a as int
    };
    assert(idx <= raw.len());
    lemma_until_ch_le(raw.skip(idx), '=');
    let rel = until_ch(raw.skip(idx), '=');
    if idx + rel >= raw.len() {
        let pre: Seq<SpanS> = if exporting {
            seq![sspan(raw.take(idx), capture_kw())]
        } else if a > 0 {
            seq![plain_span(raw.take(a as int))]
        } else {
            Seq::empty()
        };
        if exporting {
            lemma_spans_text_single(sspan(raw.take(idx), capture_kw()));
        } else if a > 0 {
            lemma_spans_text_single(plain_span(raw.take(a as int)));
        } else {
            assert(raw.take(idx) =~= Seq::<char>::empty());
        }
        assert(spans_text(pre) =~= raw.take(idx));
        if idx < raw.len() {
            lemma_spans_text_push(pre, plain_span(raw.skip(idx)));
            assert(raw.take(idx) + raw.skip(idx) =~= raw);
        } else {
            assert(raw.take(idx) =~= raw);
        }
        assert(line_text(dv_line(raw)) =~= raw);
        return ;
    }
    lemma_dv_eq_case(raw, a, exporting, idx, rel);
}

/// The `key = value` case of the dotenv tokenizer reconstructs its raw text.
#[verifier::rlimit(100)]
#[verifier::spinoff_prover]
proof fn lemma_dv_eq_case(raw: Seq<char>, a: nat, exporting: bool, idx: int, rel: nat)
    requires
        raw.len() > 0,
        a == wsf(raw),
        a <= raw.len(),
        !({
            let t = raw.skip(a as int);
            t.len() > 0 && t[0] == '#'
        }),
        exporting == crate::text::is_prefix("export "@, raw.skip(a as int)),
        idx == if exporting {
            a as int + 7
        } else {
            a as int
        },
        idx <= raw.len(),
        rel == until_ch(raw.skip(idx), '='),
        idx + rel < raw.len(),
    ensures
        line_text(dv_line(raw)) == raw,
{
    let t = raw.skip(a as int);
    let pre: Seq<SpanS> = if exporting {
        seq![sspan(raw.take(idx), capture_kw())]
    } else if a > 0 {
        seq![plain_span(raw.take(a as int))]
    } else {
        Seq::empty()
    };
    if exporting {
        lemma_spans_text_single(sspan(raw.take(idx), capture_kw()));
    } else if a > 0 {
        lemma_spans_text_single(plain_span(raw.take(a as int)));
    } else {
        assert(raw.take(idx) =~= Seq::<char>::empty());
    }
    assert(spans_text(pre) =~= raw.take(idx));
    let eq = idx + rel;
    lemma_until_found(raw.skip(idx), '=');
    assert(raw.skip(idx)[rel as int] == raw[eq as int]);
    assert(raw[eq as int] == '=');
    let keyseg = raw.subrange(idx, eq as int);
    crate::normalize::lemma_wsb_le(keyseg);
    let ktl = keyseg.len() - wsb(keyseg);
    let key_token = keyseg.take(ktl as int);
    let key_ws = keyseg.skip(ktl as int);
    assert(key_token + key_ws =~= keyseg);
    let acc1 = pre + (if key_token.len() > 0 {
        seq![sspan(key_token, capture_attr())]
    } else {
        Seq::<SpanS>::empty()
    }) + (if key_ws.len() > 0 {
        seq![plain_span(key_ws)]
    } else {
        Seq::<SpanS>::empty()
    });
    lemma_spans_text_concat(pre, if key_token.len() > 0 {
        seq![sspan(key_token, capture_attr())]
    } else {
        Seq::<SpanS>::empty()
    });
    lemma_spans_text_concat(pre + (if key_token.len() > 0 {
        seq![sspan(key_token, capture_attr())]
    } else {
        Seq::<SpanS>::empty()
    }), if key_ws.len() > 0 {
        seq![plain_span(key_ws)]
    } else {
        Seq::<SpanS>::empty()
    });
    if key_token.len() > 0 {
        lemma_spans_text_single(sspan(key_token, capture_attr()));
    }
    if key_ws.len() > 0 {
        lemma_spans_text_single(plain_span(key_ws));
    }
    assert(spans_text(acc1) =~= raw.take(idx) + keyseg);
    let acc2 = acc1.push(sspan(seq!['='], capture_op()));
    lemma_spans_text_push(acc1, sspan(seq!['='], capture_op()));
    let value = raw.skip(eq + 1);
    if value.len() == 0 {
        assert(raw.take(idx) + keyseg + seq!['='] =~= raw);
        assert(line_text(dv_line(raw)) =~= raw);
        return ;
    }
    let vl = wsf(value);
    crate::normalize::lemma_wsf_le(value);
    let leading = value.take(vl as int);
    let vt = value.skip(vl as int);
    assert(leading + vt =~= value);
    let acc3 = acc2 + (if leading.len() > 0 {
        seq![plain_span(leading)]
    } else {
        Seq::<SpanS>::empty()
    });
    lemma_spans_text_concat(acc2, if leading.len() > 0 {
        seq![plain_span(leading)]
    } else {
        Seq::<SpanS>::empty()
    });
    if leading.len() > 0 {
        lemma_spans_text_single(plain_span(leading));
    }
    let vst = if (vt.len() > 0 && (vt[0] == '"' || vt[0] == '\'')) || crate::text::has_ch(vt, '/')
        || crate::text::has_ch(vt, '.') {
        crate::capture::capture_style(HighlightLanguage::Dotenv, crate::capture::Capture::Str)
    } else if all_digits(vt) {
        crate::capture::capture_style(HighlightLanguage::Dotenv, crate::capture::Capture::Number)
    } else {
        crate::capture::capture_style(HighlightLanguage::Dotenv, crate::capture::Capture::Str)
    };
    lemma_spans_text_push(acc3, sspan(vt, vst));
    assert(dv_line(raw).spans == acc3.push(sspan(vt, vst)));
    assert(raw.take(idx) + keyseg + seq!['='] + leading + vt =~= raw);
    assert(line_text(dv_line(raw)) =~= raw);
}

proof fn proof_export_lit()
    ensures
        ("export "@).len() == 7,
{
    reveal_strlit("export ");
}

/// The dotenv key style.
pub open spec fn capture_attr() -> TextStyle {
    crate::capture::capture_style(HighlightLanguage::Dotenv, crate::capture::Capture::Attribute)
}

/// The dotenv operator style.
pub open spec fn capture_op() -> TextStyle {
    crate::capture::capture_style(HighlightLanguage::Dotenv, crate::capture::Capture::Operator)
}

/// The dotenv keyword style.
pub open spec fn capture_kw() -> TextStyle {
    crate::capture::capture_style(HighlightLanguage::Dotenv, crate::capture::Capture::Keyword)
}

/// One tokenized ini line reconstructs its raw text.
#[verifier::rlimit(100)]
#[verifier::spinoff_prover]
proof fn lemma_ini_line_fid(raw: Seq<char>)
    ensures
        line_text(ini_line(raw)) == raw,
{
    if raw.len() == 0 {
        assert(line_text(ini_line(raw)) =~= raw);
        return ;
    }
    let a = wsf(raw);
    crate::normalize::lemma_wsf_le(raw);
    let t = raw.skip(a as int);
    if t.len() > 0 && (t[0] == ';' || t[0] == '#') {
        lemma_spans_text_single(sspan(raw, crate::capture::capture_style(HighlightLanguage::Ini,
            crate::capture::Capture::Comment)));
        assert(line_text(ini_line(raw)) =~= raw);
        return ;
    }
    if t.len() >= 2 && t[0] == '[' && t.last() == ']' {
        lemma_spans_text_single(sspan(raw, crate::capture::capture_style(HighlightLanguage::Ini,
            crate::capture::Capture::Keyword)));
        assert(line_text(ini_line(raw)) =~= raw);
        return ;
    }
    let k = until_sep_ini(t);
    lemma_until_sep_le(t);
    if k >= t.len() {
        lemma_spans_text_single(plain_span(raw));
        assert(line_text(ini_line(raw)) =~= raw);
        return ;
    }
    lemma_until_sep_found(t);
    let pre: Seq<SpanS> = if a > 0 {
        seq![plain_span(raw.take(a as int))]
    } else {
        Seq::empty()
    };
    if a > 0 {
        lemma_spans_text_single(plain_span(raw.take(a as int)));
    } else {
        assert(raw.take(a as int) =~= Seq::<char>::empty());
    }
    assert(spans_text(pre) =~= raw.take(a as int));
    let keyp = t.take(k as int);
    crate::normalize::lemma_wsb_le(keyp);
    let ktl = keyp.len() - wsb(keyp);
    let key_token = keyp.take(ktl as int);
    let key_ws = keyp.skip(ktl as int);
    assert(key_token + key_ws =~= keyp);
    let istyle_a = crate::capture::capture_style(HighlightLanguage::Ini,
        crate::capture::Capture::Attribute);
    let istyle_o = crate::capture::capture_style(HighlightLanguage::Ini,
        crate::capture::Capture::Operator);
    let istyle_s = crate::capture::capture_style(HighlightLanguage::Ini,
        crate::capture::Capture::Str);
    let acc1 = pre + (if key_token.len() > 0 {
        seq![sspan(key_token, istyle_a)]
    } else {
        Seq::<SpanS>::empty()
    }) + (if key_ws.len() > 0 {
        seq![plain_span(key_ws)]
    } else {
        Seq::<SpanS>::empty()
    });
    lemma_spans_text_concat(pre, if key_token.len() > 0 {
        seq![sspan(key_token, istyle_a)]
    } else {
        Seq::<SpanS>::empty()
    });
    lemma_spans_text_concat(pre + (if key_token.len() > 0 {
        seq![sspan(key_token, istyle_a)]
    } else {
        Seq::<SpanS>::empty()
    }), if key_ws.len() > 0 {
        seq![plain_span(key_ws)]
    } else {
        Seq::<SpanS>::empty()
    });
    if key_token.len() > 0 {
        lemma_spans_text_single(sspan(key_token, istyle_a));
    }
    if key_ws.len() > 0 {
        lemma_spans_text_single(plain_span(key_ws));
    }
    assert(spans_text(acc1) =~= raw.take(a as int) + keyp);
    let acc2 = acc1.push(sspan(seq![t[k as int]], istyle_o));
    lemma_spans_text_push(acc1, sspan(seq![t[k as int]], istyle_o));
    let value = t.skip(k as int + 1);
    if value.len() > 0 {
        lemma_spans_text_push(acc2, sspan(value, istyle_s));
        assert(raw.take(a as int) + keyp + seq![t[k as int]] + value =~= raw);
    } else {
        assert(raw.take(a as int) + keyp + seq![t[k as int]] =~= raw);
    }
    assert(line_text(ini_line(raw)) =~= raw);
}

proof fn lemma_until_sep_le(s: Seq<char>)
    ensures
        until_sep_ini(s) <= s.len(),
    decreases s.len(),
{
    if s.len() > 0 && s[0] != '=' && s[0] != ':' {
        lemma_until_sep_le(s.drop_first());
    }
}

/// Every tokenized line reconstructs its raw text.
proof fn lemma_token_line_fid(lang: HighlightLanguage, l: Seq<char>)
    ensures
        line_text(token_line(lang, l)) == l,
{
    match lang {
        HighlightLanguage::Markdown => lemma_md_line_fid(l),
        HighlightLanguage::Dockerfile => lemma_dk_line_fid(l),
        HighlightLanguage::Dotenv => lemma_dv_line_fid(l),
        _ => lemma_ini_line_fid(l),
    }
}

/// Tokenized lines, rejoined with newlines, reconstruct the joined pieces.
proof fn lemma_token_lines_fid(lang: HighlightLanguage, ls: Seq<Seq<char>>)
    ensures
        lines_text(token_lines(lang, ls)) == join_nl(ls),
    decreases ls.len(),
{
    if ls.len() == 0 {
    } else if ls.len() == 1 {
        lemma_token_lines_fid(lang, ls.drop_last());
        lemma_token_line_fid(lang, ls.last());
        assert(token_lines(lang, ls).len() == 1) by {
            lemma_token_lines_len(lang, ls);
        }
        assert(token_lines(lang, ls)[0] == token_line(lang, ls[0]));
    } else {
        lemma_token_lines_fid(lang, ls.drop_last());
        lemma_token_line_fid(lang, ls.last());
        lemma_token_lines_len(lang, ls);
        assert(token_lines(lang, ls).drop_last() =~= token_lines(lang, ls.drop_last()));
        assert(token_lines(lang, ls).last() == token_line(lang, ls.last()));
    }
}

proof fn lemma_token_lines_len(lang: HighlightLanguage, ls: Seq<Seq<char>>)
    ensures
        token_lines(lang, ls).len() == ls.len(),
    decreases ls.len(),
{
    if ls.len() > 0 {
        lemma_token_lines_len(lang, ls.drop_last());
    }
}

/// Splitting at newlines and rejoining is the identity.
proof fn lemma_split_join_rec(s: Seq<char>, cur: Seq<char>, acc: Seq<Seq<char>>)
    ensures
        join_nl(split_nl_rec(s, cur, acc)) == join_nl(acc.push(cur)) + s,
    decreases s.len(),
{
    if s.len() == 0 {
        assert(join_nl(acc.push(cur)) + s =~= join_nl(acc.push(cur)));
    } else if s[0] == '\n' {
        lemma_split_join_rec(s.drop_first(), Seq::empty(), acc.push(cur));
        lemma_join_push(acc.push(cur), Seq::empty());
        assert((join_nl(acc.push(cur)) + seq!['\n'] + Seq::<char>::empty()) + s.drop_first()
            =~= join_nl(acc.push(cur)) + s);
    } else {
        lemma_split_join_rec(s.drop_first(), cur.push(s[0]), acc);
        lemma_join_push(acc, cur.push(s[0]));
        lemma_join_push(acc, cur);
        if acc.len() == 0 {
            assert(cur.push(s[0]) + s.drop_first() =~= cur + s);
        } else {
            assert((join_nl(acc) + seq!['\n'] + cur.push(s[0])) + s.drop_first() =~= (join_nl(acc)
                + seq!['\n'] + cur) + s);
        }
    }
}

proof fn lemma_join_push(acc: Seq<Seq<char>>, x: Seq<char>)
    ensures
        acc.len() == 0 ==> join_nl(acc.push(x)) == x,
        acc.len() > 0 ==> join_nl(acc.push(x)) == join_nl(acc) + seq!['\n'] + x,
{
    assert(acc.push(x).drop_last() =~= acc);
    assert(acc.push(x).last() == x);
}

pub proof fn lemma_split_join(s: Seq<char>)
    ensures
        join_nl(split_nl(s)) == s,
{
    lemma_split_join_rec(s, Seq::empty(), Seq::empty());
    lemma_join_push(Seq::empty(), Seq::empty());
    assert(join_nl(Seq::<Seq<char>>::empty().push(Seq::<char>::empty())) + s =~= s);
}

/// Law: text fidelity of highlighting. For every supported language and
/// source text, concatenating the emitted span texts per line and rejoining
/// the lines with newlines reproduces the source exactly.
pub proof fn lemma_highlight_fidelity(lang: HighlightLanguage, s: Seq<char>)
    ensures
        lines_text(highlight_spec(lang, s)) == s,
{
    match lang {
        HighlightLanguage::Markdown => {
            lemma_token_lines_fid(lang, split_nl(s));
            lemma_split_join(s);
        },
        HighlightLanguage::Dockerfile => {
            lemma_token_lines_fid(lang, split_nl(s));
            lemma_split_join(s);
        },
        HighlightLanguage::Dotenv => {
            lemma_token_lines_fid(lang, split_nl(s));
            lemma_split_join(s);
        },
        HighlightLanguage::Ini => {
            lemma_token_lines_fid(lang, split_nl(s));
            lemma_split_join(s);
        },
        _ => {
            if !crate::highlight::cfg_ok(crate::highlight::lang_tag(lang),
                crate::capture::names_spec()) {
                lemma_fallback_fid(s);
            } else {
                match crate::highlight::grammar_run(crate::highlight::lang_tag(lang),
                    crate::capture::names_spec(), s) {
                    None => lemma_fallback_fid(s),
                    Some(ps) => {
                        let ls = hl_fold(lang, ps);
                        if lines_text(ls) == s {
                        } else {
                            lemma_fallback_fid(s);
                        }
                    },
                }
            }
        },
    }
}

proof fn lemma_fallback_fid(s: Seq<char>)
    ensures
        lines_text(seq![fallback_line(s)]) == s,
{
    lemma_spans_text_single(plain_span(s));
}

// ---------- wrapping exemptions and quote precedence ----------

/// Law: code-block exemption. A line assembled inside a code block is never
/// word-wrapped: flushing emits it verbatim as one line behind its first-line
/// indent, whatever width is configured.
pub proof fn lemma_code_lines_not_wrapped(st: WState)
    requires
        st.cur_line is Some,
        st.cur_in_code,
    ensures
        w_flush(st).out == st.out.push(
            LineS { spans: st.cur_init + st.cur_line->0.spans, style: st.cur_style },
        ),
{
}

/// Law: style precedence inside quotes. While a block quote is open, starting
/// a line forces its base style to the quote style, and the line's own spans
/// are kept exactly as given, their styles untouched.
pub proof fn lemma_quote_style_precedence(st: WState, line: LineS)
    requires
        quote_active(st.frames),
    ensures
        w_push_line(st, line).cur_line == Some(line),
        w_push_line(st, line).cur_style == md_styles().blockquote,
{
}

// ---------- table separator synthesis ----------

/// Law: separator synthesis. A table block with no separator row among its
/// rows, whose column count can be inferred, gets exactly one synthesized
/// separator row, inserted as the second row; every original row is kept in
/// order around it.
pub proof fn lemma_separator_synthesis(rows: Seq<Seq<char>>)
    requires
        rows.len() >= 1,
        !has_sep(rows),
        build_sep_spec(rows) is Some,
    ensures
        completed_rows(rows).len() == rows.len() + 1,
        completed_rows(rows)[0] == rows[0],
        completed_rows(rows)[1] == build_sep_spec(rows)->Some_0,
        forall|k: int| 2 <= k < rows.len() + 1 ==> completed_rows(rows)[k] == rows[k - 1],
{
    let sep = build_sep_spec(rows)->Some_0;
    assert(completed_rows(rows) =~= rows.take(1) + seq![sep] + rows.skip(1));
}

/// Law: normalization keeps a valid block unchanged. A table block that
/// already carries a separator row is re-emitted exactly as collected.
pub proof fn lemma_valid_block_unchanged(rows: Seq<Seq<char>>)
    requires
        has_sep(rows),
    ensures
        completed_rows(rows) == rows,
{
}

// ---------- determinism ----------

/// Law: rendering is deterministic. Two renders of the same text at the same
/// explicit width with the same table flag yield identical output.
pub proof fn lemma_render_deterministic(
    a: Seq<LineS>,
    b: Seq<LineS>,
    input: Seq<char>,
    width: usize,
    tables: bool,
)
    requires
        a == crate::render_spec(input, Some(width), width, tables),
        b == crate::render_spec(input, Some(width), width, tables),
    ensures
        a == b,
{
}

// ---------- graceful degradation of normalization ----------

/// Law: graceful degrade. When no input line is a box-drawing border and no
/// line's prefix-stripped content is a pipe-table row, normalization is the
/// identity: line sequence, order and trailing-newline presence are all
/// preserved.
pub proof fn lemma_plain_text_unchanged(s: Seq<char>)
    requires
        forall|i: int|
            0 <= i < split_nl(s).len() ==> !crate::normalize::box_line_spec(
                #[trigger] split_nl(s)[i],
            ),
        forall|i: int|
            0 <= i < split_nl(s).len() ==> !crate::normalize::pipe_line_spec(
                crate::normalize::strip_spec(
                    #[trigger] split_nl(s)[i],
                    crate::normalize::prefix_len(split_nl(s)[i]),
                ),
            ),
    ensures
        crate::normalize::normalize_spec(s) == s,
{
    lemma_normalize_lines_plain(split_nl(s));
    lemma_split_join(s);
}

proof fn lemma_normalize_lines_plain(ls: Seq<Seq<char>>)
    requires
        forall|i: int|
            0 <= i < ls.len() ==> !crate::normalize::box_line_spec(#[trigger] ls[i]),
        forall|i: int|
            0 <= i < ls.len() ==> !crate::normalize::pipe_line_spec(
                crate::normalize::strip_spec(
                    #[trigger] ls[i],
                    crate::normalize::prefix_len(ls[i]),
                ),
            ),
    ensures
        crate::normalize::normalize_lines(ls) == ls,
    decreases ls.len(),
{
    if ls.len() > 0 {
        assert forall|i: int| 0 <= i < ls.drop_first().len() implies !crate::normalize::box_line_spec(
            #[trigger] ls.drop_first()[i],
        ) by {
            assert(ls.drop_first()[i] == ls[i + 1]);
        }
        assert forall|i: int|
            0 <= i < ls.drop_first().len() implies !crate::normalize::pipe_line_spec(
            crate::normalize::strip_spec(
                #[trigger] ls.drop_first()[i],
                crate::normalize::prefix_len(ls.drop_first()[i]),
            ),
        ) by {
            assert(ls.drop_first()[i] == ls[i + 1]);
        }
        lemma_normalize_lines_plain(ls.drop_first());
        assert(seq![ls[0]] + ls.drop_first() =~= ls);
    }
}

// ---------- stack restoration over balanced streams ----------

/// A document fragment shaped as the external parser guarantees: a sequence
/// of leaf events and strictly nested Start/End pairs, with tables not
/// nesting inside tables.
pub ghost enum DocShape {
    Nil,
    Leaf(crate::events::MdEvent, Box<DocShape>),
    Node(crate::events::MdTag, Box<DocShape>, Box<DocShape>),
}

/// The closing tag that matches an opening tag.
pub open spec fn end_of(t: crate::events::MdTag) -> crate::events::MdTagEnd {
    match t {
        crate::events::MdTag::Paragraph => crate::events::MdTagEnd::Paragraph,
        crate::events::MdTag::Heading(_) => crate::events::MdTagEnd::Heading,
        crate::events::MdTag::BlockQuote => crate::events::MdTagEnd::BlockQuote,
        crate::events::MdTag::CodeBlock(_) => crate::events::MdTagEnd::CodeBlock,
        crate::events::MdTag::List(_) => crate::events::MdTagEnd::List,
        crate::events::MdTag::Item => crate::events::MdTagEnd::Item,
        crate::events::MdTag::Emphasis => crate::events::MdTagEnd::Emphasis,
        crate::events::MdTag::Strong => crate::events::MdTagEnd::Strong,
        crate::events::MdTag::Strikethrough => crate::events::MdTagEnd::Strikethrough,
        crate::events::MdTag::Link(_) => crate::events::MdTagEnd::Link,
        crate::events::MdTag::Table(_) => crate::events::MdTagEnd::Table,
        crate::events::MdTag::TableHead => crate::events::MdTagEnd::TableHead,
        crate::events::MdTag::TableRow => crate::events::MdTagEnd::TableRow,
        crate::events::MdTag::TableCell => crate::events::MdTagEnd::TableCell,
    }
}

/// Whether an event neither opens nor closes an element.
pub open spec fn leaf_event(e: crate::events::MdEvent) -> bool {
    match e {
        crate::events::MdEvent::Start(_) => false,
        crate::events::MdEvent::End(_) => false,
        _ => true,
    }
}

/// The flattened event stream of a document shape.
pub open spec fn shape_events(d: DocShape) -> Seq<crate::events::MdEvent>
    decreases d,
{
    match d {
        DocShape::Nil => Seq::empty(),
        DocShape::Leaf(e, rest) => seq![e] + shape_events(*rest),
        DocShape::Node(t, inner, rest) => seq![crate::events::MdEvent::Start(t)] + shape_events(
            *inner,
        ) + seq![crate::events::MdEvent::End(end_of(t))] + shape_events(*rest),
    }
}

/// Well-formed: every leaf is a leaf event, and no table opens inside a
/// table (the parser never nests tables).
pub open spec fn shape_wf(d: DocShape, in_table: bool) -> bool
    decreases d,
{
    match d {
        DocShape::Nil => true,
        DocShape::Leaf(e, rest) => leaf_event(e) && shape_wf(*rest, in_table),
        DocShape::Node(t, inner, rest) => (!(t is Table) || !in_table) && shape_wf(
            *inner,
            in_table || t is Table,
        ) && shape_wf(*rest, in_table),
    }
}

/// Folding distributes over concatenation of event streams.
proof fn lemma_fold_concat(st: WState, a: Seq<crate::events::MdEvent>, b: Seq<
    crate::events::MdEvent,
>)
    ensures
        crate::writer::w_fold(st, a + b) == crate::writer::w_fold(crate::writer::w_fold(st, a), b),
    decreases a.len(),
{
    if a.len() == 0 {
        assert(a + b =~= b);
    } else {
        assert((a + b)[0] == a[0]);
        assert((a + b).drop_first() =~= a.drop_first() + b);
        lemma_fold_concat(crate::writer::w_step(st, &a[0]), a.drop_first(), b);
    }
}

/// The three stacks and the table slot, unchanged.
pub open spec fn same_stacks(a: WState, b: WState) -> bool {
    a.frames == b.frames && a.list_indices == b.list_indices && a.inline_styles == b.inline_styles
        && a.table == b.table
}

proof fn lemma_flush_stacks(st: WState)
    ensures
        same_stacks(w_flush(st), st),
{
}

proof fn lemma_push_line_stacks(st: WState, l: LineS)
    ensures
        same_stacks(w_push_line(st, l), st),
{
}

proof fn lemma_push_span_stacks(st: WState, sp: SpanS)
    ensures
        same_stacks(crate::writer::w_push_span(st, sp), st),
{
}

proof fn lemma_push_blank_stacks(st: WState)
    ensures
        same_stacks(crate::writer::w_push_blank(st), st),
{
}

proof fn lemma_emit_text_stacks(st: WState, lines: Seq<Seq<char>>, first: bool, style: TextStyle)
    ensures
        same_stacks(crate::writer::w_emit_text_lines(st, lines, first, style), st),
    decreases lines.len(),
{
    if lines.len() > 0 {
        let st1 = if st.needs_newline {
            WState { needs_newline: false, ..w_push_line(st, crate::writer::empty_line()) }
        } else {
            st
        };
        let st2 = if !first {
            w_push_line(st1, crate::writer::empty_line())
        } else {
            st1
        };
        let st3 = crate::writer::w_push_span(st2, SpanS { text: lines[0], style });
        lemma_emit_text_stacks(st3, lines.drop_first(), false, style);
    }
}

proof fn lemma_emit_highlight_stacks(st: WState, lines: Seq<LineS>)
    ensures
        same_stacks(crate::writer::w_emit_highlight(st, lines), st),
    decreases lines.len(),
{
    if lines.len() > 0 {
        lemma_emit_highlight_stacks(w_push_line(st, lines[0]), lines.drop_first());
    }
}

proof fn lemma_emit_table_lines_stacks(st: WState, lines: Seq<Seq<char>>)
    ensures
        same_stacks(crate::writer::w_emit_table_lines(st, lines), st),
    decreases lines.len(),
{
    if lines.len() > 0 {
        lemma_emit_table_lines_stacks(
            w_push_line(
                st,
                LineS {
                    spans: seq![SpanS { text: lines[0], style: TextStyle::plain() }],
                    style: TextStyle::plain(),
                },
            ),
            lines.drop_first(),
        );
    }
}

proof fn lemma_render_table_stacks(st: WState, t: crate::table::TableS)
    ensures
        same_stacks(crate::writer::w_render_table(st, t), st),
{
    if t.rows.len() == 0 {
    } else if crate::writer::max_cols(t) == 0 {
    } else {
        let padded = crate::writer::pad_rows(t.rows, crate::writer::max_cols(t));
        let header: Option<Seq<Seq<char>>> = if t.header_rows > 0 {
            Some(padded[0])
        } else {
            None
        };
        let body = if t.header_rows > 0 {
            padded.drop_first()
        } else {
            padded
        };
        let pw = crate::text::sat_cols(
            crate::line::spans_text(crate::writer::w_prefix(st, st.pending_marker)),
        );
        let avail_raw: nat = if pw > st.table_budget {
            0
        } else {
            (st.table_budget - pw) as nat
        };
        let avail: nat = if avail_raw < 10 {
            10
        } else {
            avail_raw
        };
        let width: u16 = if avail > 65535 {
            65535u16
        } else {
            avail as u16
        };
        let rendered = crate::table::table_layout(header, body, t.alignments, width);
        lemma_emit_table_lines_stacks(st, crate::text::text_lines(rendered));
    }
}

/// A leaf event (with no table open) preserves the three stacks and leaves
/// no table open.
proof fn lemma_leaf_step_stacks(st: WState, e: &crate::events::MdEvent)
    requires
        leaf_event(*e),
        st.table is None,
    ensures
        ({
            let st2 = crate::writer::w_step(st, e);
            st2.frames == st.frames && st2.list_indices == st.list_indices && st2.inline_styles
                == st.inline_styles && st2.table is None
        }),
{
    match e {
        crate::events::MdEvent::Text(t) => {
            match st.buffered {
                Some(_) => {},
                None => {
                    let st1 = if st.pending_marker {
                        w_push_line(st, crate::writer::empty_line())
                    } else {
                        st
                    };
                    let st2 = WState { pending_marker: false, ..st1 };
                    let st3 = if st2.in_code && !st2.needs_newline && crate::writer::has_content(
                        st2,
                    ) {
                        w_push_line(st2, crate::writer::empty_line())
                    } else {
                        st2
                    };
                    lemma_emit_text_stacks(
                        st3,
                        crate::text::text_lines(t@),
                        true,
                        crate::writer::top_style(st3),
                    );
                },
            }
        },
        crate::events::MdEvent::Code(c) => {
            let st1 = if st.pending_marker {
                WState {
                    pending_marker: false,
                    ..w_push_line(st, crate::writer::empty_line())
                }
            } else {
                st
            };
            lemma_push_span_stacks(st1, SpanS { text: c@, style: md_styles().code });
        },
        crate::events::MdEvent::Html(h) => {
            let st1 = WState { pending_marker: false, ..st };
            lemma_emit_text_stacks(
                st1,
                crate::text::text_lines(h@),
                true,
                crate::writer::top_style(st1),
            );
        },
        crate::events::MdEvent::InlineHtml(h) => {
            let st1 = WState { pending_marker: false, ..st };
            lemma_emit_text_stacks(
                st1,
                crate::text::text_lines(h@),
                true,
                crate::writer::top_style(st1),
            );
        },
        crate::events::MdEvent::SoftBreak => {
            match st.buffered {
                Some(_) => {},
                None => {
                    lemma_push_line_stacks(st, crate::writer::empty_line());
                },
            }
        },
        crate::events::MdEvent::HardBreak => {
            match st.buffered {
                Some(_) => {},
                None => {
                    lemma_push_line_stacks(st, crate::writer::empty_line());
                },
            }
        },
        crate::events::MdEvent::Rule => {
            let st1 = w_flush(st);
            let st2 = if st1.out.len() > 0 {
                crate::writer::w_push_blank(st1)
            } else {
                st1
            };
            lemma_push_blank_stacks(st1);
            lemma_push_line_stacks(
                st2,
                LineS {
                    spans: seq![
                        SpanS {
                            text: seq!['\u{2014}', '\u{2014}', '\u{2014}'],
                            style: TextStyle::plain(),
                        },
                    ],
                    style: TextStyle::plain(),
                },
            );
        },
        _ => {},
    }
}

/// While a table is open, events other than the table's own close leave the
/// three stacks untouched and the table open.
proof fn lemma_table_mode_swallows(st: WState, evs: Seq<crate::events::MdEvent>)
    requires
        st.table is Some,
        forall|i: int|
            0 <= i < evs.len() ==> !((#[trigger] evs[i]) matches crate::events::MdEvent::End(
                crate::events::MdTagEnd::Table,
            )),
    ensures
        ({
            let st2 = crate::writer::w_fold(st, evs);
            st2.table is Some && st2.frames == st.frames && st2.list_indices == st.list_indices
                && st2.inline_styles == st.inline_styles
        }),
    decreases evs.len(),
{
    if evs.len() > 0 {
        let st1 = crate::writer::w_step(st, &evs[0]);
        assert(st1.table is Some && st1.frames == st.frames && st1.list_indices
            == st.list_indices && st1.inline_styles == st.inline_styles);
        lemma_table_mode_swallows(st1, evs.drop_first());
    }
}

/// A shape nested inside a table carries no table-closing event.
proof fn lemma_wf_no_table_end(d: DocShape)
    requires
        shape_wf(d, true),
    ensures
        forall|i: int|
            0 <= i < shape_events(d).len() ==> !((#[trigger] shape_events(d)[i])
                matches crate::events::MdEvent::End(crate::events::MdTagEnd::Table)),
    decreases d,
{
    match d {
        DocShape::Nil => {},
        DocShape::Leaf(e, rest) => {
            lemma_wf_no_table_end(*rest);
            assert forall|i: int|
                0 <= i < shape_events(d).len() implies !((#[trigger] shape_events(d)[i])
                matches crate::events::MdEvent::End(crate::events::MdTagEnd::Table)) by {
                if i > 0 {
                    assert(shape_events(d)[i] == shape_events(*rest)[i - 1]);
                }
            }
        },
        DocShape::Node(t, inner, rest) => {
            lemma_wf_no_table_end(*inner);
            lemma_wf_no_table_end(*rest);
            let iv = shape_events(*inner);
            let rv = shape_events(*rest);
            assert forall|i: int|
                0 <= i < shape_events(d).len() implies !((#[trigger] shape_events(d)[i])
                matches crate::events::MdEvent::End(crate::events::MdTagEnd::Table)) by {
                if i == 0 {
                } else if i <= iv.len() {
                    assert(shape_events(d)[i] == iv[i - 1]);
                } else if i == iv.len() + 1 {
                    assert(shape_events(d)[i] == crate::events::MdEvent::End(end_of(t)));
                    assert(!(t is Table));
                } else {
                    assert(shape_events(d)[i] == rv[i - iv.len() - 2]);
                }
            }
        },
    }
}

/// What a balanced fragment leaves unchanged: frames and inline styles
/// exactly, list counters in number (only the innermost open counter may have
/// advanced), and no table open.
pub open spec fn stacks_restored(before: WState, after: WState) -> bool {
    after.frames == before.frames && after.inline_styles == before.inline_styles
        && after.table is None && after.list_indices.len() == before.list_indices.len() && (forall|
        k: int,
    |
        0 <= k < before.list_indices.len() - 1 ==> after.list_indices[k]
            == before.list_indices[k])
}

proof fn lemma_restored_compose(a: WState, b: WState, c: WState)
    requires
        stacks_restored(a, b),
        stacks_restored(b, c),
    ensures
        stacks_restored(a, c),
{
}

/// Law: push/pop balance. Folding the event stream of any well-formed
/// document fragment restores the indent-frame stack and the inline-style
/// stack exactly, restores the number of open list counters (only the
/// innermost open counter may have advanced), and leaves no table open.
/// Starting from the initial state this makes all three stacks empty again
/// after a balanced document.
#[verifier::rlimit(100)]
#[verifier::spinoff_prover]
pub proof fn lemma_balanced_stream_restores_stacks(st: WState, d: DocShape, b: bool)
    requires
        shape_wf(d, b),
        st.table is None,
    ensures
        stacks_restored(st, crate::writer::w_fold(st, shape_events(d))),
    decreases d, 0int,
{
    reveal_with_fuel(crate::writer::w_fold, 2);
    match d {
        DocShape::Nil => {},
        DocShape::Leaf(e, rest) => {
            assert(shape_events(d) =~= seq![e] + shape_events(*rest));
            lemma_fold_concat(st, seq![e], shape_events(*rest));
            let st1 = crate::writer::w_fold(st, seq![e]);
            assert(seq![e].drop_first() =~= Seq::<crate::events::MdEvent>::empty());
            assert(st1 == crate::writer::w_step(st, &seq![e][0]));
            lemma_leaf_step_stacks(st, &e);
            lemma_balanced_stream_restores_stacks(st1, *rest, b);
        },
        DocShape::Node(t, inner, rest) => {
            let ev_start = crate::events::MdEvent::Start(t);
            let ev_end = crate::events::MdEvent::End(end_of(t));
            let iv = shape_events(*inner);
            let rv = shape_events(*rest);
            assert(shape_events(d) =~= seq![ev_start] + (iv + (seq![ev_end] + rv)));
            lemma_fold_concat(st, seq![ev_start], iv + (seq![ev_end] + rv));
            let st1 = crate::writer::w_fold(st, seq![ev_start]);
            assert(seq![ev_start].drop_first() =~= Seq::<crate::events::MdEvent>::empty());
            assert(st1 == crate::writer::w_step(st, &seq![ev_start][0]));
            lemma_fold_concat(st1, iv, seq![ev_end] + rv);
            let st2 = crate::writer::w_fold(st1, iv);
            lemma_fold_concat(st2, seq![ev_end], rv);
            let st3 = crate::writer::w_fold(st2, seq![ev_end]);
            assert(seq![ev_end].drop_first() =~= Seq::<crate::events::MdEvent>::empty());
            assert(st3 == crate::writer::w_step(st2, &seq![ev_end][0]));
            lemma_node_body(st, t, *inner, b);
            let st3b = crate::writer::w_step(
                crate::writer::w_fold(crate::writer::w_step(st, &ev_start), iv),
                &ev_end,
            );
            assert(st3 == st3b);
            assert(stacks_restored(st, st3));
            lemma_balanced_stream_restores_stacks(st3, *rest, b);
            lemma_restored_compose(st, st3, crate::writer::w_fold(st3, rv));
        },
    }
}

/// One Start/inner/End triple restores the stacks.
#[verifier::rlimit(100)]
#[verifier::spinoff_prover]
proof fn lemma_node_body(st: WState, t: crate::events::MdTag, inner: DocShape, b: bool)
    requires
        st.table is None,
        !(t is Table) || !b,
        shape_wf(inner, b || t is Table),
    ensures
        ({
            let ev_start = crate::events::MdEvent::Start(t);
            let ev_end = crate::events::MdEvent::End(end_of(t));
            let st1 = crate::writer::w_step(st, &ev_start);
            let st2 = crate::writer::w_fold(st1, shape_events(inner));
            let st3 = crate::writer::w_step(st2, &ev_end);
            stacks_restored(st, st3)
        }),
    decreases inner, 1int,
{
    let ev_start = crate::events::MdEvent::Start(t);
    let ev_end = crate::events::MdEvent::End(end_of(t));
    let st1 = crate::writer::w_step(st, &ev_start);
    let iv = shape_events(inner);
    if t is Table && st.tables {
        // The accumulator opens; everything inside is swallowed; closing it
        // renders the table and touches no stack.
        let stt = crate::writer::w_start_table(st, match t {
            crate::events::MdTag::Table(al) => al@,
            _ => Seq::empty(),
        });
        lemma_push_blank_stacks(st);
        lemma_flush_stacks(if st.needs_newline {
            crate::writer::w_push_blank(st)
        } else {
            st
        });
        assert(st1.table is Some && st1.frames == st.frames && st1.list_indices
            == st.list_indices && st1.inline_styles == st.inline_styles);
        lemma_wf_no_table_end(inner);
        lemma_table_mode_swallows(st1, iv);
        let st2 = crate::writer::w_fold(st1, iv);
        let t2 = st2.table->0;
        let t3 = if t2.row_open {
            crate::table::table_end_row(t2)
        } else {
            t2
        };
        lemma_render_table_stacks(WState { table: None, ..st2 }, t3);
        let st3 = crate::writer::w_step(st2, &ev_end);
        assert(stacks_restored(st, st3));
    } else {
        // Every other opening leaves no table; the inner fragment restores
        // the stacks; the matching close pops what the open pushed.
        assert(st1.table is None) by {
            match t {
                crate::events::MdTag::Paragraph => {
                    lemma_push_blank_stacks(st);
                    lemma_push_line_stacks(if st.needs_newline {
                        crate::writer::w_push_blank(st)
                    } else {
                        st
                    }, crate::writer::empty_line());
                },
                crate::events::MdTag::Heading(_) => {
                    lemma_push_line_stacks(st, crate::writer::empty_line());
                },
                _ => {},
            }
        }
        lemma_start_stacks(st, t);
        lemma_balanced_stream_restores_stacks(st1, inner, b || t is Table);
        let st2 = crate::writer::w_fold(st1, iv);
        let st3 = crate::writer::w_step(st2, &ev_end);
        lemma_end_stacks(st, st1, st2, t);
        assert(stacks_restored(st, st3));
    }
}

/// What each opening tag does to the stacks, with no table open.
proof fn lemma_start_stacks(st: WState, t: crate::events::MdTag)
    requires
        st.table is None,
        !(t is Table) || !st.tables,
    ensures
        ({
            let st1 = crate::writer::w_step(st, &crate::events::MdEvent::Start(t));
            st1.table is None && match t {
                crate::events::MdTag::BlockQuote => st1.frames.len() == st.frames.len() + 1
                    && st1.frames.drop_last() == st.frames && st1.list_indices == st.list_indices
                    && st1.inline_styles == st.inline_styles,
                crate::events::MdTag::Item => st1.frames.len() == st.frames.len() + 1
                    && st1.frames.drop_last() == st.frames && st1.list_indices.len()
                    == st.list_indices.len() && (forall|k: int|
                    0 <= k < st.list_indices.len() - 1 ==> st1.list_indices[k]
                        == st.list_indices[k]) && st1.inline_styles == st.inline_styles,
                crate::events::MdTag::CodeBlock(_) => st1.frames.len() == st.frames.len() + 1
                    && st1.frames.drop_last() == st.frames && st1.list_indices == st.list_indices
                    && st1.inline_styles == st.inline_styles,
                crate::events::MdTag::List(_) => st1.frames == st.frames && st1.list_indices.len()
                    == st.list_indices.len() + 1 && st1.list_indices.drop_last()
                    == st.list_indices && st1.inline_styles == st.inline_styles,
                crate::events::MdTag::Heading(_) => st1.frames == st.frames && st1.list_indices
                    == st.list_indices && st1.inline_styles.len() == st.inline_styles.len() + 1
                    && st1.inline_styles.drop_last() == st.inline_styles,
                crate::events::MdTag::Emphasis => st1.frames == st.frames && st1.list_indices
                    == st.list_indices && st1.inline_styles.len() == st.inline_styles.len() + 1
                    && st1.inline_styles.drop_last() == st.inline_styles,
                crate::events::MdTag::Strong => st1.frames == st.frames && st1.list_indices
                    == st.list_indices && st1.inline_styles.len() == st.inline_styles.len() + 1
                    && st1.inline_styles.drop_last() == st.inline_styles,
                crate::events::MdTag::Strikethrough => st1.frames == st.frames && st1.list_indices
                    == st.list_indices && st1.inline_styles.len() == st.inline_styles.len() + 1
                    && st1.inline_styles.drop_last() == st.inline_styles,
                _ => st1.frames == st.frames && st1.list_indices == st.list_indices
                    && st1.inline_styles == st.inline_styles,
            }
        }),
{
    match t {
        crate::events::MdTag::Paragraph => {
            lemma_push_blank_stacks(st);
            lemma_push_line_stacks(if st.needs_newline {
                crate::writer::w_push_blank(st)
            } else {
                st
            }, crate::writer::empty_line());
        },
        crate::events::MdTag::Heading(level) => {
            let sth = if st.needs_newline {
                WState { needs_newline: false, ..w_push_line(st, crate::writer::empty_line()) }
            } else {
                st
            };
            lemma_push_line_stacks(st, crate::writer::empty_line());
            lemma_push_line_stacks(
                sth,
                LineS {
                    spans: seq![
                        SpanS {
                            text: crate::text::repeat_char('#', level as nat).push(' '),
                            style: crate::writer::heading_sty(level),
                        },
                    ],
                    style: TextStyle::plain(),
                },
            );
        },
        crate::events::MdTag::BlockQuote => {
            lemma_push_blank_stacks(st);
        },
        crate::events::MdTag::CodeBlock(_) => {
            lemma_flush_stacks(st);
            lemma_push_blank_stacks(w_flush(st));
        },
        crate::events::MdTag::List(_) => {
            lemma_push_line_stacks(st, crate::writer::empty_line());
        },
        crate::events::MdTag::Item => {},
        crate::events::MdTag::Link(_) => {},
        crate::events::MdTag::Table(_) => {},
        _ => {},
    }
}

/// Each closing tag pops exactly what its opening pushed.
#[verifier::rlimit(100)]
#[verifier::spinoff_prover]
proof fn lemma_end_stacks(st: WState, st1: WState, st2: WState, t: crate::events::MdTag)
    requires
        st.table is None,
        !(t is Table) || !st.tables,
        st1 == crate::writer::w_step(st, &crate::events::MdEvent::Start(t)),
        stacks_restored(st1, st2),
    ensures
        stacks_restored(st, crate::writer::w_step(st2, &crate::events::MdEvent::End(end_of(t)))),
{
    lemma_start_stacks(st, t);
    let st3 = crate::writer::w_step(st2, &crate::events::MdEvent::End(end_of(t)));
    match t {
        crate::events::MdTag::BlockQuote => {
            assert(st2.frames == st.frames.push(st1.frames.last()));
            assert(st3.frames =~= st.frames);
        },
        crate::events::MdTag::Item => {
            assert(st2.frames == st.frames.push(st1.frames.last()));
            assert(st3.frames =~= st.frames);
        },
        crate::events::MdTag::CodeBlock(_) => {
            match st2.buffered {
                Some(buf) => {
                    lemma_emit_highlight_stacks(
                        WState { buffered: None, ..st2 },
                        crate::highlight::highlight_spec(
                            buf.lang,
                            crate::text::join_nl(buf.lines),
                        ),
                    );
                },
                None => {},
            }
            assert(st2.frames == st.frames.push(st1.frames.last()));
            assert(st3.frames =~= st.frames);
        },
        crate::events::MdTag::List(_) => {
            assert(st2.list_indices.len() == st.list_indices.len() + 1);
            assert forall|k: int|
                0 <= k < st.list_indices.len() implies st2.list_indices.drop_last()[k]
                == st.list_indices[k] by {
                if k < st.list_indices.len() {
                    assert(st2.list_indices[k] == st1.list_indices[k]);
                    assert(st1.list_indices[k] == st.list_indices[k]);
                }
            }
            assert(st3.list_indices =~= st.list_indices);
        },
        crate::events::MdTag::Heading(_) => {
            assert(st2.inline_styles == st.inline_styles.push(st1.inline_styles.last()));
            assert(st3.inline_styles =~= st.inline_styles);
        },
        crate::events::MdTag::Emphasis => {
            assert(st2.inline_styles == st.inline_styles.push(st1.inline_styles.last()));
            assert(st3.inline_styles =~= st.inline_styles);
        },
        crate::events::MdTag::Strong => {
            assert(st2.inline_styles == st.inline_styles.push(st1.inline_styles.last()));
            assert(st3.inline_styles =~= st.inline_styles);
        },
        crate::events::MdTag::Strikethrough => {
            assert(st2.inline_styles == st.inline_styles.push(st1.inline_styles.last()));
            assert(st3.inline_styles =~= st.inline_styles);
        },
        crate::events::MdTag::Link(_) => {
            match st2.link {
                None => {},
                Some(url) => {
                    let sta = WState { link: None, ..st2 };
                    let stb = crate::writer::w_push_span(
                        sta,
                        SpanS { text: " ("@, style: TextStyle::plain() },
                    );
                    let stc = crate::writer::w_push_span(
                        stb,
                        SpanS { text: url, style: md_styles().link },
                    );
                    lemma_push_span_stacks(sta, SpanS { text: " ("@, style: TextStyle::plain() });
                    lemma_push_span_stacks(stb, SpanS { text: url, style: md_styles().link });
                    lemma_push_span_stacks(stc, SpanS { text: ")"@, style: TextStyle::plain() });
                },
            }
        },
        _ => {},
    }
}

/// The same law at the document level: from the initial state, a well-formed
/// document leaves no open frame, list counter, inline style or table.
pub proof fn lemma_balanced_document_empties_stacks(
    d: DocShape,
    width: Option<usize>,
    budget: usize,
    tables: bool,
)
    requires
        shape_wf(d, false),
    ensures
        ({
            let st2 = crate::writer::w_fold(
                crate::writer::w_init(width, budget, tables),
                shape_events(d),
            );
            st2.frames.len() == 0 && st2.list_indices.len() == 0 && st2.inline_styles.len() == 0
                && st2.table is None
        }),
{
    lemma_balanced_stream_restores_stacks(crate::writer::w_init(width, budget, tables), d, false);
}

} // verus!
