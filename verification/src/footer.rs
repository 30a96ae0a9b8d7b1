//! The background-process footer: renders an ordered list of process
//! descriptors into width-bounded styled lines, truncating long commands and
//! output snippets.

use vstd::prelude::*;

use crate::line::{lemma_views_of_push, views_of, LineS, RLine, RSpan, SpanS, StyledLine,
    to_styled_lines};
use crate::style::{TermColor, TextStyle};
use crate::text::{char_cols, char_width, copy_chars, dec_str, has_ch, sat_cols, str_chars,
    u64_chars, append_chars, chars_to_string};

verus! {

/// One background process: its display command and recent output snippets.
pub struct UnifiedExecProcessDetails {
    pub command_display: String,
    pub recent_chunks: Vec<String>,
}

/// The model of one process descriptor.
#[verifier::ext_equal]
pub ghost struct DetailS {
    pub command: Seq<char>,
    pub chunks: Seq<Seq<char>>,
}

impl View for UnifiedExecProcessDetails {
    type V = DetailS;

    open spec fn view(&self) -> DetailS {
        DetailS { command: self.command_display@, chunks: views_of(self.recent_chunks@) }
    }
}

/// The footer widget: the processes it currently shows.
pub struct UnifiedExecFooter {
    pub processes: Vec<UnifiedExecProcessDetails>,
}

impl View for UnifiedExecFooter {
    type V = Seq<DetailS>;

    open spec fn view(&self) -> Seq<DetailS> {
        views_of(self.processes@)
    }
}

// ---------- width-bounded prefixes ----------

/// How many leading characters fit within `width` columns, packing greedily.
pub open spec fn fit_count(s: Seq<char>, acc: nat, width: nat) -> nat
    decreases s.len(),
{
    if s.len() == 0 {
        0
    } else {
        let cw = char_cols(s[0]);
        if acc + cw <= width {
            1 + fit_count(s.drop_first(), acc + cw, width)
        } else {
            0
        }
    }
}

/// The longest prefix of `s` that fits within `width` columns.
pub open spec fn fit_prefix(s: Seq<char>, width: nat) -> Seq<char> {
    s.take(fit_count(s, 0, width) as int)
}

/// The remainder after the fitting prefix.
pub open spec fn fit_rest(s: Seq<char>, width: nat) -> Seq<char> {
    s.skip(fit_count(s, 0, width) as int)
}

proof fn lemma_fit_count_le(s: Seq<char>, acc: nat, width: nat)
    ensures
        fit_count(s, acc, width) <= s.len(),
    decreases s.len(),
{
    if s.len() > 0 {
        let cw = char_cols(s[0]);
        if acc + cw <= width {
            lemma_fit_count_le(s.drop_first(), acc + cw, width);
        }
    }
}

/// Takes the longest prefix of `s` fitting within `width` display columns,
/// returning the prefix and the remainder.
pub fn take_prefix_by_width(s: &Vec<char>, width: usize) -> (r: (Vec<char>, Vec<char>))
    ensures
        r.0@ == fit_prefix(s@, width as nat),
        r.1@ == fit_rest(s@, width as nat),
{
    let n = s.len();
    let mut acc: usize = 0;
    let mut i: usize = 0;
    let mut done = false;
    proof {
        assert(s@.skip(0) =~= s@);
    }
    while i < n && !done
        invariant
            i <= n,
            n == s@.len(),
            acc <= width,
            !done ==> fit_count(s@, 0, width as nat) == i as nat + fit_count(
                s@.skip(i as int),
                acc as nat,
                width as nat,
            ),
            done ==> fit_count(s@, 0, width as nat) == i as nat,
        decreases n - i, (if done { 0int } else { 1int }),
    {
        let ghost pre = s@.skip(i as int);
        proof {
            assert(pre[0] == s@[i as int]);
            assert(pre.drop_first() =~= s@.skip(i + 1 as int));
        }
        let cw = char_width(s[i]);
        if cw > width - acc {
            proof {
                assert(acc + cw > width);
                assert(fit_count(pre, acc as nat, width as nat) == 0);
            }
            done = true;
        } else {
            acc = acc + cw;
            i += 1;
        }
    }
    proof {
        if !done {
            assert(s@.skip(n as int) =~= Seq::<char>::empty());
        }
        assert(fit_count(s@, 0, width as nat) == i as nat);
    }
    let prefix = crate::text::subvec(s, 0, i);
    let rest = crate::text::subvec(s, i, n);
    proof {
        assert(prefix@ =~= fit_prefix(s@, width as nat));
        assert(rest@ =~= fit_rest(s@, width as nat));
    }
    (prefix, rest)
}

// ---------- snippet handling ----------

/// The first line of a command and whether more was hidden.
pub open spec fn snippet_of(command: Seq<char>) -> (Seq<char>, bool) {
    if has_ch(command, '\n') {
        (command.take(until_ch_footer(command, '\n') as int), true)
    } else {
        (command, false)
    }
}

impl UnifiedExecFooter {
    /// An empty footer.
    pub fn new() -> (r: UnifiedExecFooter)
        ensures
            r@ == Seq::<DetailS>::empty(),
    {
        let r = UnifiedExecFooter { processes: Vec::new() };
        proof {
            assert(r@ =~= Seq::<DetailS>::empty());
        }
        r
    }

    /// Replaces the process list, reporting whether anything changed.
    pub fn set_processes(&mut self, processes: Vec<UnifiedExecProcessDetails>) -> (r: bool)
        ensures
            final(self)@ == views_of(processes@),
            r == (old(self)@ != views_of(processes@)),
    {
        let ghost pv = views_of(processes@);
        let same = details_eq(&self.processes, &processes);
        self.processes = processes;
        proof {
            assert(self@ == pv);
        }
        !same
    }

    /// Whether no process is shown.
    pub fn is_empty(&self) -> (r: bool)
        ensures
            r == (self@.len() == 0),
    {
        self.processes.len() == 0
    }

    /// The first line of a command, and whether more lines were hidden.
    pub fn process_snippet(command: &str) -> (r: (String, bool))
        ensures
            r.0@ == snippet_of(command@).0,
            r.1 == snippet_of(command@).1,
    {
        let chars = str_chars(command);
        let nl = crate::highlight::contains_ch(&chars, '\n');
        if nl {
            let k = until_footer_exec(&chars, 0, '\n');
            proof {
                assert(chars@.skip(0) =~= chars@);
            }
            let first = crate::text::subvec(&chars, 0, k);
            proof {
                assert(first@ =~= snippet_of(command@).0);
            }
            (chars_to_string(&first), true)
        } else {
            (chars_to_string(&chars), false)
        }
    }
}

/// The number of leading characters different from `c` (shared with the
/// snippet split).
pub open spec fn until_ch_footer(s: Seq<char>, c: char) -> nat
    decreases s.len(),
{
    if s.len() > 0 && s[0] != c {
        1 + until_ch_footer(s.drop_first(), c)
    } else {
        0
    }
}

fn until_footer_exec(v: &Vec<char>, i: usize, c: char) -> (r: usize)
    requires
        i <= v@.len(),
    ensures
        i + r <= v@.len(),
        r as nat == until_ch_footer(v@.skip(i as int), c),
    decreases v@.len() - i,
{
    if i < v.len() && v[i] != c {
        proof {
            assert(v@.skip(i as int)[0] == v@[i as int]);
            assert(v@.skip(i as int).drop_first() =~= v@.skip(i + 1 as int));
        }
        1 + until_footer_exec(v, i + 1, c)
    } else {
        proof {
            if i < v@.len() {
                assert(v@.skip(i as int)[0] == v@[i as int]);
            }
        }
        0
    }
}

/// Compares two process lists by value.
fn details_eq(a: &Vec<UnifiedExecProcessDetails>, b: &Vec<UnifiedExecProcessDetails>) -> (r: bool)
    ensures
        r == (views_of(a@) == views_of(b@)),
{
    if a.len() != b.len() {
        proof {
            assert(views_of(a@).len() != views_of(b@).len());
        }
        return false;
    }
    let mut i: usize = 0;
    while i < a.len()
        invariant
            i <= a@.len(),
            a@.len() == b@.len(),
            forall|k: int| 0 <= k < i ==> views_of(a@)[k] == views_of(b@)[k],
        decreases a@.len() - i,
    {
        if !(a[i].command_display == b[i].command_display) {
            proof {
                assert(a@[i as int]@.command != b@[i as int]@.command);
                if views_of(a@) == views_of(b@) {
                    assert(views_of(a@)[i as int] == views_of(b@)[i as int]);
                    assert(a@[i as int]@ == b@[i as int]@);
                    assert(false);
                }
            }
            return false;
        }
        if a[i].recent_chunks.len() != b[i].recent_chunks.len() {
            proof {
                assert(views_of(a@[i as int].recent_chunks@).len() != views_of(
                    b@[i as int].recent_chunks@).len());
                if views_of(a@) == views_of(b@) {
                    assert(views_of(a@)[i as int] == views_of(b@)[i as int]);
                    assert(a@[i as int]@ == b@[i as int]@);
                    assert(false);
                }
            }
            return false;
        }
        let mut j: usize = 0;
        while j < a[i].recent_chunks.len()
            invariant
                i < a@.len(),
                a@.len() == b@.len(),
                j <= a@[i as int].recent_chunks@.len(),
                a@[i as int].recent_chunks@.len() == b@[i as int].recent_chunks@.len(),
                a@[i as int].command_display@ == b@[i as int].command_display@,
                forall|k: int| 0 <= k < i ==> views_of(a@)[k] == views_of(b@)[k],
                forall|k: int|
                    0 <= k < j ==> views_of(a@[i as int].recent_chunks@)[k] == views_of(
                        b@[i as int].recent_chunks@,
                    )[k],
            decreases a@[i as int].recent_chunks@.len() - j,
        {
            if !(a[i].recent_chunks[j] == b[i].recent_chunks[j]) {
                proof {
                    assert(views_of(a@[i as int].recent_chunks@)[j as int] != views_of(
                        b@[i as int].recent_chunks@)[j as int]);
                    if views_of(a@) == views_of(b@) {
                        assert(views_of(a@)[i as int] == views_of(b@)[i as int]);
                        assert(a@[i as int]@ == b@[i as int]@);
                        assert(views_of(a@[i as int].recent_chunks@) == views_of(
                            b@[i as int].recent_chunks@));
                        assert(false);
                    }
                }
                return false;
            }

            j += 1;
        }
        proof {
            assert(views_of(a@[i as int].recent_chunks@) =~= views_of(
                b@[i as int].recent_chunks@));
            assert(a@[i as int]@ =~= b@[i as int]@);
            assert(views_of(a@)[i as int] == a@[i as int]@);
            assert(views_of(b@)[i as int] == b@[i as int]@);
        }
        i += 1;
    }
    proof {
        assert(views_of(a@) =~= views_of(b@));
    }
    true
}

// ---------- rendering ----------

/// The dim style.
pub open spec fn dim_style() -> TextStyle {
    TextStyle::plain().dim()
}

/// The cyan command style.
pub open spec fn cmd_style() -> TextStyle {
    TextStyle::plain().fg(TermColor::Cyan)
}

/// A dim span.
pub open spec fn dspan(t: Seq<char>) -> SpanS {
    SpanS { text: t, style: dim_style() }
}

/// A plain-styled line from given spans.
pub open spec fn pline(spans: Seq<SpanS>) -> LineS {
    LineS { spans, style: TextStyle::plain() }
}

/// Whether `s` ends with `suf`.
pub open spec fn ends_with(s: Seq<char>, suf: Seq<char>) -> bool {
    suf.len() <= s.len() && s.skip(s.len() - suf.len()) == suf
}

/// `s` with every trailing repetition of `suf` removed.
pub open spec fn trim_end_suffix(s: Seq<char>, suf: Seq<char>) -> Seq<char>
    decreases s.len(),
{
    if suf.len() > 0 && ends_with(s, suf) {
        trim_end_suffix(s.take(s.len() - suf.len()), suf)
    } else {
        s
    }
}

/// A snippet truncated into `width` columns, with a `[...]` tail when content
/// was cut away or hidden.
pub open spec fn trunc_snip(s: Seq<char>, width: nat, hidden: bool) -> Seq<char> {
    if width == 0 {
        Seq::empty()
    } else {
        let sufw = sat_cols(" [...]"@);
        let needs = hidden || fit_rest(s, width).len() > 0;
        if needs && width > sufw {
            fit_prefix(s, (width - sufw) as nat) + " [...]"@
        } else {
            fit_prefix(s, width)
        }
    }
}

/// One rendered chunk line: its prefix, and the chunk truncated to fit.
pub open spec fn chunk_line(chunk: Seq<char>, ww: nat, first: bool) -> LineS {
    let cp: Seq<char> = if first {
        "    \u{21b3} "@
    } else {
        "      "@
    };
    let cpw = sat_cols(cp);
    let sufw = sat_cols(" [...]"@);
    if ww <= cpw {
        pline(seq![dspan(cp)])
    } else {
        let budget = (ww - cpw) as nat;
        if fit_rest(chunk, budget).len() > 0 && budget > sufw {
            pline(
                seq![
                    dspan(cp),
                    dspan(fit_prefix(chunk, (budget - sufw) as nat)),
                    dspan(" [...]"@),
                ],
            )
        } else {
            pline(seq![dspan(cp), dspan(fit_prefix(chunk, budget))])
        }
    }
}

pub open spec fn chunks_rec(chunks: Seq<Seq<char>>, ww: nat, first: bool) -> Seq<LineS>
    decreases chunks.len(),
{
    if chunks.len() == 0 {
        Seq::empty()
    } else {
        seq![chunk_line(chunks[0], ww, first)] + chunks_rec(chunks.drop_first(), ww, false)
    }
}

/// The rendered lines of one process: its truncated command snippet, then its
/// chunk lines.
pub open spec fn proc_lines(p: DetailS, ww: nat) -> Seq<LineS> {
    let bw = sat_cols("  \u{2022} "@);
    let sufw = sat_cols(" [...]"@);
    let snippet = snippet_of(p.command).0;
    let hidden = snippet_of(p.command).1;
    let first: Seq<LineS> = if ww <= bw {
        seq![pline(seq![dspan("  \u{2022} "@)])]
    } else {
        let budget = (ww - bw) as nat;
        let snip = trunc_snip(snippet, budget, hidden);
        if ends_with(snip, " [...]"@) && budget > sufw {
            seq![
                pline(
                    seq![
                        dspan("  \u{2022} "@),
                        SpanS { text: trim_end_suffix(snip, " [...]"@), style: cmd_style() },
                        dspan(" [...]"@),
                    ],
                ),
            ]
        } else {
            seq![
                pline(
                    seq![dspan("  \u{2022} "@), SpanS { text: snip, style: cmd_style() }],
                ),
            ]
        }
    };
    first + chunks_rec(p.chunks, ww, true)
}

pub open spec fn procs_rec(procs: Seq<DetailS>, ww: nat) -> Seq<LineS>
    decreases procs.len(),
{
    if procs.len() == 0 {
        Seq::empty()
    } else {
        proc_lines(procs[0], ww) + procs_rec(procs.drop_first(), ww)
    }
}

/// The rendered footer: a dim header line, at most sixteen processes, and a
/// trailing count of the rest.
pub open spec fn rl_spec(procs: Seq<DetailS>, width: u16) -> Seq<LineS> {
    if procs.len() == 0 || width == 0 {
        Seq::empty()
    } else {
        let ww = width as nat;
        let count = procs.len();
        let header_full = "  "@ + dec_str(count) + " background terminal"@ + (if count == 1 {
            Seq::<char>::empty()
        } else {
            "s"@
        }) + " running"@;
        let hline = LineS { spans: seq![crate::highlight::plain_span(fit_prefix(header_full, ww))], style: dim_style() };
        let shown: nat = if count > 16 {
            16
        } else {
            count
        };
        let body = procs_rec(procs.take(shown as int), ww);
        let bw = sat_cols("  \u{2022} "@);
        let more: Seq<LineS> = if count > shown {
            let more_text = "... and "@ + dec_str((count - shown) as nat) + " more running"@;
            if ww <= bw {
                seq![pline(seq![dspan("  \u{2022} "@)])]
            } else {
                seq![
                    pline(
                        seq![dspan("  \u{2022} "@), dspan(fit_prefix(more_text, (ww - bw) as nat))],
                    ),
                ]
            }
        } else {
            Seq::empty()
        };
        seq![hline] + body + more
    }
}

impl UnifiedExecFooter {
    /// Renders the footer into `width`-bounded styled lines.
    #[verifier::rlimit(100)]
    #[verifier::spinoff_prover]
    pub fn render_lines(&self, width: u16) -> (r: Vec<StyledLine>)
        ensures
            views_of(r@) == rl_spec(self@, width),
    {
        let mut out: Vec<RLine> = Vec::new();
        if self.processes.len() == 0 || width == 0 {
            let sl = to_styled_lines(out);
            proof {
                assert(views_of(sl@) =~= rl_spec(self@, width));
            }
            return sl;
        }
        let ww = width as usize;
        let count = self.processes.len();
        // The dim header line.
        let mut header_full = str_chars("  ");
        let digits = crate::text::usize_chars(count);
        append_chars(&mut header_full, &digits);
        let word = str_chars(" background terminal");
        append_chars(&mut header_full, &word);
        if count != 1 {
            let plural = str_chars("s");
            append_chars(&mut header_full, &plural);
        }
        let tail = str_chars(" running");
        append_chars(&mut header_full, &tail);
        let (h, _hrest) = take_prefix_by_width(&header_full, ww);
        let mut hspans: Vec<RSpan> = Vec::new();
        hspans.push(RSpan::plain(h));
        let hline = RLine { spans: hspans, style: TextStyle::plain().dim() };
        let ghost hl = hline@;
        proof {
            lemma_views_of_push(out@, hline);
        }
        out.push(hline);
        let ghost pv = self@;
        let shown: usize = if count > 16 {
            16
        } else {
            count
        };
        let ghost pvshown = pv.take(shown as int);
        let ghost target_body = procs_rec(pvshown, ww as nat);
        let mut p: usize = 0;
        proof {
            assert(pvshown.skip(0) =~= pvshown);
            assert(views_of(out@) =~= seq![hl]);
        }
        while p < shown
            invariant
                p <= shown,
                shown <= self.processes@.len(),
                shown <= 16,
                pv == self@,
                ww == width as nat,
                width != 0,
                pvshown == pv.take(shown as int),
                views_of(out@) + procs_rec(pvshown.skip(p as int), ww as nat) == seq![hl]
                    + target_body,
            decreases shown - p,
        {
            let ghost pre = pvshown.skip(p as int);
            proof {
                assert(pre[0] == pvshown[p as int]);
                assert(pvshown[p as int] == pv[p as int]);
                assert(pre.drop_first() =~= pvshown.skip(p + 1 as int));
            }
            let ghost before = views_of(out@);
            // The snippet line.
            let bullet = str_chars("  \u{2022} ");
            let bw = crate::text::text_cols(&bullet);
            let (snippet, hidden) = Self::process_snippet(self.processes[p].command_display.as_str());
            let scs = str_chars(snippet.as_str());
            if ww <= bw {
                let mut sp: Vec<RSpan> = Vec::new();
                sp.push(RSpan::new(bullet, TextStyle::plain().dim()));
                let line = RLine { spans: sp, style: TextStyle::plain() };
                proof {
                    lemma_views_of_push(out@, line);
                }
                out.push(line);
            } else {
                let budget = ww - bw;
                let suffix = str_chars(" [...]");
                let sufw = crate::text::text_cols(&suffix);
                // Truncate the snippet into the budget.
                let snip: Vec<char> = if budget == 0 {
                    Vec::new()
                } else {
                    let (_tr, rem) = take_prefix_by_width(&scs, budget);
                    let needs = hidden || rem.len() > 0;
                    if needs && budget > sufw {
                        let (shorter, _r2) = take_prefix_by_width(&scs, budget - sufw);
                        let mut sv = shorter;
                        append_chars(&mut sv, &suffix);
                        sv
                    } else {
                        let (tr, _r3) = take_prefix_by_width(&scs, budget);
                        tr
                    }
                };
                proof {
                    assert(snip@ == trunc_snip(snippet_of(pv[p as int].command).0, budget as nat,
                        snippet_of(pv[p as int].command).1));
                }
                let ew = ends_with_exec(&snip, &suffix);
                if ew && budget > sufw {
                    let visible = trim_end_exec(&snip, &suffix);
                    let mut sp: Vec<RSpan> = Vec::new();
                    sp.push(RSpan::new(bullet, TextStyle::plain().dim()));
                    sp.push(RSpan::new(visible, TextStyle::plain().fg(TermColor::Cyan)));
                    sp.push(RSpan::new(suffix, TextStyle::plain().dim()));
                    let line = RLine { spans: sp, style: TextStyle::plain() };
                    proof {
                        lemma_views_of_push(out@, line);
                    }
                    out.push(line);
                } else {
                    let mut sp: Vec<RSpan> = Vec::new();
                    sp.push(RSpan::new(bullet, TextStyle::plain().dim()));
                    sp.push(RSpan::new(snip, TextStyle::plain().fg(TermColor::Cyan)));
                    let line = RLine { spans: sp, style: TextStyle::plain() };
                    proof {
                        lemma_views_of_push(out@, line);
                    }
                    out.push(line);
                }
            }
            // The chunk lines.
            let ghost chv = pv[p as int].chunks;
            let ghost after_snip = views_of(out@);
            proof {
                assert(after_snip =~~= before + (proc_lines(pv[p as int], ww as nat).take(1)));
                assert(chv.skip(0) =~= chv);
            }
            let nchunks = self.processes[p].recent_chunks.len();
            let mut c: usize = 0;
            while c < nchunks
                invariant
                    c <= nchunks,
                    p < self.processes@.len(),
                    pv == self@,
                    ww == width as nat,
                    width != 0,
                    nchunks == pv[p as int].chunks.len(),
                    chv == pv[p as int].chunks,
                    views_of(out@) == after_snip + chunks_rec(chv, ww as nat, true).take(c as int),
                decreases nchunks - c,
            {
                let cprefix = if c == 0 {
                    str_chars("    \u{21b3} ")
                } else {
                    str_chars("      ")
                };
                let cpw = crate::text::text_cols(&cprefix);
                let chunk = str_chars(self.processes[p].recent_chunks[c].as_str());
                proof {
                    assert(chunk@ == chv[c as int]);
                    lemma_chunks_rec_index(chv, ww as nat, c as int);
                }
                if ww <= cpw {
                    let mut sp: Vec<RSpan> = Vec::new();
                    sp.push(RSpan::new(cprefix, TextStyle::plain().dim()));
                    let line = RLine { spans: sp, style: TextStyle::plain() };
                    proof {
                        lemma_views_of_push(out@, line);
                        assert((after_snip + chunks_rec(chv, ww as nat, true).take(c as int)).push(
                            line@) =~~= after_snip + chunks_rec(chv, ww as nat, true).take(
                            c + 1 as int));
                    }
                    out.push(line);
                } else {
                    let budget = ww - cpw;
                    let suffix = str_chars(" [...]");
                    let sufw = crate::text::text_cols(&suffix);
                    let (trunc, rem) = take_prefix_by_width(&chunk, budget);
                    if rem.len() > 0 && budget > sufw {
                        let (shorter, _r4) = take_prefix_by_width(&chunk, budget - sufw);
                        let mut sp: Vec<RSpan> = Vec::new();
                        sp.push(RSpan::new(cprefix, TextStyle::plain().dim()));
                        sp.push(RSpan::new(shorter, TextStyle::plain().dim()));
                        sp.push(RSpan::new(suffix, TextStyle::plain().dim()));
                        let line = RLine { spans: sp, style: TextStyle::plain() };
                        proof {
                            lemma_views_of_push(out@, line);
                            assert((after_snip + chunks_rec(chv, ww as nat, true).take(
                                c as int)).push(line@) =~~= after_snip + chunks_rec(
                                chv,
                                ww as nat,
                                true,
                            ).take(c + 1 as int));
                        }
                        out.push(line);
                    } else {
                        let mut sp: Vec<RSpan> = Vec::new();
                        sp.push(RSpan::new(cprefix, TextStyle::plain().dim()));
                        sp.push(RSpan::new(trunc, TextStyle::plain().dim()));
                        let line = RLine { spans: sp, style: TextStyle::plain() };
                        proof {
                            lemma_views_of_push(out@, line);
                            assert((after_snip + chunks_rec(chv, ww as nat, true).take(
                                c as int)).push(line@) =~~= after_snip + chunks_rec(
                                chv,
                                ww as nat,
                                true,
                            ).take(c + 1 as int));
                        }
                        out.push(line);
                    }
                }
                c += 1;
            }
            proof {
                lemma_chunks_rec_len(chv, ww as nat);
                assert(chunks_rec(chv, ww as nat, true).take(chv.len() as int) =~= chunks_rec(
                    chv,
                    ww as nat,
                    true,
                ));
                assert(views_of(out@) =~~= before + proc_lines(pv[p as int], ww as nat));
                assert(before + (proc_lines(pv[p as int], ww as nat) + procs_rec(
                    pvshown.skip(p + 1 as int),
                    ww as nat,
                )) =~= (before + proc_lines(pv[p as int], ww as nat)) + procs_rec(
                    pvshown.skip(p + 1 as int),
                    ww as nat,
                ));
            }
            p += 1;
        }
        proof {
            assert(pvshown.skip(shown as int) =~= Seq::<DetailS>::empty());
        }
        // The trailing count of processes not shown.
        if count > shown {
            let remaining = count - shown;
            let mut more_text = str_chars("... and ");
            let digits2 = crate::text::usize_chars(remaining);
            append_chars(&mut more_text, &digits2);
            let tail2 = str_chars(" more running");
            append_chars(&mut more_text, &tail2);
            let bullet = str_chars("  \u{2022} ");
            let bw = crate::text::text_cols(&bullet);
            let ghost before_more = views_of(out@);
            if ww <= bw {
                let mut sp: Vec<RSpan> = Vec::new();
                sp.push(RSpan::new(bullet, TextStyle::plain().dim()));
                let line = RLine { spans: sp, style: TextStyle::plain() };
                proof {
                    lemma_views_of_push(out@, line);
                }
                out.push(line);
            } else {
                let (tm, _r5) = take_prefix_by_width(&more_text, ww - bw);
                let mut sp: Vec<RSpan> = Vec::new();
                sp.push(RSpan::new(bullet, TextStyle::plain().dim()));
                sp.push(RSpan::new(tm, TextStyle::plain().dim()));
                let line = RLine { spans: sp, style: TextStyle::plain() };
                proof {
                    lemma_views_of_push(out@, line);
                }
                out.push(line);
            }
        }
        proof {
            assert(views_of(out@) =~~= rl_spec(self@, width));
        }
        to_styled_lines(out)
    }

    /// The number of rows the footer wants at `width`.
    pub fn desired_height(&self, width: u16) -> (r: u16)
        ensures
            r == rl_spec(self@, width).len() as u16,
    {
        let lines = self.render_lines(width);
        let n = lines.len();
        proof {
            assert(views_of(lines@).len() == n as nat);
        }
        n as u16
    }
}

proof fn lemma_chunks_rec_len(chunks: Seq<Seq<char>>, ww: nat)
    ensures
        chunks_rec(chunks, ww, true).len() == chunks.len(),
        chunks_rec(chunks, ww, false).len() == chunks.len(),
    decreases chunks.len(),
{
    if chunks.len() > 0 {
        lemma_chunks_rec_len(chunks.drop_first(), ww);
    }
}

/// Indexing the chunk lines: the first uses the arrow prefix, the rest the
/// blank one.
proof fn lemma_chunks_rec_index(chunks: Seq<Seq<char>>, ww: nat, c: int)
    requires
        0 <= c < chunks.len(),
    ensures
        chunks_rec(chunks, ww, true).len() == chunks.len(),
        chunks_rec(chunks, ww, true)[c] == chunk_line(chunks[c], ww, c == 0),
    decreases chunks.len(),
{
    lemma_chunks_rec_len_g(chunks, ww, true);
    if c > 0 {
        lemma_chunks_rec_index_g(chunks.drop_first(), ww, c - 1);
    }
}

proof fn lemma_chunks_rec_len_g(chunks: Seq<Seq<char>>, ww: nat, first: bool)
    ensures
        chunks_rec(chunks, ww, first).len() == chunks.len(),
    decreases chunks.len(),
{
    if chunks.len() > 0 {
        lemma_chunks_rec_len_g(chunks.drop_first(), ww, false);
    }
}

proof fn lemma_chunks_rec_index_g(chunks: Seq<Seq<char>>, ww: nat, c: int)
    requires
        0 <= c < chunks.len(),
    ensures
        chunks_rec(chunks, ww, false)[c] == chunk_line(chunks[c], ww, false),
    decreases c,
{
    lemma_chunks_rec_len_g(chunks, ww, false);
    if c > 0 {
        lemma_chunks_rec_index_g(chunks.drop_first(), ww, c - 1);
    } else {
        lemma_chunks_rec_len_g(chunks.drop_first(), ww, false);
    }
}

/// Whether `v` ends with the characters of `suf`.
fn ends_with_exec(v: &Vec<char>, suf: &Vec<char>) -> (r: bool)
    ensures
        r == ends_with(v@, suf@),
{
    let n = v.len();
    let m = suf.len();
    if m > n {
        return false;
    }
    let tail = crate::text::subvec(v, n - m, n);
    proof {
        assert(tail@ =~= v@.skip(n - m as int));
    }
    crate::text::eq_chars(&tail, suf)
}

/// Removes every trailing repetition of `suf` from `v`.
fn trim_end_exec(v: &Vec<char>, suf: &Vec<char>) -> (r: Vec<char>)
    ensures
        r@ == trim_end_suffix(v@, suf@),
    decreases v@.len(),
{
    let m = suf.len();
    if m > 0 && ends_with_exec(v, suf) {
        let n = v.len();
        let head = crate::text::subvec(v, 0, n - m);
        proof {
            assert(head@ =~= v@.take((n - m) as int));
        }
        trim_end_exec(&head, suf)
    } else {
        crate::text::copy_chars(v)
    }
}

} // verus!
