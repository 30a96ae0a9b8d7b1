//! The block/inline event reducer: consumes the structural event stream and
//! produces the final styled-line sequence, maintaining nested indent frames,
//! list counters, a table accumulator and a code-block buffer.

use vstd::prelude::*;

use crate::events::{MdAlign, MdEvent, MdTag, MdTagEnd};
use crate::highlight::{highlight_rlines, highlight_spec};
use crate::language::HighlightLanguage;
use crate::line::{lemma_views_of_push, line_text, views_of, LineS, RLine, RSpan, SpanS};
use crate::normalize::box_line_spec;
use crate::style::{md_styles, TextStyle};
use crate::table::{table_end_cell, table_end_row, table_layout, table_new, table_push_space,
    table_push_text, table_start_cell, table_start_row, rows_view, render_table_string,
    rows_to_strings, header_view, srows_view, TableS, TableState};
use crate::text::{dec_str, join_nl, repeat_char, repeat_char_exec, sat_cols, str_chars, subvec,
    text_cols, text_lines, text_lines_exec, u64_chars};
use crate::wrap::{clone_spans, spans_chars, wrap_line, wrap_line_spec};

verus! {

/// One open nested block: the prefix applied to every line while it is open,
/// the one-shot marker consumed by the first line after it opens, and whether
/// it belongs to a list item.
pub struct IndentFrame {
    pub prefix: Vec<RSpan>,
    pub marker: Option<Vec<RSpan>>,
    pub is_list: bool,
}

/// The model of an indent frame.
#[verifier::ext_equal]
pub ghost struct FrameS {
    pub prefix: Seq<SpanS>,
    pub marker: Option<Seq<SpanS>>,
    pub is_list: bool,
}

impl View for IndentFrame {
    type V = FrameS;

    open spec fn view(&self) -> FrameS {
        FrameS {
            prefix: views_of(self.prefix@),
            marker: match self.marker {
                Some(m) => Some(views_of(m@)),
                None => None,
            },
            is_list: self.is_list,
        }
    }
}

/// The buffered raw lines of an open code block with a recognized language.
pub struct CodeBuf {
    pub lang: HighlightLanguage,
    pub lines: Vec<Vec<char>>,
}

/// The model of the code-block buffer.
#[verifier::ext_equal]
pub ghost struct BufS {
    pub lang: HighlightLanguage,
    pub lines: Seq<Seq<char>>,
}

impl View for CodeBuf {
    type V = BufS;

    open spec fn view(&self) -> BufS {
        BufS { lang: self.lang, lines: views_of(self.lines@) }
    }
}

/// The model of the whole reducer state.
#[verifier::ext_equal]
pub ghost struct WState {
    pub inline_styles: Seq<TextStyle>,
    pub frames: Seq<FrameS>,
    pub list_indices: Seq<Option<u64>>,
    pub link: Option<Seq<char>>,
    pub needs_newline: bool,
    pub pending_marker: bool,
    pub in_code: bool,
    pub wrap_width: Option<usize>,
    pub table_budget: usize,
    pub tables: bool,
    pub table: Option<TableS>,
    pub cur_line: Option<LineS>,
    pub cur_init: Seq<SpanS>,
    pub cur_sub: Seq<SpanS>,
    pub cur_style: TextStyle,
    pub cur_in_code: bool,
    pub buffered: Option<BufS>,
    pub out: Seq<LineS>,
}

/// The reducer.
pub struct Writer {
    pub inline_styles: Vec<TextStyle>,
    pub indent_stack: Vec<IndentFrame>,
    pub list_indices: Vec<Option<u64>>,
    pub link: Option<Vec<char>>,
    pub needs_newline: bool,
    pub pending_marker_line: bool,
    pub in_code_block: bool,
    pub wrap_width: Option<usize>,
    pub table_budget: usize,
    pub tables_enabled: bool,
    pub table_state: Option<TableState>,
    pub cur_line: Option<RLine>,
    pub cur_init: Vec<RSpan>,
    pub cur_sub: Vec<RSpan>,
    pub cur_style: TextStyle,
    pub cur_in_code: bool,
    pub buffered: Option<CodeBuf>,
    pub out: Vec<RLine>,
}

impl View for Writer {
    type V = WState;

    open spec fn view(&self) -> WState {
        WState {
            inline_styles: self.inline_styles@,
            frames: views_of(self.indent_stack@),
            list_indices: self.list_indices@,
            link: match self.link {
                Some(l) => Some(l@),
                None => None,
            },
            needs_newline: self.needs_newline,
            pending_marker: self.pending_marker_line,
            in_code: self.in_code_block,
            wrap_width: self.wrap_width,
            table_budget: self.table_budget,
            tables: self.tables_enabled,
            table: match self.table_state {
                Some(t) => Some(t@),
                None => None,
            },
            cur_line: match self.cur_line {
                Some(l) => Some(l@),
                None => None,
            },
            cur_init: views_of(self.cur_init@),
            cur_sub: views_of(self.cur_sub@),
            cur_style: self.cur_style,
            cur_in_code: self.cur_in_code,
            buffered: match self.buffered {
                Some(b) => Some(b@),
                None => None,
            },
            out: views_of(self.out@),
        }
    }
}

/// The initial reducer state.
pub open spec fn w_init(wrap_width: Option<usize>, table_budget: usize, tables: bool) -> WState {
    WState {
        inline_styles: Seq::empty(),
        frames: Seq::empty(),
        list_indices: Seq::empty(),
        link: None,
        needs_newline: false,
        pending_marker: false,
        in_code: false,
        wrap_width,
        table_budget,
        tables,
        table: None,
        cur_line: None,
        cur_init: Seq::empty(),
        cur_sub: Seq::empty(),
        cur_style: TextStyle::plain(),
        cur_in_code: false,
        buffered: None,
        out: Seq::empty(),
    }
}

// ---------- prefix computation ----------

/// The index of the innermost frame carrying a marker, `-1` when none does.
pub open spec fn lm_idx(frames: Seq<FrameS>) -> int
    decreases frames.len(),
{
    if frames.len() == 0 {
        -1
    } else if frames.last().marker is Some {
        frames.len() - 1
    } else {
        lm_idx(frames.drop_last())
    }
}

/// The index of the innermost list frame, `-1` when none exists.
pub open spec fn ll_idx(frames: Seq<FrameS>) -> int
    decreases frames.len(),
{
    if frames.len() == 0 {
        -1
    } else if frames.last().is_list {
        frames.len() - 1
    } else {
        ll_idx(frames.drop_last())
    }
}

/// What one frame contributes to a line's prefix.
pub open spec fn frame_piece(f: FrameS, i: int, pending: bool, lm: int, ll: int) -> Seq<SpanS> {
    if pending {
        if i == lm && f.marker is Some {
            f.marker->0
        } else if f.is_list && lm > i {
            Seq::empty()
        } else {
            f.prefix
        }
    } else {
        if f.is_list && i != ll {
            Seq::empty()
        } else {
            f.prefix
        }
    }
}

/// The concatenated prefix of the first `i` frames.
pub open spec fn prefix_rec(frames: Seq<FrameS>, i: int, pending: bool, lm: int, ll: int) -> Seq<
    SpanS,
>
    decreases i,
{
    if i <= 0 {
        Seq::empty()
    } else {
        prefix_rec(frames, i - 1, pending, lm, ll) + frame_piece(
            frames[i - 1],
            i - 1,
            pending,
            lm,
            ll,
        )
    }
}

/// The line prefix of the open frames: each open block's prefix in order,
/// with the innermost marker substituted on a marker-pending line, outer list
/// indents suppressed before the marker, and only the innermost list indent
/// kept otherwise.
pub open spec fn w_prefix(st: WState, pending: bool) -> Seq<SpanS> {
    prefix_rec(
        st.frames,
        st.frames.len() as int,
        pending,
        if pending {
            lm_idx(st.frames)
        } else {
            -1
        },
        ll_idx(st.frames),
    )
}

// ---------- line emission ----------

/// Whether any open frame carries a quote prefix.
pub open spec fn frame_quote(f: FrameS) -> bool {
    exists|j: int| 0 <= j < f.prefix.len() && crate::text::has_ch((#[trigger] f.prefix[j]).text, '>')
}

pub open spec fn quote_active(frames: Seq<FrameS>) -> bool {
    exists|i: int| 0 <= i < frames.len() && frame_quote(#[trigger] frames[i])
}

/// Flushes the line under assembly: wrapped at the configured width unless it
/// belongs to a code block or is a pre-rendered table border, in which case
/// it is emitted verbatim behind its first-line indent.
pub open spec fn w_flush(st: WState) -> WState {
    match st.cur_line {
        None => st,
        Some(line) => {
            let no_wrap = st.cur_in_code || box_line_spec(line_text(line)) || st.wrap_width is None;
            let new_out = if no_wrap {
                st.out.push(LineS { spans: st.cur_init + line.spans, style: st.cur_style })
            } else {
                st.out + wrap_line_spec(
                    line.spans,
                    st.cur_style,
                    st.wrap_width->0 as nat,
                    st.cur_init,
                    st.cur_sub,
                )
            };
            WState {
                out: new_out,
                cur_line: None,
                cur_init: Seq::empty(),
                cur_sub: Seq::empty(),
                cur_in_code: false,
                ..st
            }
        },
    }
}

/// Starts assembling a new line: the previous one is flushed, the base style
/// is forced to the quote style while a quote is open, and the indents are
/// fixed now, consuming a pending marker.
pub open spec fn w_push_line(st: WState, line: LineS) -> WState {
    let st1 = w_flush(st);
    let style = if quote_active(st1.frames) {
        md_styles().blockquote
    } else {
        line.style
    };
    WState {
        cur_init: w_prefix(st1, st1.pending_marker),
        cur_sub: w_prefix(st1, false),
        cur_style: style,
        cur_line: Some(line),
        cur_in_code: st1.in_code,
        pending_marker: false,
        ..st1
    }
}

/// An empty line model.
pub open spec fn empty_line() -> LineS {
    LineS { spans: Seq::empty(), style: TextStyle::plain() }
}

/// Appends a span to the line under assembly, starting one when none is.
pub open spec fn w_push_span(st: WState, sp: SpanS) -> WState {
    match st.cur_line {
        Some(l) => WState {
            cur_line: Some(LineS { spans: l.spans.push(sp), style: l.style }),
            ..st
        },
        None => w_push_line(st, LineS { spans: seq![sp], style: TextStyle::plain() }),
    }
}

/// Emits a blank separator line: unprefixed between list items, prefixed
/// inside any other open block.
pub open spec fn w_push_blank(st: WState) -> WState {
    let st1 = w_flush(st);
    if forall|i: int| 0 <= i < st1.frames.len() ==> (#[trigger] st1.frames[i]).is_list {
        WState { out: st1.out.push(empty_line()), ..st1 }
    } else {
        w_flush(w_push_line(st1, empty_line()))
    }
}

// ---------- block handlers ----------

pub open spec fn w_start_paragraph(st: WState) -> WState {
    let st1 = if st.needs_newline {
        w_push_blank(st)
    } else {
        st
    };
    let st2 = w_push_line(st1, empty_line());
    WState { needs_newline: false, ..st2 }
}

pub open spec fn w_end_paragraph(st: WState) -> WState {
    WState { needs_newline: true, pending_marker: false, ..st }
}

/// The emphasis style of a heading level.
pub open spec fn heading_sty(level: u8) -> TextStyle {
    if level == 1 {
        md_styles().h1
    } else if level == 2 {
        md_styles().h2
    } else if level == 3 {
        md_styles().h3
    } else if level == 4 {
        md_styles().h4
    } else if level == 5 {
        md_styles().h5
    } else {
        md_styles().h6
    }
}

pub open spec fn w_push_inline(st: WState, style: TextStyle) -> WState {
    let current = if st.inline_styles.len() > 0 {
        st.inline_styles.last()
    } else {
        TextStyle::plain()
    };
    WState { inline_styles: st.inline_styles.push(current.patch(style)), ..st }
}

pub open spec fn w_pop_inline(st: WState) -> WState {
    WState {
        inline_styles: if st.inline_styles.len() > 0 {
            st.inline_styles.drop_last()
        } else {
            st.inline_styles
        },
        ..st
    }
}

pub open spec fn w_start_heading(st: WState, level: u8) -> WState {
    let st1 = if st.needs_newline {
        WState { needs_newline: false, ..w_push_line(st, empty_line()) }
    } else {
        st
    };
    let hstyle = heading_sty(level);
    let content = repeat_char('#', level as nat).push(' ');
    let st2 = w_push_line(st1, LineS { spans: seq![SpanS { text: content, style: hstyle }], style: TextStyle::plain() });
    let st3 = w_push_inline(st2, hstyle);
    WState { needs_newline: false, ..st3 }
}

pub open spec fn w_end_heading(st: WState) -> WState {
    w_pop_inline(WState { needs_newline: true, ..st })
}

pub open spec fn w_start_blockquote(st: WState) -> WState {
    let st1 = if st.needs_newline {
        WState { needs_newline: false, ..w_push_blank(st) }
    } else {
        st
    };
    WState {
        frames: st1.frames.push(
            FrameS {
                prefix: seq![SpanS { text: "> "@, style: TextStyle::plain() }],
                marker: None,
                is_list: false,
            },
        ),
        ..st1
    }
}

pub open spec fn w_end_blockquote(st: WState) -> WState {
    WState {
        frames: if st.frames.len() > 0 {
            st.frames.drop_last()
        } else {
            st.frames
        },
        needs_newline: true,
        ..st
    }
}

pub open spec fn w_start_list(st: WState, start: Option<u64>) -> WState {
    let st1 = if st.list_indices.len() == 0 && st.needs_newline {
        w_push_line(st, empty_line())
    } else {
        st
    };
    WState { list_indices: st1.list_indices.push(start), ..st1 }
}

pub open spec fn w_end_list(st: WState) -> WState {
    WState {
        list_indices: if st.list_indices.len() > 0 {
            st.list_indices.drop_last()
        } else {
            st.list_indices
        },
        needs_newline: true,
        ..st
    }
}

/// The fixed marker column width of a list at `depth`, saturating rather
/// than overflowing.
pub open spec fn item_width(depth: nat) -> nat {
    if depth == 0 {
        0
    } else if depth > (usize::MAX as nat) / 4 {
        (usize::MAX - 3) as nat
    } else {
        (depth * 4 - 3) as nat
    }
}

/// The next ordinal of a counter, wrapping at the numeric limit.
pub open spec fn next_index(i: u64) -> u64 {
    if i == u64::MAX {
        0
    } else {
        (i + 1) as u64
    }
}

pub open spec fn w_start_item(st: WState) -> WState {
    let depth = st.list_indices.len();
    let is_ordered = depth > 0 && st.list_indices.last() is Some;
    let width = item_width(depth as nat);
    let marker: Option<Seq<SpanS>> = if depth == 0 {
        None
    } else {
        match st.list_indices.last() {
            None => Some(
                seq![
                    SpanS {
                        text: repeat_char(' ', (width - 1) as nat) + "- "@,
                        style: md_styles().unordered_list_marker,
                    },
                ],
            ),
            Some(idx) => Some(
                seq![
                    SpanS {
                        text: pad_left(dec_str(idx as nat), width) + ". "@,
                        style: md_styles().ordered_list_marker,
                    },
                ],
            ),
        }
    };
    let new_indices = if depth == 0 {
        st.list_indices
    } else {
        match st.list_indices.last() {
            None => st.list_indices,
            Some(idx) => st.list_indices.drop_last().push(Some(next_index(idx))),
        }
    };
    let indent_prefix: Seq<SpanS> = if depth == 0 {
        Seq::empty()
    } else {
        seq![
            SpanS {
                text: repeat_char(
                    ' ',
                    if is_ordered {
                        (width + 2) as nat
                    } else {
                        (width + 1) as nat
                    },
                ),
                style: TextStyle::plain(),
            },
        ]
    };
    WState {
        pending_marker: true,
        list_indices: new_indices,
        frames: st.frames.push(FrameS { prefix: indent_prefix, marker, is_list: true }),
        needs_newline: false,
        ..st
    }
}

/// Digits padded with spaces on the left to at least `width` columns.
pub open spec fn pad_left(digits: Seq<char>, width: nat) -> Seq<char> {
    if digits.len() >= width {
        digits
    } else {
        repeat_char(' ', (width - digits.len()) as nat) + digits
    }
}

pub open spec fn w_start_codeblock(st: WState, info: Option<Seq<char>>) -> WState {
    let st1 = w_flush(st);
    let st2 = if st1.out.len() > 0 {
        w_push_blank(st1)
    } else {
        st1
    };
    let lang: Option<HighlightLanguage> = match info {
        Some(i) => crate::language::fence_lang(i),
        None => None,
    };
    let indent_text: Seq<char> = match info {
        Some(_) => Seq::empty(),
        None => "    "@,
    };
    WState {
        in_code: true,
        buffered: match lang {
            Some(l) => Some(BufS { lang: l, lines: Seq::empty() }),
            None => None,
        },
        frames: st2.frames.push(
            FrameS {
                prefix: seq![SpanS { text: indent_text, style: TextStyle::plain() }],
                marker: None,
                is_list: false,
            },
        ),
        needs_newline: true,
        ..st2
    }
}

/// Pushes the highlighted lines of a finished buffered code block.
pub open spec fn w_emit_highlight(st: WState, lines: Seq<LineS>) -> WState
    decreases lines.len(),
{
    if lines.len() == 0 {
        st
    } else {
        w_emit_highlight(w_push_line(st, lines[0]), lines.drop_first())
    }
}

/// The state entering the highlight emission: the buffer already taken.
pub open spec fn w_end_codeblock_pre(st: WState) -> WState {
    WState { buffered: None, ..st }
}

pub open spec fn w_end_codeblock(st: WState) -> WState {
    let st1 = match st.buffered {
        Some(buf) => {
            let source = join_nl(buf.lines);
            WState {
                buffered: None,
                ..w_emit_highlight(
                    WState { buffered: None, ..st },
                    highlight_spec(buf.lang, source),
                )
            }
        },
        None => st,
    };
    WState {
        needs_newline: true,
        in_code: false,
        frames: if st1.frames.len() > 0 {
            st1.frames.drop_last()
        } else {
            st1.frames
        },
        ..st1
    }
}

pub open spec fn w_start_table(st: WState, aligns: Seq<MdAlign>) -> WState {
    if !st.tables {
        st
    } else {
        let st1 = if st.needs_newline {
            w_push_blank(st)
        } else {
            st
        };
        let st2 = w_flush(st1);
        WState { table: Some(table_new(aligns)), needs_newline: false, ..st2 }
    }
}

// ---------- inline handlers ----------

/// The innermost inline style, or none.
pub open spec fn top_style(st: WState) -> TextStyle {
    if st.inline_styles.len() > 0 {
        st.inline_styles.last()
    } else {
        TextStyle::plain()
    }
}

/// Emits the lines of one text or HTML event.
pub open spec fn w_emit_text_lines(
    st: WState,
    lines: Seq<Seq<char>>,
    first: bool,
    style: TextStyle,
) -> WState
    decreases lines.len(),
{
    if lines.len() == 0 {
        st
    } else {
        let st1 = if st.needs_newline {
            WState { needs_newline: false, ..w_push_line(st, empty_line()) }
        } else {
            st
        };
        let st2 = if !first {
            w_push_line(st1, empty_line())
        } else {
            st1
        };
        let st3 = w_push_span(st2, SpanS { text: lines[0], style });
        w_emit_text_lines(st3, lines.drop_first(), false, style)
    }
}

/// Whether the line under assembly (or, failing that, the last emitted line)
/// has any content.
pub open spec fn has_content(st: WState) -> bool {
    match st.cur_line {
        Some(l) => l.spans.len() > 0,
        None => st.out.len() > 0 && st.out.last().spans.len() > 0,
    }
}

pub open spec fn w_text(st: WState, t: Seq<char>) -> WState {
    match st.buffered {
        Some(buf) => WState {
            buffered: Some(BufS { lang: buf.lang, lines: buf.lines + text_lines(t) }),
            needs_newline: false,
            pending_marker: false,
            ..st
        },
        None => {
            let st1 = if st.pending_marker {
                w_push_line(st, empty_line())
            } else {
                st
            };
            let st2 = WState { pending_marker: false, ..st1 };
            let st3 = if st2.in_code && !st2.needs_newline && has_content(st2) {
                w_push_line(st2, empty_line())
            } else {
                st2
            };
            let st4 = w_emit_text_lines(st3, text_lines(t), true, top_style(st3));
            WState { needs_newline: false, ..st4 }
        },
    }
}

pub open spec fn w_code(st: WState, c: Seq<char>) -> WState {
    let st1 = if st.pending_marker {
        WState { pending_marker: false, ..w_push_line(st, empty_line()) }
    } else {
        st
    };
    w_push_span(st1, SpanS { text: c, style: md_styles().code })
}

pub open spec fn w_html(st: WState, h: Seq<char>, inline: bool) -> WState {
    let st1 = WState { pending_marker: false, ..st };
    let st2 = w_emit_text_lines(st1, text_lines(h), true, top_style(st1));
    WState { needs_newline: !inline, ..st2 }
}

pub open spec fn w_break(st: WState) -> WState {
    match st.buffered {
        Some(buf) => WState {
            buffered: Some(BufS { lang: buf.lang, lines: buf.lines.push(Seq::empty()) }),
            ..st
        },
        None => w_push_line(st, empty_line()),
    }
}

pub open spec fn w_rule(st: WState) -> WState {
    let st1 = w_flush(st);
    let st2 = if st1.out.len() > 0 {
        w_push_blank(st1)
    } else {
        st1
    };
    let st3 = w_push_line(
        st2,
        LineS {
            spans: seq![SpanS { text: seq!['\u{2014}', '\u{2014}', '\u{2014}'], style: TextStyle::plain() }],
            style: TextStyle::plain(),
        },
    );
    WState { needs_newline: true, ..st3 }
}

pub open spec fn w_push_link(st: WState, url: Seq<char>) -> WState {
    WState { link: Some(url), ..st }
}

pub open spec fn w_pop_link(st: WState) -> WState {
    match st.link {
        None => st,
        Some(url) => {
            let st1 = WState { link: None, ..st };
            let st2 = w_push_span(st1, SpanS { text: " ("@, style: TextStyle::plain() });
            let st3 = w_push_span(st2, SpanS { text: url, style: md_styles().link });
            w_push_span(st3, SpanS { text: ")"@, style: TextStyle::plain() })
        },
    }
}

// ---------- the table path ----------

/// The completed table rendered through the layout engine and emitted line by
/// line, exempt from wrapping.
pub open spec fn w_render_table(st: WState, t: TableS) -> WState {
    if t.rows.len() == 0 {
        st
    } else {
        let column_count = max_cols(t);
        if column_count == 0 {
            st
        } else {
            let padded = pad_rows(t.rows, column_count);
            let header: Option<Seq<Seq<char>>> = if t.header_rows > 0 {
                Some(padded[0])
            } else {
                None
            };
            let body = if t.header_rows > 0 {
                padded.drop_first()
            } else {
                padded
            };
            let pw = sat_cols(crate::line::spans_text(w_prefix(st, st.pending_marker)));
            let avail_raw: nat = if pw > st.table_budget {
                0
            } else {
                (st.table_budget - pw) as nat
            };
            let avail: nat = if avail_raw < 10 {
                10
            } else {
                avail_raw
            };
            let width: u16 = if avail > 65535 {
                65535u16
            } else {
                avail as u16
            };
            let rendered = table_layout(header, body, t.alignments, width);
            let st1 = w_emit_table_lines(st, crate::text::text_lines(rendered));
            w_flush(st1)
        }
    }
}

pub open spec fn w_emit_table_lines(st: WState, lines: Seq<Seq<char>>) -> WState
    decreases lines.len(),
{
    if lines.len() == 0 {
        st
    } else {
        w_emit_table_lines(
            w_push_line(
                st,
                LineS {
                    spans: seq![SpanS { text: lines[0], style: TextStyle::plain() }],
                    style: TextStyle::plain(),
                },
            ),
            lines.drop_first(),
        )
    }
}

/// The column count of a table: the alignment count or the longest row.
pub open spec fn max_cols(t: TableS) -> nat {
    max_cols_rec(t.rows, t.alignments.len())
}

pub open spec fn max_cols_rec(rows: Seq<Seq<Seq<char>>>, acc: nat) -> nat
    decreases rows.len(),
{
    if rows.len() == 0 {
        acc
    } else {
        max_cols_rec(rows.drop_first(), if rows[0].len() > acc {
            rows[0].len()
        } else {
            acc
        })
    }
}

/// Rows padded with empty cells to the column count.
pub open spec fn pad_rows(rows: Seq<Seq<Seq<char>>>, cols: nat) -> Seq<Seq<Seq<char>>>
    decreases rows.len(),
{
    if rows.len() == 0 {
        rows
    } else {
        pad_rows(rows.drop_last(), cols).push(pad_row(rows.last(), cols))
    }
}

pub open spec fn pad_row(row: Seq<Seq<char>>, cols: nat) -> Seq<Seq<char>>
    decreases cols - row.len(),
{
    if row.len() >= cols {
        row
    } else {
        pad_row(row.push(Seq::empty()), cols)
    }
}

pub open spec fn w_finish_table(st: WState, t: TableS) -> WState {
    let st1 = w_render_table(WState { table: None, ..st }, t);
    WState { needs_newline: true, ..st1 }
}

/// One event while a table is open: table-section events and inline content
/// feed the accumulator; everything else is ignored.
pub open spec fn w_table_event(st: WState, t: TableS, e: &MdEvent) -> WState {
    match e {
        MdEvent::Start(MdTag::TableHead) => WState {
            table: Some(TableS { in_head: true, ..t }),
            ..st
        },
        MdEvent::End(MdTagEnd::TableHead) => {
            let t1 = if t.row_open {
                table_end_row(t)
            } else {
                t
            };
            WState { table: Some(TableS { in_head: false, ..t1 }), ..st }
        },
        MdEvent::Start(MdTag::TableRow) => WState { table: Some(table_start_row(t)), ..st },
        MdEvent::End(MdTagEnd::TableRow) => WState { table: Some(table_end_row(t)), ..st },
        MdEvent::Start(MdTag::TableCell) => {
            let t1 = if !t.row_open {
                table_start_row(t)
            } else {
                t
            };
            WState { table: Some(table_start_cell(t1)), ..st }
        },
        MdEvent::End(MdTagEnd::TableCell) => WState { table: Some(table_end_cell(t)), ..st },
        MdEvent::End(MdTagEnd::Table) => {
            let t1 = if t.row_open {
                table_end_row(t)
            } else {
                t
            };
            w_finish_table(WState { table: Some(t1), ..st }, t1)
        },
        MdEvent::Text(txt) => WState { table: Some(table_push_text(t, txt@)), ..st },
        MdEvent::Code(txt) => WState { table: Some(table_push_text(t, txt@)), ..st },
        MdEvent::SoftBreak => WState { table: Some(table_push_space(t)), ..st },
        MdEvent::HardBreak => WState { table: Some(table_push_space(t)), ..st },
        _ => st,
    }
}

// ---------- dispatch ----------

pub open spec fn w_start_tag(st: WState, tag: &MdTag) -> WState {
    match tag {
        MdTag::Paragraph => w_start_paragraph(st),
        MdTag::Heading(level) => w_start_heading(st, *level),
        MdTag::BlockQuote => w_start_blockquote(st),
        MdTag::CodeBlock(info) => w_start_codeblock(
            st,
            match info {
                Some(i) => Some(i@),
                None => None,
            },
        ),
        MdTag::List(start) => w_start_list(st, *start),
        MdTag::Item => w_start_item(st),
        MdTag::Emphasis => w_push_inline(st, md_styles().emphasis),
        MdTag::Strong => w_push_inline(st, md_styles().strong),
        MdTag::Strikethrough => w_push_inline(st, md_styles().strikethrough),
        MdTag::Link(url) => w_push_link(st, url@),
        MdTag::Table(aligns) => w_start_table(st, aligns@),
        MdTag::TableHead => st,
        MdTag::TableRow => st,
        MdTag::TableCell => st,
    }
}

pub open spec fn w_end_tag(st: WState, te: MdTagEnd) -> WState {
    match te {
        MdTagEnd::Paragraph => w_end_paragraph(st),
        MdTagEnd::Heading => w_end_heading(st),
        MdTagEnd::BlockQuote => w_end_blockquote(st),
        MdTagEnd::CodeBlock => w_end_codeblock(st),
        MdTagEnd::List => w_end_list(st),
        MdTagEnd::Item => WState {
            frames: if st.frames.len() > 0 {
                st.frames.drop_last()
            } else {
                st.frames
            },
            pending_marker: false,
            ..st
        },
        MdTagEnd::Emphasis => w_pop_inline(st),
        MdTagEnd::Strong => w_pop_inline(st),
        MdTagEnd::Strikethrough => w_pop_inline(st),
        MdTagEnd::Link => w_pop_link(st),
        MdTagEnd::Table => st,
        MdTagEnd::TableHead => st,
        MdTagEnd::TableRow => st,
        MdTagEnd::TableCell => st,
    }
}

/// One event applied to the reducer state.
pub open spec fn w_step(st: WState, e: &MdEvent) -> WState {
    match st.table {
        Some(t) => w_table_event(st, t, e),
        None => match e {
            MdEvent::Start(tag) => w_start_tag(st, tag),
            MdEvent::End(te) => w_end_tag(st, *te),
            MdEvent::Text(t) => w_text(st, t@),
            MdEvent::Code(c) => w_code(st, c@),
            MdEvent::Html(h) => w_html(st, h@, false),
            MdEvent::InlineHtml(h) => w_html(st, h@, true),
            MdEvent::SoftBreak => w_break(st),
            MdEvent::HardBreak => w_break(st),
            MdEvent::Rule => w_rule(st),
            MdEvent::Other => st,
        },
    }
}

/// The whole event stream folded over the state.
pub open spec fn w_fold(st: WState, evs: Seq<MdEvent>) -> WState
    decreases evs.len(),
{
    if evs.len() == 0 {
        st
    } else {
        w_fold(w_step(st, &evs[0]), evs.drop_first())
    }
}

/// The output of a full run: the fold's output after a final flush.
pub open spec fn w_run_spec(st: WState, evs: Seq<MdEvent>) -> Seq<LineS> {
    w_flush(w_fold(st, evs)).out
}

// ---------- helper lemmas for frame indices ----------

pub proof fn lemma_lm_found(frames: Seq<FrameS>, i: int)
    requires
        0 <= i < frames.len(),
        frames[i].marker is Some,
        forall|k: int| i < k < frames.len() ==> (#[trigger] frames[k]).marker is None,
    ensures
        lm_idx(frames) == i,
    decreases frames.len() - i,
{
    if i == frames.len() - 1 {
    } else {
        lemma_lm_found(frames.drop_last(), i);
    }
}

pub proof fn lemma_lm_none(frames: Seq<FrameS>)
    requires
        forall|k: int| 0 <= k < frames.len() ==> (#[trigger] frames[k]).marker is None,
    ensures
        lm_idx(frames) == -1,
    decreases frames.len(),
{
    if frames.len() > 0 {
        lemma_lm_none(frames.drop_last());
    }
}

pub proof fn lemma_ll_found(frames: Seq<FrameS>, i: int)
    requires
        0 <= i < frames.len(),
        frames[i].is_list,
        forall|k: int| i < k < frames.len() ==> !(#[trigger] frames[k]).is_list,
    ensures
        ll_idx(frames) == i,
    decreases frames.len() - i,
{
    if i == frames.len() - 1 {
    } else {
        lemma_ll_found(frames.drop_last(), i);
    }
}

pub proof fn lemma_ll_none(frames: Seq<FrameS>)
    requires
        forall|k: int| 0 <= k < frames.len() ==> !(#[trigger] frames[k]).is_list,
    ensures
        ll_idx(frames) == -1,
    decreases frames.len(),
{
    if frames.len() > 0 {
        lemma_ll_none(frames.drop_last());
    }
}

// ---------- execution ----------

/// Appends copies of `src`'s spans to `dst`.
fn append_spans(dst: &mut Vec<RSpan>, src: &Vec<RSpan>)
    ensures
        views_of(final(dst)@) == views_of(old(dst)@) + views_of(src@),
{
    let mut c = clone_spans(src);
    let ghost dv = dst@;
    let ghost cv = c@;
    dst.append(&mut c);
    proof {
        crate::line::lemma_views_of_concat(dv, cv);
    }
}

impl Writer {
    /// A fresh reducer for the given wrap width, table width budget, and
    /// table flag.
    pub fn new(wrap_width: Option<usize>, table_budget: usize, tables_enabled: bool) -> (r: Writer)
        ensures
            r@ == w_init(wrap_width, table_budget, tables_enabled),
    {
        let r = Writer {
            inline_styles: Vec::new(),
            indent_stack: Vec::new(),
            list_indices: Vec::new(),
            link: None,
            needs_newline: false,
            pending_marker_line: false,
            in_code_block: false,
            wrap_width,
            table_budget,
            tables_enabled,
            table_state: None,
            cur_line: None,
            cur_init: Vec::new(),
            cur_sub: Vec::new(),
            cur_style: TextStyle::plain(),
            cur_in_code: false,
            buffered: None,
            out: Vec::new(),
        };
        proof {
            assert(r@ =~= w_init(wrap_width, table_budget, tables_enabled));
        }
        r
    }

    /// The line prefix of the open frames.
    fn prefix_spans(&self, pending: bool) -> (r: Vec<RSpan>)
        ensures
            views_of(r@) == w_prefix(self@, pending),
    {
        let n = self.indent_stack.len();
        let ghost fv = views_of(self.indent_stack@);
        // The innermost marker index, when a marker-pending line asks for it.
        let mut lm_opt: Option<usize> = None;
        if pending {
            let mut k: usize = n;
            while k > 0 && lm_opt.is_none()
                invariant
                    k <= n,
                    n == self.indent_stack@.len(),
                    fv == views_of(self.indent_stack@),
                    match lm_opt {
                        Some(i) => i < n && lm_idx(fv) == i,
                        None => forall|j: int| k <= j < n ==> (#[trigger] fv[j]).marker is None,
                    },
                decreases k,
            {
                k -= 1;
                if self.indent_stack[k].marker.is_some() {
                    proof {
                        assert(fv[k as int].marker is Some);
                        lemma_lm_found(fv, k as int);
                    }
                    lm_opt = Some(k);
                } else {
                    proof {
                        assert(fv[k as int].marker is None);
                    }
                }
            }
            proof {
                if lm_opt is None {
                    lemma_lm_none(fv);
                }
            }
        }
        // The innermost list index.
        let mut ll_opt: Option<usize> = None;
        let mut k2: usize = n;
        while k2 > 0 && ll_opt.is_none()
            invariant
                k2 <= n,
                n == self.indent_stack@.len(),
                fv == views_of(self.indent_stack@),
                match ll_opt {
                    Some(i) => i < n && ll_idx(fv) == i,
                    None => forall|j: int| k2 <= j < n ==> !(#[trigger] fv[j]).is_list,
                },
            decreases k2,
        {
            k2 -= 1;
            if self.indent_stack[k2].is_list {
                proof {
                    assert(fv[k2 as int].is_list);
                    lemma_ll_found(fv, k2 as int);
                }
                ll_opt = Some(k2);
            } else {
                proof {
                    assert(!fv[k2 as int].is_list);
                }
            }
        }
        proof {
            if ll_opt is None {
                lemma_ll_none(fv);
            }
        }
        let ghost lmi: int = if pending {
            lm_idx(fv)
        } else {
            -1
        };
        let ghost lli: int = ll_idx(fv);
        proof {
            if pending {
                match lm_opt {
                    Some(i) => assert(lmi == i),
                    None => assert(lmi == -1),
                }
            }
            match ll_opt {
                Some(i) => assert(lli == i),
                None => assert(lli == -1),
            }
        }
        let mut r: Vec<RSpan> = Vec::new();
        let mut i: usize = 0;
        proof {
            assert(views_of(r@) =~= prefix_rec(fv, 0, pending, lmi, lli));
        }
        while i < n
            invariant
                i <= n,
                n == self.indent_stack@.len(),
                fv == views_of(self.indent_stack@),
                pending ==> lmi == lm_idx(fv),
                !pending ==> lmi == -1,
                lmi == (if pending { lm_idx(fv) } else { -1int }),
                lli == ll_idx(fv),
                (match lm_opt {
                    Some(k) => pending ==> lmi == k,
                    None => pending ==> lmi == -1,
                }),
                (match ll_opt {
                    Some(k) => lli == k,
                    None => lli == -1,
                }),
                views_of(r@) == prefix_rec(fv, i as int, pending, lmi, lli),
            decreases n - i,
        {
            let ghost before = views_of(r@);
            let is_marker_frame = pending && (match lm_opt {
                Some(k) => k == i,
                None => false,
            }) && self.indent_stack[i].marker.is_some();
            let suppressed_list = pending && self.indent_stack[i].is_list && (match lm_opt {
                Some(k) => k > i,
                None => false,
            });
            if is_marker_frame {
                match &self.indent_stack[i].marker {
                    Some(m) => {
                        append_spans(&mut r, m);
                    },
                    None => {},
                }
            } else if pending && suppressed_list {
                // suppressed outer list indent before the marker
            } else if !pending && self.indent_stack[i].is_list && !(match ll_opt {
                Some(k) => k == i,
                None => false,
            }) {
                // only the innermost list indent is kept
            } else {
                append_spans(&mut r, &self.indent_stack[i].prefix);
            }
            proof {
                let piece = frame_piece(fv[i as int], i as int, pending, lmi, lli);
                assert(views_of(r@) =~= before + piece);
            }
            i += 1;
        }
        r
    }

    /// Whether any open frame carries a quote prefix.
    fn quote_active_exec(&self) -> (r: bool)
        ensures
            r == quote_active(views_of(self.indent_stack@)),
    {
        let ghost fv = views_of(self.indent_stack@);
        let mut i: usize = 0;
        while i < self.indent_stack.len()
            invariant
                i <= self.indent_stack@.len(),
                fv == views_of(self.indent_stack@),
                forall|k: int| 0 <= k < i ==> !frame_quote(#[trigger] fv[k]),
            decreases self.indent_stack@.len() - i,
        {
            let f = &self.indent_stack[i];
            let mut j: usize = 0;
            while j < f.prefix.len()
                invariant
                    i < self.indent_stack@.len(),
                    j <= f.prefix@.len(),
                    fv == views_of(self.indent_stack@),
                    f == &self.indent_stack[i as int],
                    forall|k: int|
                        0 <= k < j ==> !crate::text::has_ch(
                            (#[trigger] views_of(f.prefix@)[k]).text,
                            '>',
                        ),
                decreases f.prefix@.len() - j,
            {
                if crate::highlight::contains_ch(&f.prefix[j].text, '>') {
                    proof {
                        assert(crate::text::has_ch(views_of(f.prefix@)[j as int].text, '>'));
                        assert(frame_quote(fv[i as int]));
                    }
                    return true;
                }
                j += 1;
            }
            proof {
                assert(!frame_quote(fv[i as int]));
            }
            i += 1;
        }
        false
    }

    /// Flushes the line under assembly.
    pub fn flush_current_line(&mut self)
        ensures
            final(self)@ == w_flush(old(self)@),
    {
        let mut cl: Option<RLine> = None;
        core::mem::swap(&mut cl, &mut self.cur_line);
        match cl {
            None => {
                proof {
                    assert(self@ =~= w_flush(old(self)@));
                }
            },
            Some(line) => {
                let ghost lv = line@;
                let lt = crate::line::rline_text(&line);
                let is_box = crate::normalize::box_line_chars(&lt);
                let no_wrap = self.cur_in_code || is_box || self.wrap_width.is_none();
                if no_wrap {
                    let mut init: Vec<RSpan> = Vec::new();
                    core::mem::swap(&mut init, &mut self.cur_init);
                    let spans = crate::wrap::concat_spans(init, &line.spans);
                    let newl = RLine { spans, style: self.cur_style };
                    proof {
                        lemma_views_of_push(self.out@, newl);
                    }
                    self.out.push(newl);
                    self.cur_sub = Vec::new();
                    self.cur_in_code = false;
                    proof {
                        assert(views_of(self.cur_sub@) =~= Seq::<SpanS>::empty());
                        assert(self@ =~= w_flush(old(self)@));
                    }
                } else {
                    let w = match self.wrap_width {
                        Some(w) => w,
                        None => 0,
                    };
                    let mut wrapped = wrap_line(
                        &line.spans,
                        self.cur_style,
                        w,
                        &self.cur_init,
                        &self.cur_sub,
                    );
                    let ghost ov = self.out@;
                    let ghost wv = wrapped@;
                    self.out.append(&mut wrapped);
                    proof {
                        crate::line::lemma_views_of_concat(ov, wv);
                    }
                    self.cur_init = Vec::new();
                    self.cur_sub = Vec::new();
                    self.cur_in_code = false;
                    proof {
                        assert(views_of(self.cur_init@) =~= Seq::<SpanS>::empty());
                        assert(views_of(self.cur_sub@) =~= Seq::<SpanS>::empty());
                        assert(self@ =~= w_flush(old(self)@));
                    }
                }
            },
        }
    }

    /// Starts assembling a new line.
    pub fn push_line(&mut self, line: RLine)
        ensures
            final(self)@ == w_push_line(old(self)@, line@),
    {
        let ghost lv = line@;
        self.flush_current_line();
        let qa = self.quote_active_exec();
        let style = if qa {
            crate::style::TextStyle::plain().fg(crate::style::TermColor::Green)
        } else {
            line.style
        };
        proof {
            assert(style == if quote_active(views_of(self.indent_stack@)) {
                md_styles().blockquote
            } else {
                lv.style
            });
        }
        let was_pending = self.pending_marker_line;
        let p1 = self.prefix_spans(was_pending);
        let p2 = self.prefix_spans(false);
        self.cur_init = p1;
        self.cur_sub = p2;
        self.cur_style = style;
        self.cur_line = Some(line);
        self.cur_in_code = self.in_code_block;
        self.pending_marker_line = false;
        proof {
            assert(self@ =~= w_push_line(old(self)@, lv));
        }
    }

    /// Appends a span to the line under assembly.
    pub fn push_span(&mut self, span: RSpan)
        ensures
            final(self)@ == w_push_span(old(self)@, span@),
    {
        let ghost sv = span@;
        if self.cur_line.is_some() {
            match &mut self.cur_line {
                Some(l) => {
                    l.push_span(span);
                },
                None => {},
            }
            proof {
                assert(self@ =~= w_push_span(old(self)@, sv));
            }
        } else {
            let mut nl = RLine::new();
            nl.push_span(span);
            proof {
                assert(nl@ =~= (LineS { spans: seq![sv], style: TextStyle::plain() }));
            }
            self.push_line(nl);
            proof {
                assert(self@ =~= w_push_span(old(self)@, sv));
            }
        }
    }

    /// Emits a blank separator line.
    pub fn push_blank_line(&mut self)
        ensures
            final(self)@ == w_push_blank(old(self)@),
    {
        self.flush_current_line();
        let ghost fv = views_of(self.indent_stack@);
        let mut all_list = true;
        let mut i: usize = 0;
        while i < self.indent_stack.len()
            invariant
                i <= self.indent_stack@.len(),
                fv == views_of(self.indent_stack@),
                all_list == (forall|k: int| 0 <= k < i ==> (#[trigger] fv[k]).is_list),
            decreases self.indent_stack@.len() - i,
        {
            if !self.indent_stack[i].is_list {
                proof {
                    assert(!fv[i as int].is_list);
                }
                all_list = false;
            }
            i += 1;
        }
        if all_list {
            let nl = RLine::new();
            proof {
                lemma_views_of_push(self.out@, nl);
            }
            self.out.push(nl);
            proof {
                assert(self@ =~= w_push_blank(old(self)@));
            }
        } else {
            self.push_line(RLine::new());
            self.flush_current_line();
            proof {
                assert(self@ =~= w_push_blank(old(self)@));
            }
        }
    }
}

proof fn lemma_emit_highlight_buffered(st: WState, ls: Seq<LineS>)
    ensures
        w_emit_highlight(st, ls).buffered == st.buffered,
    decreases ls.len(),
{
    if ls.len() > 0 {
        lemma_emit_highlight_buffered(w_push_line(st, ls[0]), ls.drop_first());
    }
}

pub proof fn lemma_pad_rows(rows: Seq<Seq<Seq<char>>>, cols: nat)
    ensures
        pad_rows(rows, cols).len() == rows.len(),
        forall|i: int|
            0 <= i < rows.len() ==> pad_rows(rows, cols)[i] == pad_row(#[trigger] rows[i], cols),
    decreases rows.len(),
{
    if rows.len() > 0 {
        lemma_pad_rows(rows.drop_last(), cols);
        assert forall|i: int|
            0 <= i < rows.len() implies pad_rows(rows, cols)[i] == pad_row(
            #[trigger] rows[i],
            cols,
        ) by {
            if i < rows.len() - 1 {
                assert(pad_rows(rows, cols)[i] == pad_rows(rows.drop_last(), cols)[i]);
                assert(rows.drop_last()[i] == rows[i]);
            } else {
                assert(pad_rows(rows, cols)[i] == pad_row(rows.last(), cols));
            }
        }
    }
}

impl Writer {
    fn top_style_exec(&self) -> (r: TextStyle)
        ensures
            r == top_style(self@),
    {
        let n = self.inline_styles.len();
        if n > 0 {
            proof {
                assert(self.inline_styles@.last() == self.inline_styles@[n - 1]);
            }
            self.inline_styles[n - 1]
        } else {
            TextStyle::plain()
        }
    }

    fn has_content_exec(&self) -> (r: bool)
        ensures
            r == has_content(self@),
    {
        match &self.cur_line {
            Some(l) => l.spans.len() > 0,
            None => {
                let m = self.out.len();
                if m > 0 {
                    proof {
                        assert(views_of(self.out@).last() == self.out@[m - 1]@);
                    }
                    self.out[m - 1].spans.len() > 0
                } else {
                    false
                }
            },
        }
    }

    pub fn start_paragraph(&mut self)
        ensures
            final(self)@ == w_start_paragraph(old(self)@),
    {
        if self.needs_newline {
            self.push_blank_line();
        }
        self.push_line(RLine::new());
        self.needs_newline = false;
        proof {
            assert(self@ =~= w_start_paragraph(old(self)@));
        }
    }

    pub fn end_paragraph(&mut self)
        ensures
            final(self)@ == w_end_paragraph(old(self)@),
    {
        self.needs_newline = true;
        self.pending_marker_line = false;
        proof {
            assert(self@ =~= w_end_paragraph(old(self)@));
        }
    }

    fn heading_style_exec(level: u8) -> (r: TextStyle)
        ensures
            r == heading_sty(level),
    {
        if level == 1 {
            TextStyle::plain().bold().underlined()
        } else if level == 2 {
            TextStyle::plain().bold()
        } else if level == 3 {
            TextStyle::plain().bold().italic()
        } else if level == 4 {
            TextStyle::plain().italic()
        } else if level == 5 {
            TextStyle::plain().italic()
        } else {
            TextStyle::plain().italic()
        }
    }

    pub fn push_inline_style(&mut self, style: TextStyle)
        ensures
            final(self)@ == w_push_inline(old(self)@, style),
    {
        let current = self.top_style_exec();
        self.inline_styles.push(current.patch(style));
        proof {
            assert(self@ =~= w_push_inline(old(self)@, style));
        }
    }

    pub fn pop_inline_style(&mut self)
        ensures
            final(self)@ == w_pop_inline(old(self)@),
    {
        if self.inline_styles.len() > 0 {
            self.inline_styles.pop();
            proof {
                assert(self.inline_styles@ =~= old(self).inline_styles@.drop_last());
            }
        }
        proof {
            assert(self@ =~= w_pop_inline(old(self)@));
        }
    }

    pub fn start_heading(&mut self, level: u8)
        ensures
            final(self)@ == w_start_heading(old(self)@, level),
    {
        if self.needs_newline {
            self.push_line(RLine::new());
            self.needs_newline = false;
        }
        let hstyle = Self::heading_style_exec(level);
        let mut content = repeat_char_exec('#', level as usize);
        content.push(' ');
        proof {
            assert(content@ =~= repeat_char('#', level as nat).push(' '));
        }
        let mut line = RLine::new();
        line.push_span(RSpan::new(content, hstyle));
        proof {
            assert(line@ =~= (LineS {
                spans: seq![SpanS { text: repeat_char('#', level as nat).push(' '), style: heading_sty(level) }],
                style: TextStyle::plain(),
            }));
        }
        self.push_line(line);
        self.push_inline_style(hstyle);
        self.needs_newline = false;
        proof {
            assert(self@ =~= w_start_heading(old(self)@, level));
        }
    }

    pub fn end_heading(&mut self)
        ensures
            final(self)@ == w_end_heading(old(self)@),
    {
        self.needs_newline = true;
        self.pop_inline_style();
        proof {
            assert(self@ =~= w_end_heading(old(self)@));
        }
    }

    pub fn start_blockquote(&mut self)
        ensures
            final(self)@ == w_start_blockquote(old(self)@),
    {
        if self.needs_newline {
            self.push_blank_line();
            self.needs_newline = false;
        }
        let quote = str_chars("> ");
        let mut pv: Vec<RSpan> = Vec::new();
        pv.push(RSpan::plain(quote));
        let frame = IndentFrame { prefix: pv, marker: None, is_list: false };
        proof {
            assert(frame@ =~= (FrameS {
                prefix: seq![SpanS { text: "> "@, style: TextStyle::plain() }],
                marker: None,
                is_list: false,
            }));
            lemma_views_of_push(self.indent_stack@, frame);
        }
        self.indent_stack.push(frame);
        proof {
            assert(self@ =~= w_start_blockquote(old(self)@));
        }
    }

    pub fn end_blockquote(&mut self)
        ensures
            final(self)@ == w_end_blockquote(old(self)@),
    {
        if self.indent_stack.len() > 0 {
            self.indent_stack.pop();
            proof {
                assert(views_of(self.indent_stack@) =~= views_of(
                    old(self).indent_stack@).drop_last());
            }
        }
        self.needs_newline = true;
        proof {
            assert(self@ =~= w_end_blockquote(old(self)@));
        }
    }

    pub fn start_list(&mut self, start: Option<u64>)
        ensures
            final(self)@ == w_start_list(old(self)@, start),
    {
        if self.list_indices.len() == 0 && self.needs_newline {
            self.push_line(RLine::new());
        }
        self.list_indices.push(start);
        proof {
            assert(self@ =~= w_start_list(old(self)@, start));
        }
    }

    pub fn end_list(&mut self)
        ensures
            final(self)@ == w_end_list(old(self)@),
    {
        if self.list_indices.len() > 0 {
            self.list_indices.pop();
            proof {
                assert(self.list_indices@ =~= old(self).list_indices@.drop_last());
            }
        }
        self.needs_newline = true;
        proof {
            assert(self@ =~= w_end_list(old(self)@));
        }
    }

    pub fn start_item(&mut self)
        ensures
            final(self)@ == w_start_item(old(self)@),
    {
        self.pending_marker_line = true;
        let depth = self.list_indices.len();
        let is_ordered = if depth > 0 {
            proof {
                assert(self.list_indices@.last() == self.list_indices@[depth - 1]);
            }
            self.list_indices[depth - 1].is_some()
        } else {
            false
        };
        let width: usize = if depth == 0 {
            0
        } else if depth > usize::MAX / 4 {
            usize::MAX - 3
        } else {
            depth * 4 - 3
        };
        proof {
            assert(width as nat == item_width(depth as nat));
        }
        let mut marker: Option<Vec<RSpan>> = None;
        if depth > 0 {
            let last = self.list_indices.pop();
            match last {
                Some(inner) => match inner {
                    None => {
                        self.list_indices.push(None);
                        proof {
                            assert(self.list_indices@ =~= old(self).list_indices@);
                        }
                        let mut text = repeat_char_exec(' ', width - 1);
                        let dash = str_chars("- ");
                        crate::text::append_chars(&mut text, &dash);
                        let sp = RSpan::new(text, TextStyle::plain());
                        let mut mv: Vec<RSpan> = Vec::new();
                        mv.push(sp);
                        proof {
                            assert(views_of(mv@) =~= seq![
                                SpanS {
                                    text: repeat_char(' ', (width - 1) as nat) + "- "@,
                                    style: md_styles().unordered_list_marker,
                                },
                            ]);
                        }
                        marker = Some(mv);
                    },
                    Some(idx) => {
                        let nxt: u64 = if idx == u64::MAX {
                            0
                        } else {
                            idx + 1
                        };
                        self.list_indices.push(Some(nxt));
                        proof {
                            assert(self.list_indices@ =~= old(self).list_indices@.drop_last().push(
                                Some(next_index(idx))));
                        }
                        let digits = u64_chars(idx);
                        let mut text: Vec<char>;
                        if digits.len() >= width {
                            text = digits;
                        } else {
                            text = repeat_char_exec(' ', width - digits.len());
                            crate::text::append_chars(&mut text, &digits);
                        }
                        proof {
                            assert(text@ == pad_left(dec_str(idx as nat), width as nat));
                        }
                        let tail = str_chars(". ");
                        crate::text::append_chars(&mut text, &tail);
                        let sp = RSpan::new(
                            text,
                            TextStyle::plain().fg(crate::style::TermColor::LightBlue),
                        );
                        let mut mv: Vec<RSpan> = Vec::new();
                        mv.push(sp);
                        proof {
                            assert(views_of(mv@) =~= seq![
                                SpanS {
                                    text: pad_left(dec_str(idx as nat), width as nat) + ". "@,
                                    style: md_styles().ordered_list_marker,
                                },
                            ]);
                        }
                        marker = Some(mv);
                    },
                },
                None => {},
            }
        }
        let indent_prefix: Vec<RSpan> = if depth == 0 {
            Vec::new()
        } else {
            let ilen: usize = if is_ordered {
                width + 2
            } else {
                width + 1
            };
            let sp = RSpan::plain(repeat_char_exec(' ', ilen));
            let mut pv: Vec<RSpan> = Vec::new();
            pv.push(sp);
            pv
        };
        let frame = IndentFrame { prefix: indent_prefix, marker, is_list: true };
        let ghost target = w_start_item(old(self)@);
        proof {
            lemma_views_of_push(self.indent_stack@, frame);
            if depth == 0 {
                assert(frame@.prefix =~= Seq::<SpanS>::empty());
            }
            assert(frame@ =~= target.frames.last());
        }
        self.indent_stack.push(frame);
        self.needs_newline = false;
        proof {
            assert(views_of(self.indent_stack@) =~= target.frames);
            assert(self@ =~= target);
        }
    }

    pub fn start_codeblock(&mut self, info: Option<Vec<char>>)
        ensures
            final(self)@ == w_start_codeblock(
                old(self)@,
                match info {
                    Some(i) => Some(i@),
                    None => None,
                },
            ),
    {
        let ghost iv: Option<Seq<char>> = match &info {
            Some(i) => Some(i@),
            None => None,
        };
        self.flush_current_line();
        if self.out.len() > 0 {
            self.push_blank_line();
        }
        self.in_code_block = true;
        let lang: Option<HighlightLanguage> = match &info {
            Some(i) => {
                let istr = crate::text::chars_to_string(i);
                HighlightLanguage::from_fence_info(istr.as_str())
            },
            None => None,
        };
        self.buffered = match lang {
            Some(l) => Some(CodeBuf { lang: l, lines: Vec::new() }),
            None => None,
        };
        let indent_text: Vec<char> = match &info {
            Some(_) => Vec::new(),
            None => str_chars("    "),
        };
        proof {
            match iv {
                Some(_) => assert(indent_text@ =~= Seq::<char>::empty()),
                None => assert(indent_text@ == "    "@),
            }
        }
        let mut pv: Vec<RSpan> = Vec::new();
        pv.push(RSpan::plain(indent_text));
        let frame = IndentFrame { prefix: pv, marker: None, is_list: false };
        let ghost target = w_start_codeblock(old(self)@, iv);
        proof {
            lemma_views_of_push(self.indent_stack@, frame);
            match &self.buffered {
                Some(b) => {
                    assert(b@.lines =~= Seq::<Seq<char>>::empty());
                    assert(Some(b@) =~= target.buffered);
                },
                None => {
                    assert(target.buffered is None);
                },
            }
            assert(frame@ =~= target.frames.last());
        }
        self.indent_stack.push(frame);
        self.needs_newline = true;
        proof {
            assert(views_of(self.indent_stack@) =~= target.frames);
            assert(self@ =~= target);
        }
    }

    #[verifier::rlimit(100)]
    #[verifier::spinoff_prover]
    pub fn end_codeblock(&mut self)
        ensures
            final(self)@ == w_end_codeblock(old(self)@),
    {
        let mut b: Option<CodeBuf> = None;
        core::mem::swap(&mut b, &mut self.buffered);
        match b {
            Some(buf) => {
                let joined = crate::text::join_nl_exec(&buf.lines);
                let src = crate::text::chars_to_string(&joined);
                let mut hls = highlight_rlines(buf.lang, src.as_str());
                let ghost target = w_emit_highlight(
                    self@,
                    highlight_spec(buf@.lang, join_nl(buf@.lines)),
                );
                while hls.len() > 0
                    invariant
                        w_emit_highlight(self@, views_of(hls@)) == target,
                    decreases hls@.len(),
                {
                    let ghost hv = views_of(hls@);
                    let l = hls.remove(0);
                    proof {
                        assert(views_of(hls@) =~= hv.drop_first());
                        assert(l@ == hv[0]);
                    }
                    self.push_line(l);
                }
                proof {
                    assert(self@ =~= target);
                    lemma_emit_highlight_buffered(
                        w_end_codeblock_pre(old(self)@),
                        highlight_spec(buf@.lang, join_nl(buf@.lines)),
                    );
                    assert(self@.buffered is None);
                }
            },
            None => {},
        }
        self.needs_newline = true;
        self.in_code_block = false;
        if self.indent_stack.len() > 0 {
            let ghost before = views_of(self.indent_stack@);
            self.indent_stack.pop();
            proof {
                assert(views_of(self.indent_stack@) =~= before.drop_last());
            }
        }
        proof {
            assert(self@ =~= w_end_codeblock(old(self)@));
        }
    }

    pub fn push_link(&mut self, url: Vec<char>)
        ensures
            final(self)@ == w_push_link(old(self)@, url@),
    {
        let ghost uv = url@;
        self.link = Some(url);
        proof {
            assert(self@ =~= w_push_link(old(self)@, uv));
        }
    }

    pub fn pop_link(&mut self)
        ensures
            final(self)@ == w_pop_link(old(self)@),
    {
        let mut lk: Option<Vec<char>> = None;
        core::mem::swap(&mut lk, &mut self.link);
        match lk {
            None => {
                proof {
                    assert(self@ =~= w_pop_link(old(self)@));
                }
            },
            Some(url) => {
                let op = str_chars(" (");
                self.push_span(RSpan::plain(op));
                let link_style = TextStyle::plain().fg(crate::style::TermColor::Cyan).underlined();
                self.push_span(RSpan::new(url, link_style));
                let cp = str_chars(")");
                self.push_span(RSpan::plain(cp));
                proof {
                    assert(self@ =~= w_pop_link(old(self)@));
                }
            },
        }
    }

    pub fn code_event(&mut self, c: &Vec<char>)
        ensures
            final(self)@ == w_code(old(self)@, c@),
    {
        if self.pending_marker_line {
            self.push_line(RLine::new());
            self.pending_marker_line = false;
        }
        let text = crate::text::copy_chars(c);
        let code_style = TextStyle::plain().fg(crate::style::TermColor::Cyan);
        self.push_span(RSpan::new(text, code_style));
        proof {
            assert(self@ =~= w_code(old(self)@, c@));
        }
    }

    pub fn break_event(&mut self)
        ensures
            final(self)@ == w_break(old(self)@),
    {
        if self.buffered.is_some() {
            match &mut self.buffered {
                Some(b) => {
                    let empty: Vec<char> = Vec::new();
                    proof {
                        lemma_views_of_push(b.lines@, empty);
                    }
                    b.lines.push(empty);
                },
                None => {},
            }
            proof {
                assert(self@ =~= w_break(old(self)@));
            }
        } else {
            self.push_line(RLine::new());
            proof {
                assert(self@ =~= w_break(old(self)@));
            }
        }
    }

    pub fn rule_event(&mut self)
        ensures
            final(self)@ == w_rule(old(self)@),
    {
        self.flush_current_line();
        if self.out.len() > 0 {
            self.push_blank_line();
        }
        let mut dash: Vec<char> = Vec::new();
        dash.push('\u{2014}');
        dash.push('\u{2014}');
        dash.push('\u{2014}');
        proof {
            assert(dash@ =~= seq!['\u{2014}', '\u{2014}', '\u{2014}']);
        }
        let mut line = RLine::new();
        line.push_span(RSpan::plain(dash));
        self.push_line(line);
        self.needs_newline = true;
        proof {
            assert(self@ =~= w_rule(old(self)@));
        }
    }

    #[verifier::rlimit(100)]
    #[verifier::spinoff_prover]
    pub fn text_event(&mut self, t: &Vec<char>)
        ensures
            final(self)@ == w_text(old(self)@, t@),
    {
        if self.buffered.is_some() {
            let lines = text_lines_exec(t);
            match &mut self.buffered {
                Some(b) => {
                    let ghost oldraw = b.lines@;
                    let mut lv2 = lines;
                    let ghost newraw = lv2@;
                    b.lines.append(&mut lv2);
                    proof {
                        crate::line::lemma_views_of_concat(oldraw, newraw);
                    }
                },
                None => {},
            }
            self.needs_newline = false;
            self.pending_marker_line = false;
            proof {
                assert(self@ =~= w_text(old(self)@, t@));
            }
            return ;
        }
        if self.pending_marker_line {
            self.push_line(RLine::new());
        }
        self.pending_marker_line = false;
        if self.in_code_block && !self.needs_newline {
            if self.has_content_exec() {
                self.push_line(RLine::new());
            }
        }
        let style = self.top_style_exec();
        let lines = text_lines_exec(t);
        let ghost lv = views_of(lines@);
        let ghost target = w_emit_text_lines(self@, lv, true, style);
        let mut i: usize = 0;
        proof {
            assert(lv.skip(0) =~= lv);
        }
        while i < lines.len()
            invariant
                i <= lines@.len(),
                lv == views_of(lines@),
                w_emit_text_lines(self@, lv.skip(i as int), i == 0, style) == target,
            decreases lines@.len() - i,
        {
            let ghost pre = lv.skip(i as int);
            proof {
                assert(pre[0] == lv[i as int]);
                assert(pre.drop_first() =~= lv.skip(i + 1 as int));
            }
            if self.needs_newline {
                self.push_line(RLine::new());
                self.needs_newline = false;
            }
            if i > 0 {
                self.push_line(RLine::new());
            }
            let piece = crate::text::copy_chars(&lines[i]);
            self.push_span(RSpan::new(piece, style));
            i += 1;
        }
        proof {
            assert(lv.skip(lines@.len() as int) =~= Seq::<Seq<char>>::empty());
        }
        self.needs_newline = false;
        proof {
            assert(self@ =~= w_text(old(self)@, t@));
        }
    }

    #[verifier::rlimit(100)]
    #[verifier::spinoff_prover]
    pub fn html_event(&mut self, h: &Vec<char>, inline: bool)
        ensures
            final(self)@ == w_html(old(self)@, h@, inline),
    {
        self.pending_marker_line = false;
        let style = self.top_style_exec();
        let lines = text_lines_exec(h);
        let ghost lv = views_of(lines@);
        let ghost target = w_emit_text_lines(self@, lv, true, style);
        let mut i: usize = 0;
        proof {
            assert(lv.skip(0) =~= lv);
        }
        while i < lines.len()
            invariant
                i <= lines@.len(),
                lv == views_of(lines@),
                w_emit_text_lines(self@, lv.skip(i as int), i == 0, style) == target,
            decreases lines@.len() - i,
        {
            let ghost pre = lv.skip(i as int);
            proof {
                assert(pre[0] == lv[i as int]);
                assert(pre.drop_first() =~= lv.skip(i + 1 as int));
            }
            if self.needs_newline {
                self.push_line(RLine::new());
                self.needs_newline = false;
            }
            if i > 0 {
                self.push_line(RLine::new());
            }
            let piece = crate::text::copy_chars(&lines[i]);
            self.push_span(RSpan::new(piece, style));
            i += 1;
        }
        proof {
            assert(lv.skip(lines@.len() as int) =~= Seq::<Seq<char>>::empty());
        }
        self.needs_newline = !inline;
        proof {
            assert(self@ =~= w_html(old(self)@, h@, inline));
        }
    }
}

impl Writer {
    /// Renders a completed table and pushes its lines.
    #[verifier::rlimit(100)]
    #[verifier::spinoff_prover]
    fn render_table_exec(&mut self, t: &TableState)
        ensures
            final(self)@ == w_render_table(old(self)@, t@),
    {
        let ghost tv = t@;
        if t.rows.len() == 0 {
            return ;
        }
        let ghost rv = rows_view(t.rows@);
        // The column count: alignments or the longest row.
        let mut cols: usize = t.alignments.len();
        let mut i: usize = 0;
        proof {
            assert(rv.skip(0) =~= rv);
        }
        while i < t.rows.len()
            invariant
                i <= t.rows@.len(),
                rv == rows_view(t.rows@),
                max_cols_rec(rv.skip(i as int), cols as nat) == max_cols(tv),
            decreases t.rows@.len() - i,
        {
            let ghost pre = rv.skip(i as int);
            proof {
                assert(pre[0] == rv[i as int]);
                assert(pre.drop_first() =~= rv.skip(i + 1 as int));
                assert(rv[i as int].len() == t.rows@[i as int]@.len());
            }
            if t.rows[i].len() > cols {
                cols = t.rows[i].len();
            }
            i += 1;
        }
        proof {
            assert(rv.skip(t.rows@.len() as int) =~= Seq::<Seq<Seq<char>>>::empty());
            assert(cols as nat == max_cols(tv));
        }
        if cols == 0 {
            return ;
        }
        // Pad every row to the column count.
        let mut padded: Vec<Vec<Vec<char>>> = Vec::new();
        let mut k: usize = 0;
        proof {
            assert(rows_view(padded@) =~= pad_rows(rv.take(0), cols as nat));
        }
        while k < t.rows.len()
            invariant
                k <= t.rows@.len(),
                rv == rows_view(t.rows@),
                rows_view(padded@) == pad_rows(rv.take(k as int), cols as nat),
            decreases t.rows@.len() - k,
        {
            let mut row: Vec<Vec<char>> = Vec::new();
            let mut j: usize = 0;
            while j < t.rows[k].len()
                invariant
                    k < t.rows@.len(),
                    j <= t.rows@[k as int]@.len(),
                    views_of(row@) == views_of(t.rows@[k as int]@).take(j as int),
                decreases t.rows@[k as int]@.len() - j,
            {
                let cell = crate::text::copy_chars(&t.rows[k][j]);
                proof {
                    lemma_views_of_push(row@, cell);
                    assert(views_of(row@).push(cell@) =~= views_of(t.rows@[k as int]@).take(
                        j + 1 as int));
                }
                row.push(cell);
                j += 1;
            }
            proof {
                assert(views_of(t.rows@[k as int]@).take(t.rows@[k as int]@.len() as int)
                    =~= views_of(t.rows@[k as int]@));
                assert(views_of(row@) =~= rv[k as int]);
            }
            while row.len() < cols
                invariant
                    k < t.rows@.len(),
                    rv == rows_view(t.rows@),
                    pad_row(views_of(row@), cols as nat) == pad_row(rv[k as int], cols as nat),
                decreases cols - row@.len(),
            {
                let empty: Vec<char> = Vec::new();
                proof {
                    lemma_views_of_push(row@, empty);
                }
                row.push(empty);
            }
            proof {
                assert(views_of(row@) =~= pad_row(views_of(row@), cols as nat));
                crate::table::lemma_rows_view_push(padded@, row);
                assert(rv.take(k + 1 as int).drop_last() =~= rv.take(k as int));
                assert(rv.take(k + 1 as int).last() == rv[k as int]);
            }
            padded.push(row);
            k += 1;
        }
        proof {
            assert(rv.take(t.rows@.len() as int) =~= rv);
        }
        let ghost paddedv = pad_rows(rv, cols as nat);
        proof {
            lemma_pad_rows(rv, cols as nat);
        }
        // Split off the header when one was recorded.
        let mut header: Option<Vec<String>> = None;
        let mut body_chars: Vec<Vec<Vec<char>>> = Vec::new();
        let body_start: usize = if t.header_rows > 0 {
            1
        } else {
            0
        };
        proof {
            assert(rows_view(padded@) == pad_rows(rv, cols as nat));
        }
        if t.header_rows > 0 {
            let hrow = crate::table::rows_to_strings(&truncate_one(&padded));
            proof {
                assert(srows_view(hrow@) == seq![rows_view(padded@)[0]]);
                assert(rows_view(padded@)[0] == paddedv[0]);
                assert(srows_view(hrow@)[0] == views_of(hrow@[0]@));
                assert(views_of(hrow@[0]@) == paddedv[0]);
            }
            let mut hr = hrow;
            let h0 = hr.remove(0);
            proof {
                assert(views_of(h0@) == paddedv[0]);
            }
            header = Some(h0);
        }
        let mut m: usize = body_start;
        proof {
            assert(rows_view(body_chars@) =~= paddedv.subrange(body_start as int, body_start as int));
        }
        while m < padded.len()
            invariant
                body_start <= m <= padded@.len(),
                rows_view(padded@) == paddedv,
                rows_view(body_chars@) == paddedv.subrange(body_start as int, m as int),
            decreases padded@.len() - m,
        {
            let mut row: Vec<Vec<char>> = Vec::new();
            let mut j2: usize = 0;
            while j2 < padded[m].len()
                invariant
                    m < padded@.len(),
                    j2 <= padded@[m as int]@.len(),
                    views_of(row@) == views_of(padded@[m as int]@).take(j2 as int),
                decreases padded@[m as int]@.len() - j2,
            {
                let cell = crate::text::copy_chars(&padded[m][j2]);
                proof {
                    lemma_views_of_push(row@, cell);
                    assert(views_of(row@).push(cell@) =~= views_of(padded@[m as int]@).take(
                        j2 + 1 as int));
                }
                row.push(cell);
                j2 += 1;
            }
            proof {
                assert(views_of(padded@[m as int]@).take(padded@[m as int]@.len() as int)
                    =~= views_of(padded@[m as int]@));
                crate::table::lemma_rows_view_push(body_chars@, row);
                assert(rows_view(body_chars@).push(views_of(row@)) =~= paddedv.subrange(
                    body_start as int,
                    m + 1 as int,
                ));
            }
            body_chars.push(row);
            m += 1;
        }
        let body = crate::table::rows_to_strings(&body_chars);
        proof {
            if tv.header_rows > 0 {
                assert(paddedv.subrange(1, paddedv.len() as int) =~= paddedv.drop_first());
            } else {
                assert(paddedv.subrange(0, paddedv.len() as int) =~= paddedv);
            }
        }
        // The width budget left beside the active prefix.
        let pfx = self.prefix_spans(self.pending_marker_line);
        let pchars = spans_chars(&pfx);
        let pw = text_cols(&pchars);
        let avail_raw: usize = if pw > self.table_budget {
            0
        } else {
            self.table_budget - pw
        };
        let avail: usize = if avail_raw < 10 {
            10
        } else {
            avail_raw
        };
        let width: u16 = if avail > 65535 {
            65535u16
        } else {
            avail as u16
        };
        let rendered = render_table_string(&header, &body, &t.alignments, width);
        let rchars = str_chars(rendered.as_str());
        let lines = text_lines_exec(&rchars);
        let ghost lsv = views_of(lines@);
        let ghost target = w_emit_table_lines(self@, lsv);
        let mut q: usize = 0;
        proof {
            assert(lsv.skip(0) =~= lsv);
        }
        while q < lines.len()
            invariant
                q <= lines@.len(),
                lsv == views_of(lines@),
                w_emit_table_lines(self@, lsv.skip(q as int)) == target,
            decreases lines@.len() - q,
        {
            let ghost pre = lsv.skip(q as int);
            proof {
                assert(pre[0] == lsv[q as int]);
                assert(pre.drop_first() =~= lsv.skip(q + 1 as int));
            }
            let piece = crate::text::copy_chars(&lines[q]);
            let mut line = RLine::new();
            line.push_span(RSpan::plain(piece));
            proof {
                assert(line@ =~= (LineS {
                    spans: seq![SpanS { text: lsv[q as int], style: TextStyle::plain() }],
                    style: TextStyle::plain(),
                }));
            }
            self.push_line(line);
            q += 1;
        }
        proof {
            assert(lsv.skip(lines@.len() as int) =~= Seq::<Seq<char>>::empty());
        }
        self.flush_current_line();
        proof {
            assert(self@ =~= w_render_table(old(self)@, tv));
        }
    }

    /// One event while the table accumulator is open.
    #[verifier::rlimit(100)]
    #[verifier::spinoff_prover]
    fn table_event(&mut self, e: &MdEvent)
        requires
            old(self)@.table is Some,
        ensures
            final(self)@ == w_table_event(old(self)@, old(self)@.table->0, e),
    {
        match e {
            MdEvent::Start(MdTag::TableHead) => {
                match &mut self.table_state {
                    Some(t) => {
                        t.in_head = true;
                    },
                    None => {},
                }
                proof {
                    assert(self@ =~= w_table_event(old(self)@, old(self)@.table->0, e));
                }
            },
            MdEvent::End(MdTagEnd::TableHead) => {
                match &mut self.table_state {
                    Some(t) => {
                        if t.row_open {
                            t.end_row();
                        }
                        t.in_head = false;
                    },
                    None => {},
                }
                proof {
                    assert(self@ =~= w_table_event(old(self)@, old(self)@.table->0, e));
                }
            },
            MdEvent::Start(MdTag::TableRow) => {
                match &mut self.table_state {
                    Some(t) => {
                        t.start_row();
                    },
                    None => {},
                }
                proof {
                    assert(self@ =~= w_table_event(old(self)@, old(self)@.table->0, e));
                }
            },
            MdEvent::End(MdTagEnd::TableRow) => {
                match &mut self.table_state {
                    Some(t) => {
                        t.end_row();
                    },
                    None => {},
                }
                proof {
                    assert(self@ =~= w_table_event(old(self)@, old(self)@.table->0, e));
                }
            },
            MdEvent::Start(MdTag::TableCell) => {
                match &mut self.table_state {
                    Some(t) => {
                        if !t.row_open {
                            t.start_row();
                        }
                        t.start_cell();
                    },
                    None => {},
                }
                proof {
                    assert(self@ =~= w_table_event(old(self)@, old(self)@.table->0, e));
                }
            },
            MdEvent::End(MdTagEnd::TableCell) => {
                match &mut self.table_state {
                    Some(t) => {
                        t.end_cell();
                    },
                    None => {},
                }
                proof {
                    assert(self@ =~= w_table_event(old(self)@, old(self)@.table->0, e));
                }
            },
            MdEvent::End(MdTagEnd::Table) => {
                match &mut self.table_state {
                    Some(t) => {
                        if t.row_open {
                            t.end_row();
                        }
                    },
                    None => {},
                }
                let mut ts: Option<TableState> = None;
                core::mem::swap(&mut ts, &mut self.table_state);
                match ts {
                    Some(t) => {
                        self.render_table_exec(&t);
                        self.needs_newline = true;
                        proof {
                            assert(self@ =~= w_table_event(old(self)@, old(self)@.table->0, e));
                        }
                    },
                    None => {},
                }
            },
            MdEvent::Text(txt) => {
                match &mut self.table_state {
                    Some(t) => {
                        t.push_text(txt);
                    },
                    None => {},
                }
                proof {
                    assert(self@ =~= w_table_event(old(self)@, old(self)@.table->0, e));
                }
            },
            MdEvent::Code(txt) => {
                match &mut self.table_state {
                    Some(t) => {
                        t.push_text(txt);
                    },
                    None => {},
                }
                proof {
                    assert(self@ =~= w_table_event(old(self)@, old(self)@.table->0, e));
                }
            },
            MdEvent::SoftBreak => {
                match &mut self.table_state {
                    Some(t) => {
                        t.push_space();
                    },
                    None => {},
                }
                proof {
                    assert(self@ =~= w_table_event(old(self)@, old(self)@.table->0, e));
                }
            },
            MdEvent::HardBreak => {
                match &mut self.table_state {
                    Some(t) => {
                        t.push_space();
                    },
                    None => {},
                }
                proof {
                    assert(self@ =~= w_table_event(old(self)@, old(self)@.table->0, e));
                }
            },
            _ => {
                proof {
                    assert(self@ =~= w_table_event(old(self)@, old(self)@.table->0, e));
                }
            },
        }
    }

    pub fn start_table(&mut self, aligns: Vec<MdAlign>)
        ensures
            final(self)@ == w_start_table(old(self)@, aligns@),
    {
        let ghost av = aligns@;
        if !self.tables_enabled {
            proof {
                assert(self@ =~= w_start_table(old(self)@, av));
            }
            return ;
        }
        if self.needs_newline {
            self.push_blank_line();
        }
        self.flush_current_line();
        let ts = TableState::new(aligns);
        self.table_state = Some(ts);
        self.needs_newline = false;
        proof {
            assert(self@ =~= w_start_table(old(self)@, av));
        }
    }

    /// One event applied to the reducer.
    pub fn handle_event(&mut self, e: &MdEvent)
        ensures
            final(self)@ == w_step(old(self)@, e),
    {
        if self.table_state.is_some() {
            self.table_event(e);
            proof {
                assert(self@ =~= w_step(old(self)@, e));
            }
            return ;
        }
        match e {
            MdEvent::Start(tag) => {
                match tag {
                    MdTag::Paragraph => self.start_paragraph(),
                    MdTag::Heading(level) => self.start_heading(*level),
                    MdTag::BlockQuote => self.start_blockquote(),
                    MdTag::CodeBlock(info) => {
                        let ic: Option<Vec<char>> = match info {
                            Some(i) => Some(crate::text::copy_chars(i)),
                            None => None,
                        };
                        self.start_codeblock(ic);
                    },
                    MdTag::List(start) => self.start_list(*start),
                    MdTag::Item => self.start_item(),
                    MdTag::Emphasis => self.push_inline_style(TextStyle::plain().italic()),
                    MdTag::Strong => self.push_inline_style(TextStyle::plain().bold()),
                    MdTag::Strikethrough => self.push_inline_style(
                        TextStyle::plain().crossed_out(),
                    ),
                    MdTag::Link(url) => self.push_link(crate::text::copy_chars(url)),
                    MdTag::Table(aligns) => {
                        let mut ac: Vec<MdAlign> = Vec::new();
                        let mut ai: usize = 0;
                        while ai < aligns.len()
                            invariant
                                ai <= aligns@.len(),
                                ac@ == aligns@.take(ai as int),
                            decreases aligns@.len() - ai,
                        {
                            ac.push(aligns[ai]);
                            proof {
                                assert(ac@ =~= aligns@.take(ai + 1 as int));
                            }
                            ai += 1;
                        }
                        proof {
                            assert(aligns@.take(aligns@.len() as int) =~= aligns@);
                        }
                        self.start_table(ac);
                    },
                    MdTag::TableHead => {},
                    MdTag::TableRow => {},
                    MdTag::TableCell => {},
                }
                proof {
                    assert(self@ =~= w_step(old(self)@, e));
                }
            },
            MdEvent::End(te) => {
                match te {
                    MdTagEnd::Paragraph => self.end_paragraph(),
                    MdTagEnd::Heading => self.end_heading(),
                    MdTagEnd::BlockQuote => self.end_blockquote(),
                    MdTagEnd::CodeBlock => self.end_codeblock(),
                    MdTagEnd::List => self.end_list(),
                    MdTagEnd::Item => {
                        if self.indent_stack.len() > 0 {
                            let ghost before = views_of(self.indent_stack@);
                            self.indent_stack.pop();
                            proof {
                                assert(views_of(self.indent_stack@) =~= before.drop_last());
                            }
                        }
                        self.pending_marker_line = false;
                    },
                    MdTagEnd::Emphasis => self.pop_inline_style(),
                    MdTagEnd::Strong => self.pop_inline_style(),
                    MdTagEnd::Strikethrough => self.pop_inline_style(),
                    MdTagEnd::Link => self.pop_link(),
                    MdTagEnd::Table => {},
                    MdTagEnd::TableHead => {},
                    MdTagEnd::TableRow => {},
                    MdTagEnd::TableCell => {},
                }
                proof {
                    assert(self@ =~= w_step(old(self)@, e));
                }
            },
            MdEvent::Text(t) => {
                self.text_event(t);
                proof {
                    assert(self@ =~= w_step(old(self)@, e));
                }
            },
            MdEvent::Code(c) => {
                self.code_event(c);
                proof {
                    assert(self@ =~= w_step(old(self)@, e));
                }
            },
            MdEvent::Html(h) => {
                self.html_event(h, false);
                proof {
                    assert(self@ =~= w_step(old(self)@, e));
                }
            },
            MdEvent::InlineHtml(h) => {
                self.html_event(h, true);
                proof {
                    assert(self@ =~= w_step(old(self)@, e));
                }
            },
            MdEvent::SoftBreak => {
                self.break_event();
                proof {
                    assert(self@ =~= w_step(old(self)@, e));
                }
            },
            MdEvent::HardBreak => {
                self.break_event();
                proof {
                    assert(self@ =~= w_step(old(self)@, e));
                }
            },
            MdEvent::Rule => {
                self.rule_event();
                proof {
                    assert(self@ =~= w_step(old(self)@, e));
                }
            },
            MdEvent::Other => {
                proof {
                    assert(self@ =~= w_step(old(self)@, e));
                }
            },
        }
    }

    /// Consumes the whole event stream and flushes the final line.
    pub fn run(&mut self, events: &Vec<MdEvent>)
        ensures
            final(self)@ == w_flush(w_fold(old(self)@, events@)),
    {
        let ghost target = w_fold(self@, events@);
        let mut i: usize = 0;
        proof {
            assert(events@.skip(0) =~= events@);
        }
        while i < events.len()
            invariant
                i <= events@.len(),
                w_fold(self@, events@.skip(i as int)) == target,
            decreases events@.len() - i,
        {
            let ghost pre = events@.skip(i as int);
            proof {
                assert(pre[0] == events@[i as int]);
                assert(pre.drop_first() =~= events@.skip(i + 1 as int));
            }
            self.handle_event(&events[i]);
            i += 1;
        }
        proof {
            assert(events@.skip(events@.len() as int) =~= Seq::<MdEvent>::empty());
        }
        self.flush_current_line();
    }
}

/// The first row of a padded row list, alone.
fn truncate_one(padded: &Vec<Vec<Vec<char>>>) -> (r: Vec<Vec<Vec<char>>>)
    requires
        padded@.len() > 0,
    ensures
        rows_view(r@) == seq![rows_view(padded@)[0]],
{
    let mut r: Vec<Vec<Vec<char>>> = Vec::new();
    let mut row: Vec<Vec<char>> = Vec::new();
    let mut j: usize = 0;
    while j < padded[0].len()
        invariant
            padded@.len() > 0,
            j <= padded@[0]@.len(),
            views_of(row@) == views_of(padded@[0]@).take(j as int),
        decreases padded@[0]@.len() - j,
    {
        let cell = crate::text::copy_chars(&padded[0][j]);
        proof {
            lemma_views_of_push(row@, cell);
            assert(views_of(row@).push(cell@) =~= views_of(padded@[0]@).take(j + 1 as int));
        }
        row.push(cell);
        j += 1;
    }
    proof {
        assert(views_of(padded@[0]@).take(padded@[0]@.len() as int) =~= views_of(padded@[0]@));
        crate::table::lemma_rows_view_push(r@, row);
    }
    r.push(row);
    proof {
        assert(rows_view(r@) =~= seq![rows_view(padded@)[0]]);
    }
    r
}

} // verus!
