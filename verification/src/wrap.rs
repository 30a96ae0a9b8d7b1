//! Width-aware word wrapping of styled lines: greedy packing at word
//! boundaries, with distinct first-line and continuation indents, measured in
//! display columns.

use vstd::prelude::*;

use crate::line::{views_of, lemma_views_of_push, spans_text, LineS, RLine, RSpan, SpanS};
use crate::style::TextStyle;
use crate::text::{char_width, sat_cols, text_cols};

verus! {

/// One character paired with the style it carries.
pub type StyChar = (char, TextStyle);

/// A character sequence where every character carries the same style.
pub open spec fn styled_chars(text: Seq<char>, style: TextStyle) -> Seq<StyChar>
    decreases text.len(),
{
    if text.len() == 0 {
        Seq::empty()
    } else {
        styled_chars(text.drop_last(), style).push((text.last(), style))
    }
}

/// The characters of one span, each tagged with the span's style.
pub open spec fn span_chars(s: SpanS) -> Seq<StyChar> {
    styled_chars(s.text, s.style)
}

pub proof fn lemma_styled_chars(text: Seq<char>, style: TextStyle)
    ensures
        styled_chars(text, style).len() == text.len(),
        forall|i: int|
            0 <= i < text.len() ==> styled_chars(text, style)[i] == (text[i], style),
    decreases text.len(),
{
    if text.len() > 0 {
        lemma_styled_chars(text.drop_last(), style);
    }
}

/// All characters of a span sequence, each tagged with its span's style.
pub open spec fn flatten_spans(ss: Seq<SpanS>) -> Seq<StyChar>
    decreases ss.len(),
{
    if ss.len() == 0 {
        Seq::empty()
    } else {
        flatten_spans(ss.drop_last()) + span_chars(ss.last())
    }
}

/// The plain characters of a styled-character sequence.
pub open spec fn chars_only(cs: Seq<StyChar>) -> Seq<char> {
    cs.map_values(|sc: StyChar| sc.0)
}

/// The display width of a word, saturated as `sat_cols`.
pub open spec fn word_cols(w: Seq<StyChar>) -> nat {
    sat_cols(chars_only(w))
}

/// Splits styled characters into maximal space-free words, dropping the
/// spaces.
pub open spec fn words_rec(cs: Seq<StyChar>, cur: Seq<StyChar>, acc: Seq<Seq<StyChar>>) -> Seq<
    Seq<StyChar>,
>
    decreases cs.len(),
{
    if cs.len() == 0 {
        if cur.len() > 0 {
            acc.push(cur)
        } else {
            acc
        }
    } else if cs[0].0 == ' ' {
        if cur.len() > 0 {
            words_rec(cs.drop_first(), Seq::empty(), acc.push(cur))
        } else {
            words_rec(cs.drop_first(), Seq::empty(), acc)
        }
    } else {
        words_rec(cs.drop_first(), cur.push(cs[0]), acc)
    }
}

/// The words of a styled-character sequence.
pub open spec fn split_words(cs: Seq<StyChar>) -> Seq<Seq<StyChar>> {
    words_rec(cs, Seq::empty(), Seq::empty())
}

pub proof fn lemma_words_rec_nonempty(cs: Seq<StyChar>, cur: Seq<StyChar>, acc: Seq<Seq<StyChar>>)
    requires
        forall|j: int| 0 <= j < acc.len() ==> acc[j].len() > 0,
    ensures
        forall|j: int|
            0 <= j < words_rec(cs, cur, acc).len() ==> (#[trigger] words_rec(cs, cur, acc)[j]).len()
                > 0,
    decreases cs.len(),
{
    if cs.len() == 0 {
        if cur.len() > 0 {
            assert forall|j: int|
                0 <= j < words_rec(cs, cur, acc).len() implies (#[trigger] words_rec(cs, cur, acc)[j]).len()
                > 0 by {
                if j < acc.len() {
                    assert(words_rec(cs, cur, acc)[j] == acc[j]);
                } else {
                    assert(words_rec(cs, cur, acc)[j] == cur);
                }
            }
        }
    } else {
        let (cur2, acc2): (Seq<StyChar>, Seq<Seq<StyChar>>) = if cs[0].0 == ' ' {
            if cur.len() > 0 {
                (Seq::empty(), acc.push(cur))
            } else {
                (Seq::empty(), acc)
            }
        } else {
            (cur.push(cs[0]), acc)
        };
        assert forall|j: int| 0 <= j < acc2.len() implies (#[trigger] acc2[j]).len() > 0 by {
            if j < acc.len() {
                assert(acc2[j] == acc[j]);
            } else {
                assert(acc2[j] == cur);
            }
        }
        lemma_words_rec_nonempty(cs.drop_first(), cur2, acc2);
        assert(words_rec(cs, cur, acc) == words_rec(cs.drop_first(), cur2, acc2));
        assert forall|j: int|
            0 <= j < words_rec(cs, cur, acc).len() implies (#[trigger] words_rec(cs, cur, acc)[j]).len()
            > 0 by {
            assert(words_rec(cs.drop_first(), cur2, acc2)[j].len() > 0);
        }
    }
}

/// Every word produced by `split_words` is nonempty.
pub proof fn lemma_split_words_nonempty(cs: Seq<StyChar>)
    ensures
        forall|j: int|
            0 <= j < split_words(cs).len() ==> (#[trigger] split_words(cs)[j]).len() > 0,
{
    lemma_words_rec_nonempty(cs, Seq::empty(), Seq::empty());
}

/// Greedy packing of words into content lines. The current line's budget is
/// the first-line budget while no line has been emitted yet, and the
/// continuation budget afterwards. A word that fits nowhere stands alone on
/// its own, possibly overlong, line. A joining space takes the style of the
/// first character of the word that follows it.
pub open spec fn greedy_rec(
    ws: Seq<Seq<StyChar>>,
    b0: nat,
    b1: nat,
    cur: Seq<StyChar>,
    cur_w: nat,
    acc: Seq<Seq<StyChar>>,
) -> Seq<Seq<StyChar>>
    decreases ws.len(),
{
    if ws.len() == 0 {
        acc.push(cur)
    } else {
        let w = ws[0];
        let wc = word_cols(w);
        let budget: nat = if acc.len() == 0 {
            b0
        } else {
            b1
        };
        if cur.len() == 0 {
            greedy_rec(ws.drop_first(), b0, b1, w, wc, acc)
        } else if cur_w + 1 + wc <= budget {
            greedy_rec(
                ws.drop_first(),
                b0,
                b1,
                cur.push((' ', w[0].1)) + w,
                cur_w + 1 + wc,
                acc,
            )
        } else {
            greedy_rec(ws.drop_first(), b0, b1, w, wc, acc.push(cur))
        }
    }
}

/// Groups a styled-character run into maximal spans of equal style.
pub open spec fn group_rec(
    cs: Seq<StyChar>,
    cur_text: Seq<char>,
    cur_style: TextStyle,
    acc: Seq<SpanS>,
) -> Seq<SpanS>
    decreases cs.len(),
{
    if cs.len() == 0 {
        if cur_text.len() > 0 {
            acc.push(SpanS { text: cur_text, style: cur_style })
        } else {
            acc
        }
    } else if cs[0].1 == cur_style {
        group_rec(cs.drop_first(), cur_text.push(cs[0].0), cur_style, acc)
    } else {
        group_rec(
            cs.drop_first(),
            seq![cs[0].0],
            cs[0].1,
            acc.push(SpanS { text: cur_text, style: cur_style }),
        )
    }
}

/// The spans of a wrapped content line: runs of equal style.
pub open spec fn group_spans(cs: Seq<StyChar>) -> Seq<SpanS> {
    if cs.len() == 0 {
        Seq::empty()
    } else {
        group_rec(cs.drop_first(), seq![cs[0].0], cs[0].1, Seq::empty())
    }
}

/// The line budget left by an indent: the width minus the indent's columns,
/// floored at zero.
pub open spec fn budget_of(width: nat, indent: Seq<SpanS>) -> nat {
    if sat_cols(spans_text(indent)) > width {
        0
    } else {
        (width - sat_cols(spans_text(indent))) as nat
    }
}

/// The physical lines for wrapped content runs: each run grouped into spans
/// and prefixed by the first-line indent (first run) or the continuation
/// indent (later runs).
pub open spec fn emit_lines(
    contents: Seq<Seq<StyChar>>,
    init: Seq<SpanS>,
    sub: Seq<SpanS>,
    style: TextStyle,
) -> Seq<LineS>
    decreases contents.len(),
{
    if contents.len() == 0 {
        Seq::empty()
    } else {
        emit_lines(contents.drop_last(), init, sub, style).push(
            LineS {
                spans: (if contents.len() == 1 {
                    init
                } else {
                    sub
                }) + group_spans(contents.last()),
                style,
            },
        )
    }
}

pub proof fn lemma_emit_lines(
    contents: Seq<Seq<StyChar>>,
    init: Seq<SpanS>,
    sub: Seq<SpanS>,
    style: TextStyle,
)
    ensures
        emit_lines(contents, init, sub, style).len() == contents.len(),
        forall|i: int|
            0 <= i < contents.len() ==> emit_lines(contents, init, sub, style)[i] == (LineS {
                spans: (if i == 0 {
                    init
                } else {
                    sub
                }) + group_spans(contents[i]),
                style,
            }),
    decreases contents.len(),
{
    if contents.len() > 0 {
        lemma_emit_lines(contents.drop_last(), init, sub, style);
    }
}

/// The wrapped form of one logical line: greedy word wrap of its flattened
/// characters, each physical line prefixed by the matching indent.
pub open spec fn wrap_line_spec(
    spans: Seq<SpanS>,
    style: TextStyle,
    width: nat,
    init: Seq<SpanS>,
    sub: Seq<SpanS>,
) -> Seq<LineS> {
    let contents = greedy_rec(
        split_words(flatten_spans(spans)),
        budget_of(width, init),
        budget_of(width, sub),
        Seq::empty(),
        0,
        Seq::empty(),
    );
    emit_lines(contents, init, sub, style)
}

/// Copies a styled-character vector.
fn copy_stychars(v: &Vec<StyChar>) -> (r: Vec<StyChar>)
    ensures
        r@ == v@,
{
    let mut r: Vec<StyChar> = Vec::new();
    let mut i: usize = 0;
    while i < v.len()
        invariant
            i <= v@.len(),
            r@ == v@.take(i as int),
        decreases v@.len() - i,
    {
        r.push(v[i]);
        proof {
            assert(r@ =~= v@.take(i + 1 as int));
        }
        i += 1;
    }
    proof {
        assert(v@.take(v@.len() as int) =~= v@);
    }
    r
}

/// Copies a span vector, preserving its model.
pub fn clone_spans(v: &Vec<RSpan>) -> (r: Vec<RSpan>)
    ensures
        views_of(r@) == views_of(v@),
{
    let mut r: Vec<RSpan> = Vec::new();
    let mut i: usize = 0;
    while i < v.len()
        invariant
            i <= v@.len(),
            views_of(r@) == views_of(v@).take(i as int),
        decreases v@.len() - i,
    {
        let s = v[i].clone();
        proof {
            lemma_views_of_push(r@, s);
            assert(views_of(r@).push(s@) =~= views_of(v@).take(i + 1 as int));
        }
        r.push(s);
        i += 1;
    }
    proof {
        assert(views_of(v@).take(v@.len() as int) =~= views_of(v@));
    }
    r
}

/// The concatenated text of a span vector.
pub fn spans_chars(v: &Vec<RSpan>) -> (r: Vec<char>)
    ensures
        r@ == spans_text(views_of(v@)),
{
    let mut r: Vec<char> = Vec::new();
    let mut i: usize = 0;
    while i < v.len()
        invariant
            i <= v@.len(),
            r@ == spans_text(views_of(v@).take(i as int)),
        decreases v@.len() - i,
    {
        let mut j: usize = 0;
        let ghost before = r@;
        while j < v[i].text.len()
            invariant
                i < v@.len(),
                j <= v@[i as int].text@.len(),
                r@ == before + v@[i as int].text@.take(j as int),
            decreases v@[i as int].text@.len() - j,
        {
            r.push(v[i].text[j]);
            proof {
                assert(r@ =~= before + v@[i as int].text@.take(j + 1 as int));
            }
            j += 1;
        }
        proof {
            assert(v@[i as int].text@.take(v@[i as int].text@.len() as int) =~= v@[
                i as int].text@);
            assert(views_of(v@).take(i + 1 as int).drop_last() =~= views_of(v@).take(i as int));
            assert(views_of(v@).take(i + 1 as int).last() == v@[i as int]@);
        }
        i += 1;
    }
    proof {
        assert(views_of(v@).take(v@.len() as int) =~= views_of(v@));
    }
    r
}

/// Flattens a span vector into styled characters.
fn flatten_exec(v: &Vec<RSpan>) -> (r: Vec<StyChar>)
    ensures
        r@ == flatten_spans(views_of(v@)),
{
    let mut r: Vec<StyChar> = Vec::new();
    let mut i: usize = 0;
    while i < v.len()
        invariant
            i <= v@.len(),
            r@ == flatten_spans(views_of(v@).take(i as int)),
        decreases v@.len() - i,
    {
        let st = v[i].style;
        let mut j: usize = 0;
        let ghost before = r@;
        proof {
            lemma_styled_chars(v@[i as int].text@, st);
            assert(r@ =~= before + span_chars(v@[i as int]@).take(0));
        }
        while j < v[i].text.len()
            invariant
                i < v@.len(),
                st == v@[i as int].style,
                j <= v@[i as int].text@.len(),
                r@ == before + span_chars(v@[i as int]@).take(j as int),
            decreases v@[i as int].text@.len() - j,
        {
            r.push((v[i].text[j], st));
            proof {
                let s = v@[i as int]@;
                lemma_styled_chars(s.text, s.style);
                assert(span_chars(s)[j as int] == (s.text[j as int], s.style));
                assert(r@ =~= before + span_chars(v@[i as int]@).take(j + 1 as int));
            }
            j += 1;
        }
        proof {
            lemma_styled_chars(v@[i as int].text@, st);
            assert(span_chars(v@[i as int]@).take(v@[i as int].text@.len() as int) =~= span_chars(
                v@[i as int]@));
            assert(views_of(v@).take(i + 1 as int).drop_last() =~= views_of(v@).take(i as int));
            assert(views_of(v@).take(i + 1 as int).last() == v@[i as int]@);
        }
        i += 1;
    }
    proof {
        assert(views_of(v@).take(v@.len() as int) =~= views_of(v@));
    }
    r
}

/// Splits styled characters into words, mirroring `split_words`.
fn split_words_exec(cs: &Vec<StyChar>) -> (r: Vec<Vec<StyChar>>)
    ensures
        views_of(r@) == split_words(cs@),
{
    let mut acc: Vec<Vec<StyChar>> = Vec::new();
    let mut cur: Vec<StyChar> = Vec::new();
    let mut i: usize = 0;
    proof {
        assert(cs@.skip(0) =~= cs@);
        assert(views_of(acc@) =~= Seq::<Seq<StyChar>>::empty());
        assert(cur@ =~= Seq::<StyChar>::empty());
    }
    while i < cs.len()
        invariant
            i <= cs@.len(),
            words_rec(cs@.skip(i as int), cur@, views_of(acc@)) == split_words(cs@),
        decreases cs@.len() - i,
    {
        let ghost pre = cs@.skip(i as int);
        proof {
            assert(pre[0] == cs@[i as int]);
            assert(pre.drop_first() =~= cs@.skip(i + 1 as int));
        }
        if cs[i].0 == ' ' {
            if cur.len() > 0 {
                proof {
                    lemma_views_of_push(acc@, cur);
                }
                acc.push(cur);
                cur = Vec::new();
                proof {
                    assert(cur@ =~= Seq::<StyChar>::empty());
                }
            } else {
                proof {
                    assert(cur@ =~= Seq::<StyChar>::empty());
                }
            }
        } else {
            cur.push(cs[i]);
        }
        i += 1;
    }
    proof {
        assert(cs@.skip(cs@.len() as int) =~= Seq::<StyChar>::empty());
    }
    if cur.len() > 0 {
        proof {
            lemma_views_of_push(acc@, cur);
        }
        acc.push(cur);
    }
    acc
}

/// The display width of one word.
fn word_width(w: &Vec<StyChar>) -> (r: usize)
    ensures
        r == word_cols(w@),
{
    let mut chars: Vec<char> = Vec::new();
    let mut i: usize = 0;
    while i < w.len()
        invariant
            i <= w@.len(),
            chars@ == chars_only(w@).take(i as int),
        decreases w@.len() - i,
    {
        chars.push(w[i].0);
        proof {
            assert(chars@ =~= chars_only(w@).take(i + 1 as int));
        }
        i += 1;
    }
    proof {
        assert(chars_only(w@).take(w@.len() as int) =~= chars_only(w@));
    }
    text_cols(&chars)
}

/// Groups a content run into spans, mirroring `group_spans`.
fn group_exec(cs: &Vec<StyChar>) -> (r: Vec<RSpan>)
    ensures
        views_of(r@) == group_spans(cs@),
{
    let mut acc: Vec<RSpan> = Vec::new();
    if cs.len() == 0 {
        proof {
            assert(views_of(acc@) =~= group_spans(cs@));
        }
        return acc;
    }
    let mut cur_text: Vec<char> = Vec::new();
    cur_text.push(cs[0].0);
    let mut cur_style = cs[0].1;
    let mut i: usize = 1;
    proof {
        assert(cs@.skip(1) =~= cs@.drop_first());
        assert(cur_text@ =~= seq![cs@[0].0]);
        assert(views_of(acc@) =~= Seq::<SpanS>::empty());
    }
    while i < cs.len()
        invariant
            1 <= i <= cs@.len(),
            cs@.len() > 0,
            group_rec(cs@.skip(i as int), cur_text@, cur_style, views_of(acc@)) == group_spans(
                cs@,
            ),
        decreases cs@.len() - i,
    {
        let ghost pre = cs@.skip(i as int);
        proof {
            assert(pre[0] == cs@[i as int]);
            assert(pre.drop_first() =~= cs@.skip(i + 1 as int));
        }
        if cs[i].1 == cur_style {
            cur_text.push(cs[i].0);
        } else {
            let span = RSpan::new(cur_text, cur_style);
            proof {
                lemma_views_of_push(acc@, span);
            }
            acc.push(span);
            cur_text = Vec::new();
            cur_text.push(cs[i].0);
            proof {
                assert(cur_text@ =~= seq![cs@[i as int].0]);
            }
            cur_style = cs[i].1;
        }
        i += 1;
    }
    proof {
        assert(cs@.skip(cs@.len() as int) =~= Seq::<StyChar>::empty());
    }
    if cur_text.len() > 0 {
        let span = RSpan::new(cur_text, cur_style);
        proof {
            lemma_views_of_push(acc@, span);
        }
        acc.push(span);
    }
    acc
}

/// Appends copies of `b`'s spans to `a`.
pub fn concat_spans(a: Vec<RSpan>, b: &Vec<RSpan>) -> (r: Vec<RSpan>)
    ensures
        views_of(r@) == views_of(a@) + views_of(b@),
{
    let ghost av = views_of(a@);
    let mut r = a;
    proof {
        assert(views_of(r@) =~= av + views_of(b@).take(0));
    }
    let mut i: usize = 0;
    while i < b.len()
        invariant
            i <= b@.len(),
            views_of(r@) == av + views_of(b@).take(i as int),
        decreases b@.len() - i,
    {
        let s = b[i].clone();
        proof {
            lemma_views_of_push(r@, s);
            assert(av + views_of(b@).take(i + 1 as int) =~= (av + views_of(b@).take(i as int)).push(
                b@[i as int]@));
        }
        r.push(s);
        i += 1;
    }
    proof {
        assert(views_of(b@).take(b@.len() as int) =~= views_of(b@));
    }
    r
}

/// Wraps one logical line at `width` display columns, prefixing the first
/// physical line with `init` and the rest with `sub`.
pub fn wrap_line(
    spans: &Vec<RSpan>,
    style: TextStyle,
    width: usize,
    init: &Vec<RSpan>,
    sub: &Vec<RSpan>,
) -> (r: Vec<RLine>)
    ensures
        views_of(r@) == wrap_line_spec(views_of(spans@), style, width as nat, views_of(init@),
            views_of(sub@)),
{
    let init_chars = spans_chars(init);
    let sub_chars = spans_chars(sub);
    let iw = text_cols(&init_chars);
    let sw = text_cols(&sub_chars);
    let b0: usize = if iw > width {
        0
    } else {
        width - iw
    };
    let b1: usize = if sw > width {
        0
    } else {
        width - sw
    };
    let flat = flatten_exec(spans);
    let ws = split_words_exec(&flat);
    proof {
        lemma_split_words_nonempty(flat@);
    }

    // Greedy packing, mirroring `greedy_rec`.
    let mut acc: Vec<Vec<StyChar>> = Vec::new();
    let mut cur: Vec<StyChar> = Vec::new();
    let mut cur_w: usize = 0;
    let ghost target = greedy_rec(views_of(ws@), b0 as nat, b1 as nat, Seq::empty(), 0, Seq::empty());
    let mut i: usize = 0;
    proof {
        assert(views_of(ws@).skip(0) =~= views_of(ws@));
        assert(cur@ =~= Seq::<StyChar>::empty());
        assert(views_of(acc@) =~= Seq::<Seq<StyChar>>::empty());
    }
    while i < ws.len()
        invariant
            i <= ws@.len(),
            views_of(ws@) == split_words(flat@),
            forall|j: int| 0 <= j < ws@.len() ==> (#[trigger] views_of(ws@)[j]).len() > 0,
            forall|j: int| 0 <= j < ws@.len() ==> views_of(ws@)[j] == ws@[j]@,
            greedy_rec(views_of(ws@).skip(i as int), b0 as nat, b1 as nat, cur@, cur_w as nat,
                views_of(acc@)) == target,
        decreases ws@.len() - i,
    {
        let ghost pre = views_of(ws@).skip(i as int);
        proof {
            assert(pre[0] == views_of(ws@)[i as int]);
            assert(pre.drop_first() =~= views_of(ws@).skip(i + 1 as int));
        }
        let wc = word_width(&ws[i]);
        let budget: usize = if acc.len() == 0 {
            b0
        } else {
            b1
        };
        if cur.len() == 0 {
            cur = copy_stychars(&ws[i]);
            cur_w = wc;
        } else if wc <= budget && 1 <= budget - wc && cur_w <= budget - wc - 1 {
            proof {
                assert(cur_w + 1 + wc <= budget);
            }
            let first_style = ws[i][0].1;
            cur.push((' ', first_style));
            let mut j: usize = 0;
            let ghost mid = cur@;
            while j < ws[i].len()
                invariant
                    i < ws@.len(),
                    j <= ws@[i as int]@.len(),
                    cur@ == mid + ws@[i as int]@.take(j as int),
                decreases ws@[i as int]@.len() - j,
            {
                cur.push(ws[i][j]);
                proof {
                    assert(cur@ =~= mid + ws@[i as int]@.take(j + 1 as int));
                }
                j += 1;
            }
            proof {
                assert(ws@[i as int]@.take(ws@[i as int]@.len() as int) =~= ws@[i as int]@);
            }
            cur_w = cur_w + 1 + wc;
        } else {
            proof {
                assert(!(cur_w + 1 + wc <= budget));
                lemma_views_of_push(acc@, cur);
            }
            acc.push(cur);
            cur = copy_stychars(&ws[i]);
            cur_w = wc;
        }
        i += 1;
    }
    proof {
        assert(views_of(ws@).skip(ws@.len() as int) =~= Seq::<Seq<StyChar>>::empty());
        lemma_views_of_push(acc@, cur);
    }
    acc.push(cur);
    let ghost contents = views_of(acc@);
    proof {
        assert(contents == target);
    }

    // Emit the physical lines: indent plus grouped content.
    let mut out: Vec<RLine> = Vec::new();
    let mut k: usize = 0;
    let ghost lines_spec = wrap_line_spec(views_of(spans@), style, width as nat, views_of(init@),
        views_of(sub@));
    proof {
        assert(b0 as nat == budget_of(width as nat, views_of(init@)));
        assert(b1 as nat == budget_of(width as nat, views_of(sub@)));
        assert(lines_spec == emit_lines(contents, views_of(init@), views_of(sub@), style));
        lemma_emit_lines(contents, views_of(init@), views_of(sub@), style);
        assert(views_of(out@) =~= lines_spec.take(0));
    }
    while k < acc.len()
        invariant
            k <= acc@.len(),
            contents == views_of(acc@),
            lines_spec.len() == acc@.len(),
            forall|j: int| 0 <= j < acc@.len() ==> contents[j] == acc@[j]@,
            forall|j: int|
                0 <= j < acc@.len() ==> lines_spec[j] == (LineS {
                    spans: (if j == 0 {
                        views_of(init@)
                    } else {
                        views_of(sub@)
                    }) + group_spans(contents[j]),
                    style,
                }),
            views_of(out@) == lines_spec.take(k as int),
        decreases acc@.len() - k,
    {
        let indent = if k == 0 {
            clone_spans(init)
        } else {
            clone_spans(sub)
        };
        let content_spans = group_exec(&acc[k]);
        let line_spans = concat_spans(indent, &content_spans);
        let line = RLine { spans: line_spans, style };
        proof {
            lemma_views_of_push(out@, line);
            assert(views_of(out@).push(line@) =~= lines_spec.take(k + 1 as int));
        }
        out.push(line);
        k += 1;
    }
    proof {
        assert(lines_spec.take(lines_spec.len() as int) =~= lines_spec);
    }
    out
}

} // verus!
