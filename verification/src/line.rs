//! Styled spans and lines: the renderer's internal character-vector form and
//! the public string form, both abstracted by the same ghost model.

use vstd::prelude::*;

use crate::style::TextStyle;
use crate::text::chars_to_string;

verus! {

/// The mathematical model of a span: its text and its style.
#[verifier::ext_equal]
pub ghost struct SpanS {
    pub text: Seq<char>,
    pub style: TextStyle,
}

/// The mathematical model of a line: its spans and its base style.
#[verifier::ext_equal]
pub ghost struct LineS {
    pub spans: Seq<SpanS>,
    pub style: TextStyle,
}

/// The views of the elements of a sequence.
pub open spec fn views_of<T: View>(s: Seq<T>) -> Seq<T::V> {
    s.map_values(|x: T| x@)
}

pub proof fn lemma_views_of_push<T: View>(s: Seq<T>, x: T)
    ensures
        views_of(s.push(x)) == views_of(s).push(x@),
{
    assert(views_of(s.push(x)) =~= views_of(s).push(x@));
}

pub proof fn lemma_views_of_concat<T: View>(a: Seq<T>, b: Seq<T>)
    ensures
        views_of(a + b) == views_of(a) + views_of(b),
{
    assert(views_of(a + b) =~= views_of(a) + views_of(b));
}

/// A span in the renderer's working form.
pub struct RSpan {
    pub text: Vec<char>,
    pub style: TextStyle,
}

impl View for RSpan {
    type V = SpanS;

    open spec fn view(&self) -> SpanS {
        SpanS { text: self.text@, style: self.style }
    }
}

impl Clone for RSpan {
    fn clone(&self) -> (r: Self)
        ensures
            r@ == self@,
    {
        RSpan { text: self.text.clone(), style: self.style }
    }
}

impl RSpan {
    pub fn new(text: Vec<char>, style: TextStyle) -> (r: RSpan)
        ensures
            r@ == (SpanS { text: text@, style }),
    {
        RSpan { text, style }
    }

    /// A span of the given text with no style of its own.
    pub fn plain(text: Vec<char>) -> (r: RSpan)
        ensures
            r@ == (SpanS { text: text@, style: TextStyle::plain() }),
    {
        RSpan { text, style: TextStyle::plain() }
    }
}

/// A line in the renderer's working form.
pub struct RLine {
    pub spans: Vec<RSpan>,
    pub style: TextStyle,
}

impl View for RLine {
    type V = LineS;

    open spec fn view(&self) -> LineS {
        LineS { spans: views_of(self.spans@), style: self.style }
    }
}

impl RLine {
    pub fn new() -> (r: RLine)
        ensures
            r@ == (LineS { spans: Seq::<SpanS>::empty(), style: TextStyle::plain() }),
    {
        proof {
            assert(views_of(Seq::<RSpan>::empty()) =~= Seq::<SpanS>::empty());
        }
        RLine { spans: Vec::new(), style: TextStyle::plain() }
    }

    pub fn push_span(&mut self, span: RSpan)
        ensures
            final(self)@ == (LineS {
                spans: old(self)@.spans.push(span@),
                style: old(self)@.style,
            }),
    {
        proof {
            lemma_views_of_push(self.spans@, span);
        }
        self.spans.push(span);
    }
}

/// The concatenated text of a sequence of spans.
pub open spec fn spans_text(ss: Seq<SpanS>) -> Seq<char>
    decreases ss.len(),
{
    if ss.len() == 0 {
        Seq::empty()
    } else {
        spans_text(ss.drop_last()) + ss.last().text
    }
}

/// The text of a line: its spans' texts concatenated.
pub open spec fn line_text(l: LineS) -> Seq<char> {
    spans_text(l.spans)
}

/// The texts of several lines rejoined with newlines.
pub open spec fn lines_text(ls: Seq<LineS>) -> Seq<char>
    decreases ls.len(),
{
    if ls.len() == 0 {
        Seq::empty()
    } else if ls.len() == 1 {
        line_text(ls[0])
    } else {
        lines_text(ls.drop_last()) + seq!['\n'] + line_text(ls.last())
    }
}

pub proof fn lemma_spans_text_push(ss: Seq<SpanS>, s: SpanS)
    ensures
        spans_text(ss.push(s)) == spans_text(ss) + s.text,
{
    assert(ss.push(s).drop_last() =~= ss);
    assert(ss.push(s).last() == s);
}

pub proof fn lemma_spans_text_concat(a: Seq<SpanS>, b: Seq<SpanS>)
    ensures
        spans_text(a + b) == spans_text(a) + spans_text(b),
    decreases b.len(),
{
    if b.len() == 0 {
        assert(a + b =~= a);
        assert(spans_text(a) + Seq::<char>::empty() =~= spans_text(a));
    } else {
        lemma_spans_text_concat(a, b.drop_last());
        assert((a + b).drop_last() =~= a + b.drop_last());
        assert((a + b).last() == b.last());
        assert(spans_text(a) + (spans_text(b.drop_last()) + b.last().text) =~= (spans_text(a)
            + spans_text(b.drop_last())) + b.last().text);
    }
}

/// The plain text of a line in the renderer's working form.
pub fn rline_text(l: &RLine) -> (r: Vec<char>)
    ensures
        r@ == line_text(l@),
{
    let mut r: Vec<char> = Vec::new();
    let mut i: usize = 0;
    while i < l.spans.len()
        invariant
            i <= l.spans@.len(),
            r@ == spans_text(views_of(l.spans@).take(i as int)),
        decreases l.spans@.len() - i,
    {
        let mut j: usize = 0;
        let ghost before = r@;
        while j < l.spans[i].text.len()
            invariant
                i < l.spans@.len(),
                j <= l.spans@[i as int].text@.len(),
                r@ == before + l.spans@[i as int].text@.take(j as int),
            decreases l.spans@[i as int].text@.len() - j,
        {
            r.push(l.spans[i].text[j]);
            proof {
                assert(r@ =~= before + l.spans@[i as int].text@.take(j + 1 as int));
            }
            j += 1;
        }
        proof {
            assert(l.spans@[i as int].text@.take(l.spans@[i as int].text@.len() as int) =~= l.spans@[
                i as int].text@);
            assert(views_of(l.spans@).take(i + 1 as int).drop_last() =~= views_of(l.spans@).take(
                i as int));
            assert(views_of(l.spans@).take(i + 1 as int).last() == l.spans@[i as int]@);
        }
        i += 1;
    }
    proof {
        assert(views_of(l.spans@).take(l.spans@.len() as int) =~= views_of(l.spans@));
    }
    r
}

/// A span of the public output: text plus display style.
#[derive(Debug, PartialEq, Eq)]
pub struct StyledSpan {
    pub text: String,
    pub style: TextStyle,
}

impl View for StyledSpan {
    type V = SpanS;

    open spec fn view(&self) -> SpanS {
        SpanS { text: self.text@, style: self.style }
    }
}

/// A line of the public output: ordered spans plus a base style applied
/// beneath them.
#[derive(Debug, PartialEq, Eq)]
pub struct StyledLine {
    pub spans: Vec<StyledSpan>,
    pub style: TextStyle,
}

impl View for StyledLine {
    type V = LineS;

    open spec fn view(&self) -> LineS {
        LineS { spans: views_of(self.spans@), style: self.style }
    }
}

/// Converts a working line into the public string form.
pub fn to_styled_line(l: &RLine) -> (r: StyledLine)
    ensures
        r@ == l@,
{
    let mut spans: Vec<StyledSpan> = Vec::new();
    let mut i: usize = 0;
    while i < l.spans.len()
        invariant
            i <= l.spans@.len(),
            views_of(spans@) == views_of(l.spans@).take(i as int),
        decreases l.spans@.len() - i,
    {
        let text = chars_to_string(&l.spans[i].text);
        let s = StyledSpan { text, style: l.spans[i].style };
        proof {
            lemma_views_of_push(spans@, s);
        }
        spans.push(s);
        proof {
            assert(views_of(spans@) =~= views_of(l.spans@).take(i + 1 as int));
        }
        i += 1;
    }
    proof {
        assert(views_of(l.spans@).take(l.spans@.len() as int) =~= views_of(l.spans@));
    }
    StyledLine { spans, style: l.style }
}

/// Converts a vector of working lines into the public form.
pub fn to_styled_lines(ls: Vec<RLine>) -> (r: Vec<StyledLine>)
    ensures
        views_of(r@) == views_of(ls@),
{
    let mut r: Vec<StyledLine> = Vec::new();
    let mut i: usize = 0;
    while i < ls.len()
        invariant
            i <= ls@.len(),
            views_of(r@) == views_of(ls@).take(i as int),
        decreases ls@.len() - i,
    {
        let sl = to_styled_line(&ls[i]);
        proof {
            lemma_views_of_push(r@, sl);
            assert(views_of(r@).push(sl@) =~= views_of(ls@).take(i + 1 as int));
        }
        r.push(sl);
        i += 1;
    }
    proof {
        assert(views_of(ls@).take(ls@.len() as int) =~= views_of(ls@));
    }
    r
}

/// The plain text of one public line: its spans' texts concatenated.
pub fn line_to_plain_string(line: &StyledLine) -> (r: String)
    ensures
        r@ == line_text(line@),
{
    let mut out = String::new();
    let mut i: usize = 0;
    while i < line.spans.len()
        invariant
            i <= line.spans@.len(),
            out@ == spans_text(views_of(line.spans@).take(i as int)),
        decreases line.spans@.len() - i,
    {
        out.append(line.spans[i].text.as_str());
        proof {
            assert(views_of(line.spans@).take(i + 1 as int).drop_last() =~= views_of(
                line.spans@).take(i as int));
            assert(views_of(line.spans@).take(i + 1 as int).last() == line.spans@[i as int]@);
        }
        i += 1;
    }
    proof {
        assert(views_of(line.spans@).take(line.spans@.len() as int) =~= views_of(line.spans@));
    }
    out
}

} // verus!
