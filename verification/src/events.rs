//! The structural event vocabulary the renderer consumes, and its trusted
//! bridge to the outside document parser.

use pulldown_cmark::Alignment;
use pulldown_cmark::CodeBlockKind;
use pulldown_cmark::Event;
use pulldown_cmark::HeadingLevel;
use pulldown_cmark::Tag;
use pulldown_cmark::TagEnd;
use vstd::prelude::*;

verus! {

/// Column alignment of a table column.
#[derive(Clone, Copy, Debug, PartialEq, Eq, Structural)]
pub enum MdAlign {
    Unspecified,
    Left,
    Center,
    Right,
}

/// A block or inline element that opens.
pub enum MdTag {
    Paragraph,
    Heading(u8),
    BlockQuote,
    /// A code block: the fence info string for a fenced block, nothing for an
    /// indented one.
    CodeBlock(Option<Vec<char>>),
    /// A list: the starting ordinal for an ordered list.
    List(Option<u64>),
    Item,
    Emphasis,
    Strong,
    Strikethrough,
    /// A link with its destination.
    Link(Vec<char>),
    Table(Vec<MdAlign>),
    TableHead,
    TableRow,
    TableCell,
}

/// A block or inline element that closes.
#[derive(Clone, Copy, Debug, PartialEq, Eq, Structural)]
pub enum MdTagEnd {
    Paragraph,
    Heading,
    BlockQuote,
    CodeBlock,
    List,
    Item,
    Emphasis,
    Strong,
    Strikethrough,
    Link,
    Table,
    TableHead,
    TableRow,
    TableCell,
}

/// One structural event. Events the renderer does not model arrive as
/// `Other` and are ignored.
pub enum MdEvent {
    Start(MdTag),
    End(MdTagEnd),
    Text(Vec<char>),
    Code(Vec<char>),
    Html(Vec<char>),
    InlineHtml(Vec<char>),
    SoftBreak,
    HardBreak,
    Rule,
    Other,
}

#[verifier::external_type_specification]
#[verifier::external_body]
pub struct ExEvent<'a>(pulldown_cmark::Event<'a>);

#[verifier::external_type_specification]
#[verifier::external_body]
pub struct ExTag<'a>(pulldown_cmark::Tag<'a>);

#[verifier::external_type_specification]
#[verifier::external_body]
pub struct ExTagEnd(pulldown_cmark::TagEnd);

#[verifier::external_type_specification]
#[verifier::external_body]
pub struct ExHeadingLevel(pulldown_cmark::HeadingLevel);

#[verifier::external_type_specification]
#[verifier::external_body]
pub struct ExCodeBlockKind<'a>(pulldown_cmark::CodeBlockKind<'a>);

#[verifier::external_type_specification]
#[verifier::external_body]
pub struct ExAlignment(pulldown_cmark::Alignment);

/// The event stream the outside parser produces for a text, with tables
/// recognized or not: a function of the two arguments alone.
pub uninterp spec fn parsed_events(text: Seq<char>, tables: bool) -> Seq<MdEvent>;

/// Relies on `pulldown_cmark::Parser::new_ext`: parses the text with
/// strikethrough (and, when asked, tables) enabled, yielding a structural
/// event stream that depends on the text and options alone.
#[verifier::external_body]
pub fn parse_events(text: &str, tables: bool) -> (r: Vec<MdEvent>)
    ensures
        r@ == parsed_events(text@, tables),
{
    let mut options = pulldown_cmark::Options::empty();
    options.insert(pulldown_cmark::Options::ENABLE_STRIKETHROUGH);
    if tables {
        options.insert(pulldown_cmark::Options::ENABLE_TABLES);
    }
    pulldown_cmark::Parser::new_ext(text, options).map(|ev| convert_event(ev)).collect()
}

/// Converts one parser event into the renderer's vocabulary.
#[verifier::external_body]
fn convert_event(ev: pulldown_cmark::Event<'_>) -> (r: MdEvent) {
    match ev {
        Event::Start(tag) => convert_start(tag),
        Event::End(tag) => convert_end(tag),
        Event::Text(t) => MdEvent::Text(t.chars().collect()),
        Event::Code(c) => MdEvent::Code(c.chars().collect()),
        Event::Html(h) => MdEvent::Html(h.chars().collect()),
        Event::InlineHtml(h) => MdEvent::InlineHtml(h.chars().collect()),
        Event::SoftBreak => MdEvent::SoftBreak,
        Event::HardBreak => MdEvent::HardBreak,
        Event::Rule => MdEvent::Rule,
        _ => MdEvent::Other,
    }
}

/// Converts an opening tag.
#[verifier::external_body]
fn convert_start(tag: pulldown_cmark::Tag<'_>) -> (r: MdEvent) {
    match tag {
        Tag::Paragraph => MdEvent::Start(MdTag::Paragraph),
        Tag::Heading { level, .. } => MdEvent::Start(MdTag::Heading(heading_level_num(level))),
        Tag::BlockQuote(_) => MdEvent::Start(MdTag::BlockQuote),
        Tag::CodeBlock(kind) => convert_code_kind(kind),
        Tag::List(start) => MdEvent::Start(MdTag::List(start)),
        Tag::Item => MdEvent::Start(MdTag::Item),
        Tag::Emphasis => MdEvent::Start(MdTag::Emphasis),
        Tag::Strong => MdEvent::Start(MdTag::Strong),
        Tag::Strikethrough => MdEvent::Start(MdTag::Strikethrough),
        Tag::Link { dest_url, .. } => MdEvent::Start(MdTag::Link(dest_url.chars().collect())),
        Tag::Table(aligns) => convert_table_start(aligns),
        other => convert_start_rest(other),
    }
}

/// Converts the table-section opening tags; anything else is unmodeled.
#[verifier::external_body]
fn convert_start_rest(tag: pulldown_cmark::Tag<'_>) -> (r: MdEvent) {
    match tag {
        Tag::TableHead => MdEvent::Start(MdTag::TableHead),
        Tag::TableRow => MdEvent::Start(MdTag::TableRow),
        Tag::TableCell => MdEvent::Start(MdTag::TableCell),
        _ => MdEvent::Other,
    }
}

/// Converts a closing tag.
#[verifier::external_body]
fn convert_end(tag: pulldown_cmark::TagEnd) -> (r: MdEvent) {
    match tag {
        TagEnd::Paragraph => MdEvent::End(MdTagEnd::Paragraph),
        TagEnd::Heading(_) => MdEvent::End(MdTagEnd::Heading),
        TagEnd::BlockQuote => MdEvent::End(MdTagEnd::BlockQuote),
        TagEnd::CodeBlock => MdEvent::End(MdTagEnd::CodeBlock),
        TagEnd::List(_) => MdEvent::End(MdTagEnd::List),
        TagEnd::Item => MdEvent::End(MdTagEnd::Item),
        TagEnd::Emphasis => MdEvent::End(MdTagEnd::Emphasis),
        TagEnd::Strong => MdEvent::End(MdTagEnd::Strong),
        TagEnd::Strikethrough => MdEvent::End(MdTagEnd::Strikethrough),
        TagEnd::Link => MdEvent::End(MdTagEnd::Link),
        other => convert_end_rest(other),
    }
}

/// Converts the table-section closing tags; anything else is unmodeled.
#[verifier::external_body]
fn convert_end_rest(tag: pulldown_cmark::TagEnd) -> (r: MdEvent) {
    match tag {
        TagEnd::Table => MdEvent::End(MdTagEnd::Table),
        TagEnd::TableHead => MdEvent::End(MdTagEnd::TableHead),
        TagEnd::TableRow => MdEvent::End(MdTagEnd::TableRow),
        TagEnd::TableCell => MdEvent::End(MdTagEnd::TableCell),
        _ => MdEvent::Other,
    }
}

/// Converts a heading level to its numeric depth.
#[verifier::external_body]
fn heading_level_num(level: pulldown_cmark::HeadingLevel) -> (r: u8) {
    match level {
        HeadingLevel::H1 => 1,
        HeadingLevel::H2 => 2,
        HeadingLevel::H3 => 3,
        HeadingLevel::H4 => 4,
        HeadingLevel::H5 => 5,
        HeadingLevel::H6 => 6,
    }
}

/// Converts a code-block kind: the fence info string, or nothing when
/// indented.
#[verifier::external_body]
fn convert_code_kind(kind: pulldown_cmark::CodeBlockKind<'_>) -> (r: MdEvent) {
    match kind {
        CodeBlockKind::Fenced(info) => MdEvent::Start(MdTag::CodeBlock(Some(info.chars().collect()))),
        CodeBlockKind::Indented => MdEvent::Start(MdTag::CodeBlock(None)),
    }
}

/// Converts a table's column alignments.
#[verifier::external_body]
fn convert_table_start(aligns: Vec<pulldown_cmark::Alignment>) -> (r: MdEvent) {
    MdEvent::Start(MdTag::Table(aligns.iter().map(|a| convert_alignment(a)).collect()))
}

/// Converts one column alignment.
#[verifier::external_body]
fn convert_alignment(a: &pulldown_cmark::Alignment) -> (r: MdAlign) {
    match a {
        Alignment::None => MdAlign::Unspecified,
        Alignment::Left => MdAlign::Left,
        Alignment::Center => MdAlign::Center,
        Alignment::Right => MdAlign::Right,
    }
}

} // verus!
