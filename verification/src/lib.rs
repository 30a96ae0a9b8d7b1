//! Markdown-to-terminal rendering: turns document text into a sequence of
//! width-bounded, styled lines ready for painting into a character grid.

pub mod capture;
pub mod events;
pub mod footer;
pub mod highlight;
pub mod language;
pub mod laws;
pub mod line;
pub mod normalize;
pub mod style;
pub mod table;
pub mod text;
pub mod wrap;
pub mod writer;

use vstd::prelude::*;

verus! {

/// Rendering configuration handed into every render call.
pub struct RenderConfig {
    /// Whether pipe tables are normalized and rendered as bordered tables.
    pub tables: bool,
}

impl RenderConfig {
    pub fn new() -> (r: RenderConfig)
        ensures
            !r.tables,
    {
        RenderConfig { tables: false }
    }
}

/// Turns table rendering on or off for subsequent render calls.
pub fn set_tables_enabled(config: &mut RenderConfig, enabled: bool)
    ensures
        final(config).tables == enabled,
{
    config.tables = enabled;
}

/// Reports whether table rendering is enabled.
pub fn tables_enabled(config: &RenderConfig) -> (r: bool)
    ensures
        r == config.tables,
{
    config.tables
}

/// What rendering a text yields: the text (normalized first when tables are
/// enabled) is parsed into events, and the reducer folds them into styled
/// lines. `table_budget` is the width cap used for table layout.
pub open spec fn render_spec(
    input: Seq<char>,
    width: Option<usize>,
    table_budget: usize,
    tables: bool,
) -> Seq<line::LineS> {
    let text = if tables {
        normalize::normalize_spec(input)
    } else {
        input
    };
    let evs = events::parsed_events(text, tables);
    writer::w_flush(writer::w_fold(writer::w_init(width, table_budget, tables), evs)).out
}

/// Relies on `crossterm::terminal::size`; the answer depends on the terminal
/// at this moment, so nothing is promised of it.
#[verifier::external_body]
fn terminal_width_cols() -> (r: Option<usize>)
{
    match crossterm::terminal::size() {
        Ok((cols, _rows)) => Some(cols as usize),
        Err(_) => None,
    }
}

/// Renders markdown text into styled terminal lines, wrapped at `width`
/// display columns when one is given. With no width and tables enabled, the
/// table layout budget falls back to the terminal's width, or a fixed
/// constant when that cannot be read.
pub fn render_markdown_text_with_width(input: &str, width: Option<usize>, config: &RenderConfig)
    -> (r: Vec<line::StyledLine>)
    ensures
        width is Some ==> line::views_of(r@) == render_spec(
            input@,
            width,
            width->0,
            config.tables,
        ),
        width is None && !config.tables ==> line::views_of(r@) == render_spec(
            input@,
            None,
            0,
            false,
        ),
        width is None && config.tables ==> exists|b: usize|
            line::views_of(r@) == render_spec(input@, None, b, true),
{
    let tables = config.tables;
    let budget: usize = match width {
        Some(w) => w,
        None => {
            if tables {
                match terminal_width_cols() {
                    Some(c) => c,
                    None => 160,
                }
            } else {
                0
            }
        },
    };
    let text: String = if tables {
        normalize::normalize_table_blocks(input)
    } else {
        text::chars_to_string(&text::str_chars(input))
    };
    let evs = events::parse_events(text.as_str(), tables);
    let mut w = writer::Writer::new(width, budget, tables);
    w.run(&evs);
    let mut out: Vec<line::RLine> = Vec::new();
    core::mem::swap(&mut out, &mut w.out);
    proof {
        if width is None && tables {
            assert(line::views_of(out@) == render_spec(input@, None, budget, true));
        }
    }
    line::to_styled_lines(out)
}

/// Renders markdown text into styled terminal lines without wrapping.
pub fn render_markdown_text(input: &str, config: &RenderConfig) -> (r: Vec<line::StyledLine>)
    ensures
        !config.tables ==> line::views_of(r@) == render_spec(input@, None, 0, false),
        config.tables ==> exists|b: usize|
            line::views_of(r@) == render_spec(input@, None, b, true),
{
    render_markdown_text_with_width(input, None, config)
}

} // verus!
