//! Capture categories assigned by syntax-highlighting queries, and the fixed
//! palette mapping each category to a display style.

use vstd::prelude::*;

use crate::language::HighlightLanguage;
use crate::line::views_of;
use crate::style::{TermColor, TextStyle};

verus! {

/// A semantic capture category recognized by the highlighting queries.
#[derive(Clone, Copy, Debug, PartialEq, Eq, Structural)]
pub enum Capture {
    Attribute,
    Boolean,
    Character,
    Comment,
    Constant,
    ConstantBuiltin,
    Constructor,
    Conditional,
    Embedded,
    Error,
    Escape,
    Exception,
    Function,
    FunctionBuiltin,
    Include,
    Keyword,
    Label,
    Method,
    Module,
    Namespace,
    Number,
    Operator,
    Parameter,
    Property,
    Punctuation,
    PunctuationBracket,
    PunctuationDelimiter,
    PunctuationSpecial,
    Repeat,
    Str,
    StrSpecial,
    StrEscape,
    Symbol,
    Tag,
    TagBuiltin,
    Ty,
    TyBuiltin,
    Variable,
    VariableBuiltin,
    VariableParameter,
    Unknown,
}

/// The capture category at a given position of the configured name list;
/// out-of-range positions are unknown.
pub open spec fn capture_at(i: int) -> Capture {
    if i == 0 {
        Capture::Attribute
    } else if i == 1 {
        Capture::Boolean
    } else if i == 2 {
        Capture::Character
    } else if i == 3 {
        Capture::Comment
    } else if i == 4 {
        Capture::Constant
    } else if i == 5 {
        Capture::ConstantBuiltin
    } else if i == 6 {
        Capture::Constructor
    } else if i == 7 {
        Capture::Conditional
    } else if i == 8 {
        Capture::Embedded
    } else if i == 9 {
        Capture::Error
    } else if i == 10 {
        Capture::Escape
    } else if i == 11 {
        Capture::Exception
    } else if i == 12 {
        Capture::Function
    } else if i == 13 {
        Capture::FunctionBuiltin
    } else if i == 14 {
        Capture::Include
    } else if i == 15 {
        Capture::Keyword
    } else if i == 16 {
        Capture::Label
    } else if i == 17 {
        Capture::Method
    } else if i == 18 {
        Capture::Module
    } else if i == 19 {
        Capture::Namespace
    } else if i == 20 {
        Capture::Number
    } else if i == 21 {
        Capture::Operator
    } else if i == 22 {
        Capture::Parameter
    } else if i == 23 {
        Capture::Property
    } else if i == 24 {
        Capture::Punctuation
    } else if i == 25 {
        Capture::PunctuationBracket
    } else if i == 26 {
        Capture::PunctuationDelimiter
    } else if i == 27 {
        Capture::PunctuationSpecial
    } else if i == 28 {
        Capture::Repeat
    } else if i == 29 {
        Capture::Str
    } else if i == 30 {
        Capture::StrSpecial
    } else if i == 31 {
        Capture::StrEscape
    } else if i == 32 {
        Capture::Symbol
    } else if i == 33 {
        Capture::Tag
    } else if i == 34 {
        Capture::TagBuiltin
    } else if i == 35 {
        Capture::Ty
    } else if i == 36 {
        Capture::TyBuiltin
    } else if i == 37 {
        Capture::Variable
    } else if i == 38 {
        Capture::VariableBuiltin
    } else if i == 39 {
        Capture::VariableParameter
    } else {
        Capture::Unknown
    }
}

/// Maps a highlight index reported by the highlighter to its capture
/// category.
pub fn capture_of_index(i: usize) -> (r: Capture)
    ensures
        r == capture_at(i as int),
{
    if i == 0 {
        Capture::Attribute
    } else if i == 1 {
        Capture::Boolean
    } else if i == 2 {
        Capture::Character
    } else if i == 3 {
        Capture::Comment
    } else if i == 4 {
        Capture::Constant
    } else if i == 5 {
        Capture::ConstantBuiltin
    } else if i == 6 {
        Capture::Constructor
    } else if i == 7 {
        Capture::Conditional
    } else if i == 8 {
        Capture::Embedded
    } else if i == 9 {
        Capture::Error
    } else if i == 10 {
        Capture::Escape
    } else if i == 11 {
        Capture::Exception
    } else if i == 12 {
        Capture::Function
    } else if i == 13 {
        Capture::FunctionBuiltin
    } else if i == 14 {
        Capture::Include
    } else if i == 15 {
        Capture::Keyword
    } else if i == 16 {
        Capture::Label
    } else if i == 17 {
        Capture::Method
    } else if i == 18 {
        Capture::Module
    } else if i == 19 {
        Capture::Namespace
    } else if i == 20 {
        Capture::Number
    } else if i == 21 {
        Capture::Operator
    } else if i == 22 {
        Capture::Parameter
    } else if i == 23 {
        Capture::Property
    } else if i == 24 {
        Capture::Punctuation
    } else if i == 25 {
        Capture::PunctuationBracket
    } else if i == 26 {
        Capture::PunctuationDelimiter
    } else if i == 27 {
        Capture::PunctuationSpecial
    } else if i == 28 {
        Capture::Repeat
    } else if i == 29 {
        Capture::Str
    } else if i == 30 {
        Capture::StrSpecial
    } else if i == 31 {
        Capture::StrEscape
    } else if i == 32 {
        Capture::Symbol
    } else if i == 33 {
        Capture::Tag
    } else if i == 34 {
        Capture::TagBuiltin
    } else if i == 35 {
        Capture::Ty
    } else if i == 36 {
        Capture::TyBuiltin
    } else if i == 37 {
        Capture::Variable
    } else if i == 38 {
        Capture::VariableBuiltin
    } else if i == 39 {
        Capture::VariableParameter
    } else {
        Capture::Unknown
    }
}

/// The capture names handed to the highlighter's configuration, in the order
/// matching `capture_at`.
pub open spec fn names_spec() -> Seq<Seq<char>> {
    seq![
        "attribute"@,
        "boolean"@,
        "character"@,
        "comment"@,
        "constant"@,
        "constant.builtin"@,
        "constructor"@,
        "conditional"@,
        "embedded"@,
        "error"@,
        "escape"@,
        "exception"@,
        "function"@,
        "function.builtin"@,
        "include"@,
        "keyword"@,
        "label"@,
        "method"@,
        "module"@,
        "namespace"@,
        "number"@,
        "operator"@,
        "parameter"@,
        "property"@,
        "punctuation"@,
        "punctuation.bracket"@,
        "punctuation.delimiter"@,
        "punctuation.special"@,
        "repeat"@,
        "string"@,
        "string.special"@,
        "string.escape"@,
        "symbol"@,
        "tag"@,
        "tag.builtin"@,
        "type"@,
        "type.builtin"@,
        "variable"@,
        "variable.builtin"@,
        "variable.parameter"@,
    ]
}

/// Builds the capture-name list handed to every highlighter configuration.
pub fn highlight_names() -> (r: Vec<String>)
    ensures
        views_of(r@) == names_spec(),
{
    let mut v: Vec<String> = Vec::new();
    v.push(String::from_str("attribute"));
    v.push(String::from_str("boolean"));
    v.push(String::from_str("character"));
    v.push(String::from_str("comment"));
    v.push(String::from_str("constant"));
    v.push(String::from_str("constant.builtin"));
    v.push(String::from_str("constructor"));
    v.push(String::from_str("conditional"));
    v.push(String::from_str("embedded"));
    v.push(String::from_str("error"));
    v.push(String::from_str("escape"));
    v.push(String::from_str("exception"));
    v.push(String::from_str("function"));
    v.push(String::from_str("function.builtin"));
    v.push(String::from_str("include"));
    v.push(String::from_str("keyword"));
    v.push(String::from_str("label"));
    v.push(String::from_str("method"));
    v.push(String::from_str("module"));
    v.push(String::from_str("namespace"));
    v.push(String::from_str("number"));
    v.push(String::from_str("operator"));
    v.push(String::from_str("parameter"));
    v.push(String::from_str("property"));
    v.push(String::from_str("punctuation"));
    v.push(String::from_str("punctuation.bracket"));
    v.push(String::from_str("punctuation.delimiter"));
    v.push(String::from_str("punctuation.special"));
    v.push(String::from_str("repeat"));
    v.push(String::from_str("string"));
    v.push(String::from_str("string.special"));
    v.push(String::from_str("string.escape"));
    v.push(String::from_str("symbol"));
    v.push(String::from_str("tag"));
    v.push(String::from_str("tag.builtin"));
    v.push(String::from_str("type"));
    v.push(String::from_str("type.builtin"));
    v.push(String::from_str("variable"));
    v.push(String::from_str("variable.builtin"));
    v.push(String::from_str("variable.parameter"));
    proof {
        assert(views_of(v@) =~= names_spec());
    }
    v
}

/// The display style of a capture category. Bash stays conservative: only
/// comments, operators and strings are dimmed; every other language draws
/// from a fixed dark palette of foreground colors.
pub open spec fn capture_style(lang: HighlightLanguage, capture: Capture) -> TextStyle {
    if lang == HighlightLanguage::Bash {
        match capture {
            Capture::Comment => TextStyle::plain().dim(),
            Capture::Operator => TextStyle::plain().dim(),
            Capture::Str => TextStyle::plain().dim(),
            _ => TextStyle::plain(),
        }
    } else {
        match capture {
            Capture::Comment => TextStyle::plain().fg(TermColor::Rgb(128, 128, 128)).dim(),
            Capture::Str => TextStyle::plain().fg(TermColor::Rgb(106, 135, 89)),
            Capture::StrSpecial => TextStyle::plain().fg(TermColor::Rgb(106, 135, 89)),
            Capture::StrEscape => TextStyle::plain().fg(TermColor::Rgb(106, 135, 89)),
            Capture::Character => TextStyle::plain().fg(TermColor::Rgb(106, 135, 89)),
            Capture::Escape => TextStyle::plain().fg(TermColor::Rgb(106, 135, 89)),
            Capture::Number => TextStyle::plain().fg(TermColor::Rgb(104, 151, 187)),
            Capture::Boolean => TextStyle::plain().fg(TermColor::Rgb(104, 151, 187)),
            Capture::Keyword => TextStyle::plain().fg(TermColor::Rgb(204, 120, 50)).bold(),
            Capture::Include => TextStyle::plain().fg(TermColor::Rgb(204, 120, 50)).bold(),
            Capture::Conditional => TextStyle::plain().fg(TermColor::Rgb(204, 120, 50)).bold(),
            Capture::Exception => TextStyle::plain().fg(TermColor::Rgb(204, 120, 50)).bold(),
            Capture::Repeat => TextStyle::plain().fg(TermColor::Rgb(204, 120, 50)).bold(),
            Capture::Operator => TextStyle::plain().fg(TermColor::Rgb(169, 183, 198)).dim(),
            Capture::Punctuation => TextStyle::plain().fg(TermColor::Rgb(169, 183, 198)).dim(),
            Capture::PunctuationBracket => TextStyle::plain().fg(
                TermColor::Rgb(169, 183, 198),
            ).dim(),
            Capture::PunctuationDelimiter => TextStyle::plain().fg(
                TermColor::Rgb(169, 183, 198),
            ).dim(),
            Capture::PunctuationSpecial => TextStyle::plain().fg(
                TermColor::Rgb(169, 183, 198),
            ).dim(),
            Capture::Function => TextStyle::plain().fg(TermColor::Rgb(255, 198, 109)),
            Capture::FunctionBuiltin => TextStyle::plain().fg(TermColor::Rgb(255, 198, 109)),
            Capture::Constructor => TextStyle::plain().fg(TermColor::Rgb(255, 198, 109)),
            Capture::Method => TextStyle::plain().fg(TermColor::Rgb(255, 198, 109)),
            Capture::Ty => TextStyle::plain().fg(TermColor::Rgb(152, 118, 170)),
            Capture::TyBuiltin => TextStyle::plain().fg(TermColor::Rgb(152, 118, 170)),
            Capture::Constant => TextStyle::plain().fg(TermColor::Rgb(152, 118, 170)),
            Capture::ConstantBuiltin => TextStyle::plain().fg(TermColor::Rgb(152, 118, 170)),
            Capture::Symbol => TextStyle::plain().fg(TermColor::Rgb(152, 118, 170)),
            Capture::Variable => TextStyle::plain().fg(TermColor::Rgb(169, 183, 198)),
            Capture::VariableParameter => TextStyle::plain().fg(TermColor::Rgb(169, 183, 198)),
            Capture::VariableBuiltin => TextStyle::plain().fg(TermColor::Rgb(169, 183, 198)),
            Capture::Parameter => TextStyle::plain().fg(TermColor::Rgb(169, 183, 198)),
            Capture::Property => TextStyle::plain().fg(TermColor::Rgb(187, 181, 41)),
            Capture::Attribute => TextStyle::plain().fg(TermColor::Rgb(187, 181, 41)),
            Capture::Tag => TextStyle::plain().fg(TermColor::Rgb(204, 120, 50)),
            Capture::TagBuiltin => TextStyle::plain().fg(TermColor::Rgb(204, 120, 50)),
            Capture::Module => TextStyle::plain().fg(TermColor::Rgb(169, 183, 198)),
            Capture::Namespace => TextStyle::plain().fg(TermColor::Rgb(169, 183, 198)),
            Capture::Label => TextStyle::plain().fg(TermColor::Rgb(152, 118, 170)),
            Capture::Embedded => TextStyle::plain().fg(TermColor::Rgb(106, 135, 89)),
            Capture::Error => TextStyle::plain().fg(TermColor::Rgb(255, 85, 85)).bold(),
            _ => TextStyle::plain(),
        }
    }
}

/// Computes the display style of a capture category for a language.
pub fn style_for_capture(lang: HighlightLanguage, capture: Capture) -> (r: TextStyle)
    ensures
        r == capture_style(lang, capture),
{
    if lang == HighlightLanguage::Bash {
        match capture {
            Capture::Comment => TextStyle::plain().dim(),
            Capture::Operator => TextStyle::plain().dim(),
            Capture::Str => TextStyle::plain().dim(),
            _ => TextStyle::plain(),
        }
    } else {
        match capture {
            Capture::Comment => TextStyle::plain().fg(TermColor::Rgb(128, 128, 128)).dim(),
            Capture::Str => TextStyle::plain().fg(TermColor::Rgb(106, 135, 89)),
            Capture::StrSpecial => TextStyle::plain().fg(TermColor::Rgb(106, 135, 89)),
            Capture::StrEscape => TextStyle::plain().fg(TermColor::Rgb(106, 135, 89)),
            Capture::Character => TextStyle::plain().fg(TermColor::Rgb(106, 135, 89)),
            Capture::Escape => TextStyle::plain().fg(TermColor::Rgb(106, 135, 89)),
            Capture::Number => TextStyle::plain().fg(TermColor::Rgb(104, 151, 187)),
            Capture::Boolean => TextStyle::plain().fg(TermColor::Rgb(104, 151, 187)),
            Capture::Keyword => TextStyle::plain().fg(TermColor::Rgb(204, 120, 50)).bold(),
            Capture::Include => TextStyle::plain().fg(TermColor::Rgb(204, 120, 50)).bold(),
            Capture::Conditional => TextStyle::plain().fg(TermColor::Rgb(204, 120, 50)).bold(),
            Capture::Exception => TextStyle::plain().fg(TermColor::Rgb(204, 120, 50)).bold(),
            Capture::Repeat => TextStyle::plain().fg(TermColor::Rgb(204, 120, 50)).bold(),
            Capture::Operator => TextStyle::plain().fg(TermColor::Rgb(169, 183, 198)).dim(),
            Capture::Punctuation => TextStyle::plain().fg(TermColor::Rgb(169, 183, 198)).dim(),
            Capture::PunctuationBracket => TextStyle::plain().fg(
                TermColor::Rgb(169, 183, 198),
            ).dim(),
            Capture::PunctuationDelimiter => TextStyle::plain().fg(
                TermColor::Rgb(169, 183, 198),
            ).dim(),
            Capture::PunctuationSpecial => TextStyle::plain().fg(
                TermColor::Rgb(169, 183, 198),
            ).dim(),
            Capture::Function => TextStyle::plain().fg(TermColor::Rgb(255, 198, 109)),
            Capture::FunctionBuiltin => TextStyle::plain().fg(TermColor::Rgb(255, 198, 109)),
            Capture::Constructor => TextStyle::plain().fg(TermColor::Rgb(255, 198, 109)),
            Capture::Method => TextStyle::plain().fg(TermColor::Rgb(255, 198, 109)),
            Capture::Ty => TextStyle::plain().fg(TermColor::Rgb(152, 118, 170)),
            Capture::TyBuiltin => TextStyle::plain().fg(TermColor::Rgb(152, 118, 170)),
            Capture::Constant => TextStyle::plain().fg(TermColor::Rgb(152, 118, 170)),
            Capture::ConstantBuiltin => TextStyle::plain().fg(TermColor::Rgb(152, 118, 170)),
            Capture::Symbol => TextStyle::plain().fg(TermColor::Rgb(152, 118, 170)),
            Capture::Variable => TextStyle::plain().fg(TermColor::Rgb(169, 183, 198)),
            Capture::VariableParameter => TextStyle::plain().fg(TermColor::Rgb(169, 183, 198)),
            Capture::VariableBuiltin => TextStyle::plain().fg(TermColor::Rgb(169, 183, 198)),
            Capture::Parameter => TextStyle::plain().fg(TermColor::Rgb(169, 183, 198)),
            Capture::Property => TextStyle::plain().fg(TermColor::Rgb(187, 181, 41)),
            Capture::Attribute => TextStyle::plain().fg(TermColor::Rgb(187, 181, 41)),
            Capture::Tag => TextStyle::plain().fg(TermColor::Rgb(204, 120, 50)),
            Capture::TagBuiltin => TextStyle::plain().fg(TermColor::Rgb(204, 120, 50)),
            Capture::Module => TextStyle::plain().fg(TermColor::Rgb(169, 183, 198)),
            Capture::Namespace => TextStyle::plain().fg(TermColor::Rgb(169, 183, 198)),
            Capture::Label => TextStyle::plain().fg(TermColor::Rgb(152, 118, 170)),
            Capture::Embedded => TextStyle::plain().fg(TermColor::Rgb(106, 135, 89)),
            Capture::Error => TextStyle::plain().fg(TermColor::Rgb(255, 85, 85)).bold(),
            _ => TextStyle::plain(),
        }
    }
}

} // verus!
