//! Display styles: colors, text attributes, the markdown palette, and the
//! syntax-highlighting palette keyed by capture category.

use vstd::prelude::*;

verus! {

/// A terminal foreground color.
#[derive(Clone, Copy, Debug, PartialEq, Eq, Structural)]
pub enum TermColor {
    Cyan,
    LightBlue,
    Green,
    Rgb(u8, u8, u8),
}

/// Display attributes attached to a span of text.
#[derive(Clone, Copy, Debug, PartialEq, Eq, Structural)]
pub struct TextStyle {
    pub fg: Option<TermColor>,
    pub bold: bool,
    pub italic: bool,
    pub underlined: bool,
    pub dim: bool,
    pub crossed_out: bool,
}

impl TextStyle {
    /// The empty style: no color, no attributes.
    #[verifier::allow_in_spec]
    pub fn plain() -> TextStyle
        returns
            (TextStyle {
                fg: None,
                bold: false,
                italic: false,
                underlined: false,
                dim: false,
                crossed_out: false,
            }),
    {
        TextStyle { fg: None, bold: false, italic: false, underlined: false, dim: false, crossed_out: false }
    }

    /// Overlays `other` on `self`: `other`'s color wins when set, and
    /// attributes accumulate.
    #[verifier::allow_in_spec]
    pub fn patch(self, other: TextStyle) -> TextStyle
        returns
            (TextStyle {
                fg: if other.fg is Some { other.fg } else { self.fg },
                bold: self.bold || other.bold,
                italic: self.italic || other.italic,
                underlined: self.underlined || other.underlined,
                dim: self.dim || other.dim,
                crossed_out: self.crossed_out || other.crossed_out,
            }),
    {
        TextStyle {
            fg: if other.fg.is_some() { other.fg } else { self.fg },
            bold: self.bold || other.bold,
            italic: self.italic || other.italic,
            underlined: self.underlined || other.underlined,
            dim: self.dim || other.dim,
            crossed_out: self.crossed_out || other.crossed_out,
        }
    }

    #[verifier::allow_in_spec]
    pub fn fg(self, color: TermColor) -> TextStyle
        returns
            (TextStyle { fg: Some(color), ..self }),
    {
        TextStyle { fg: Some(color), ..self }
    }

    #[verifier::allow_in_spec]
    pub fn bold(self) -> TextStyle
        returns
            (TextStyle { bold: true, ..self }),
    {
        TextStyle { bold: true, ..self }
    }

    #[verifier::allow_in_spec]
    pub fn italic(self) -> TextStyle
        returns
            (TextStyle { italic: true, ..self }),
    {
        TextStyle { italic: true, ..self }
    }

    #[verifier::allow_in_spec]
    pub fn underlined(self) -> TextStyle
        returns
            (TextStyle { underlined: true, ..self }),
    {
        TextStyle { underlined: true, ..self }
    }

    #[verifier::allow_in_spec]
    pub fn dim(self) -> TextStyle
        returns
            (TextStyle { dim: true, ..self }),
    {
        TextStyle { dim: true, ..self }
    }

    #[verifier::allow_in_spec]
    pub fn crossed_out(self) -> TextStyle
        returns
            (TextStyle { crossed_out: true, ..self }),
    {
        TextStyle { crossed_out: true, ..self }
    }
}

/// The fixed palette used by the markdown renderer.
pub struct MarkdownStyles {
    pub h1: TextStyle,
    pub h2: TextStyle,
    pub h3: TextStyle,
    pub h4: TextStyle,
    pub h5: TextStyle,
    pub h6: TextStyle,
    pub code: TextStyle,
    pub emphasis: TextStyle,
    pub strong: TextStyle,
    pub strikethrough: TextStyle,
    pub ordered_list_marker: TextStyle,
    pub unordered_list_marker: TextStyle,
    pub link: TextStyle,
    pub blockquote: TextStyle,
}

/// The default markdown palette.
pub open spec fn md_styles() -> MarkdownStyles {
    MarkdownStyles {
        h1: TextStyle::plain().bold().underlined(),
        h2: TextStyle::plain().bold(),
        h3: TextStyle::plain().bold().italic(),
        h4: TextStyle::plain().italic(),
        h5: TextStyle::plain().italic(),
        h6: TextStyle::plain().italic(),
        code: TextStyle::plain().fg(TermColor::Cyan),
        emphasis: TextStyle::plain().italic(),
        strong: TextStyle::plain().bold(),
        strikethrough: TextStyle::plain().crossed_out(),
        ordered_list_marker: TextStyle::plain().fg(TermColor::LightBlue),
        unordered_list_marker: TextStyle::plain(),
        link: TextStyle::plain().fg(TermColor::Cyan).underlined(),
        blockquote: TextStyle::plain().fg(TermColor::Green),
    }
}

impl Default for MarkdownStyles {
    fn default() -> (r: MarkdownStyles)
        ensures
            r == md_styles(),
    {
        MarkdownStyles {
            h1: TextStyle::plain().bold().underlined(),
            h2: TextStyle::plain().bold(),
            h3: TextStyle::plain().bold().italic(),
            h4: TextStyle::plain().italic(),
            h5: TextStyle::plain().italic(),
            h6: TextStyle::plain().italic(),
            code: TextStyle::plain().fg(TermColor::Cyan),
            emphasis: TextStyle::plain().italic(),
            strong: TextStyle::plain().bold(),
            strikethrough: TextStyle::plain().crossed_out(),
            ordered_list_marker: TextStyle::plain().fg(TermColor::LightBlue),
            unordered_list_marker: TextStyle::plain(),
            link: TextStyle::plain().fg(TermColor::Cyan).underlined(),
            blockquote: TextStyle::plain().fg(TermColor::Green),
        }
    }
}

} // verus!
