//! How each kind of span is drawn.

use crate::recognize::SpanKind;
use vstd::prelude::*;

verus! {

/// Font size of a header with a single `#`, the largest.
pub const MAX_HEADER_SIZE: u32 = 26;

/// Font size below which no header shrinks.
pub const MIN_HEADER_SIZE: u32 = 16;

/// What each `#` beyond the first takes off the font size.
pub const HEADER_STEP: u32 = 4;

/// Font size of everything but headers.
pub const TEXT_SIZE: u32 = 14;

/// An opaque colour.
#[derive(Copy, Clone, Debug, PartialEq, Eq, Structural)]
pub struct Color {
    pub r: u8,
    pub g: u8,
    pub b: u8,
}

/// The look of a span.
#[derive(Copy, Clone, Debug, PartialEq, Eq, Structural)]
pub struct TextFormat {
    /// Font size in points.
    pub font_size: u32,
    /// Monospaced rather than proportional.
    pub monospace: bool,
    /// Colour of the glyphs.
    pub color: Color,
    /// Colour behind the glyphs, if any.
    pub background: Option<Color>,
}

/// Colour of ordinary text.
pub open spec fn light_gray() -> Color {
    Color { r: 220, g: 220, b: 220 }
}

/// Colour behind inline code.
pub open spec fn dark_gray() -> Color {
    Color { r: 96, g: 96, b: 96 }
}

/// Colour of a cancelled task.
pub open spec fn dark_red() -> Color {
    Color { r: 139, g: 0, b: 0 }
}

/// Colour of a completed task.
pub open spec fn dark_green() -> Color {
    Color { r: 0, g: 100, b: 0 }
}

/// Colour of a hyperlink.
pub open spec fn link_blue() -> Color {
    Color { r: 100, g: 168, b: 248 }
}

/// Font size of a header introduced by `hashes` `#`: the largest size less
/// one step for each `#` beyond the first, but never under the smallest.
pub open spec fn header_size(hashes: int) -> int {
    let beyond = if hashes > 1 {
        hashes - 1
    } else {
        0
    };
    let shrunk = MAX_HEADER_SIZE - HEADER_STEP * beyond;
    if shrunk < MIN_HEADER_SIZE {
        MIN_HEADER_SIZE as int
    } else {
        shrunk
    }
}

/// The look of each kind of span.
pub open spec fn format_of(kind: SpanKind) -> TextFormat {
    match kind {
        SpanKind::Plain | SpanKind::OpenTask => TextFormat {
            font_size: TEXT_SIZE,
            monospace: false,
            color: light_gray(),
            background: None,
        },
        SpanKind::Header { hashes } => TextFormat {
            font_size: header_size(hashes as int) as u32,
            monospace: false,
            color: light_gray(),
            background: None,
        },
        SpanKind::CancelledTask => TextFormat {
            font_size: TEXT_SIZE,
            monospace: false,
            color: dark_red(),
            background: None,
        },
        SpanKind::CompletedTask => TextFormat {
            font_size: TEXT_SIZE,
            monospace: false,
            color: dark_green(),
            background: None,
        },
        SpanKind::Code => TextFormat {
            font_size: TEXT_SIZE,
            monospace: true,
            color: light_gray(),
            background: Some(dark_gray()),
        },
        SpanKind::Link => TextFormat {
            font_size: TEXT_SIZE,
            monospace: true,
            color: link_blue(),
            background: None,
        },
    }
}

/// Header sizes: one `#` gives the largest size, three a strictly smaller
/// one; more `#` never enlarge; from four `#` on the size is the smallest
/// and stays there.
pub proof fn lemma_header_sizes(hashes: int, more: int)
    requires
        hashes <= more,
    ensures
        header_size(1) == MAX_HEADER_SIZE,
        header_size(3) < header_size(1),
        MIN_HEADER_SIZE <= header_size(more) <= header_size(hashes) <= MAX_HEADER_SIZE,
        hashes >= 4 ==> header_size(hashes) == MIN_HEADER_SIZE,
        hashes < 4 ==> header_size(hashes) > MIN_HEADER_SIZE,
{
}

/// Computes the font size of a header.
pub fn header_font_size(hashes: usize) -> (size: u32)
    ensures
        size == header_size(hashes as int),
{
    if hashes <= 1 {
        MAX_HEADER_SIZE
    } else if hashes >= 4 {
        MIN_HEADER_SIZE
    } else {
        let beyond: u32 = (hashes - 1) as u32;
        MAX_HEADER_SIZE - HEADER_STEP * beyond
    }
}

impl SpanKind {
    /// The look of a span of this kind.
    pub fn format(&self) -> (look: TextFormat)
        ensures
            look == format_of(*self),
    {
        let gray = Color { r: 220, g: 220, b: 220 };
        match self {
            SpanKind::Plain | SpanKind::OpenTask => TextFormat {
                font_size: TEXT_SIZE,
                monospace: false,
                color: gray,
                background: None,
            },
            SpanKind::Header { hashes } => TextFormat {
                font_size: header_font_size(*hashes),
                monospace: false,
                color: gray,
                background: None,
            },
            SpanKind::CancelledTask => TextFormat {
                font_size: TEXT_SIZE,
                monospace: false,
                color: Color { r: 139, g: 0, b: 0 },
                background: None,
            },
            SpanKind::CompletedTask => TextFormat {
                font_size: TEXT_SIZE,
                monospace: false,
                color: Color { r: 0, g: 100, b: 0 },
                background: None,
            },
            SpanKind::Code => TextFormat {
                font_size: TEXT_SIZE,
                monospace: true,
                color: gray,
                background: Some(Color { r: 96, g: 96, b: 96 }),
            },
            SpanKind::Link => TextFormat {
                font_size: TEXT_SIZE,
                monospace: true,
                color: Color { r: 100, g: 168, b: 248 },
                background: None,
            },
        }
    }
}

} // verus!
