//! The colour palette of the terminal interface.
use vstd::prelude::*;

verus! {

/// A 24-bit colour.
#[derive(Debug, Clone, Copy, PartialEq, Eq, Structural)]
pub struct Rgb {
    pub r: u8,
    pub g: u8,
    pub b: u8,
}

/// How a piece of text is drawn: its colour, and whether it is bold.
#[derive(Debug, Clone, Copy, PartialEq, Eq, Structural)]
pub struct Look {
    pub fg: Rgb,
    pub bold: bool,
}

/// The colours the interface draws with.
#[derive(Debug, Clone, Copy, PartialEq, Eq, Structural)]
pub struct Theme {
    pub background: Rgb,
    pub foreground: Rgb,
    pub muted: Rgb,
    pub accent: Rgb,
    pub active: Rgb,
    pub border: Rgb,
}

impl Theme {
    /// The dark palette the interface starts with.
    pub open spec fn dark() -> Theme {
        Theme {
            background: Rgb { r: 18, g: 20, b: 24 },
            foreground: Rgb { r: 225, g: 229, b: 235 },
            muted: Rgb { r: 130, g: 140, b: 153 },
            accent: Rgb { r: 92, g: 190, b: 170 },
            active: Rgb { r: 255, g: 193, b: 92 },
            border: Rgb { r: 65, g: 76, b: 88 },
        }
    }
}

impl Theme {
    /// Titles: the accent colour, bold.
    pub fn title(self) -> (look: Look)
        ensures
            look == (Look { fg: self.accent, bold: true }),
    {
        Look { fg: self.accent, bold: true }
    }

    /// Labels and the text of calls that are not selected: the muted colour.
    pub fn muted(self) -> (look: Look)
        ensures
            look == (Look { fg: self.muted, bold: false }),
    {
        Look { fg: self.muted, bold: false }
    }

    /// The status line and the selected call's title: the active colour, bold.
    pub fn active(self) -> (look: Look)
        ensures
            look == (Look { fg: self.active, bold: true }),
    {
        Look { fg: self.active, bold: true }
    }
}

impl Default for Theme {
    fn default() -> (theme: Self)
        ensures
            theme == Theme::dark(),
    {
        Theme {
            background: Rgb { r: 18, g: 20, b: 24 },
            foreground: Rgb { r: 225, g: 229, b: 235 },
            muted: Rgb { r: 130, g: 140, b: 153 },
            accent: Rgb { r: 92, g: 190, b: 170 },
            active: Rgb { r: 255, g: 193, b: 92 },
            border: Rgb { r: 65, g: 76, b: 88 },
        }
    }
}

} // verus!
