//! The colours of the viewer.

use vstd::prelude::*;

verus! {

/// A 24-bit colour.
#[derive(Debug, Clone, Copy, PartialEq, Eq, Structural)]
pub struct Rgb {
    pub r: u8,
    pub g: u8,
    pub b: u8,
}

pub open spec fn rgb(r: u8, g: u8, b: u8) -> Rgb {
    Rgb { r, g, b }
}

/// The colour of each part of the screen.
#[derive(Debug, Clone, Copy, PartialEq, Eq, Structural)]
pub struct Theme {
    pub base_fg: Rgb,
    pub add_bg: Rgb,
    pub add_fg: Rgb,
    pub del_bg: Rgb,
    pub del_fg: Rgb,
    pub meta_fg: Rgb,
    pub warn_bg: Rgb,
    pub warn_fg: Rgb,
    pub border_left: Rgb,
    pub border_right: Rgb,
    pub header_chip_bg: Rgb,
    pub header_chip_fg: Rgb,
    pub footer_fg: Rgb,
    pub dim_fg: Rgb,
}

/// The colours of GitHub's dark theme.
pub open spec fn github_dark_spec() -> Theme {
    Theme {
        base_fg: rgb(201, 209, 217),
        add_bg: rgb(14, 68, 41),
        add_fg: rgb(201, 209, 217),
        del_bg: rgb(76, 30, 30),
        del_fg: rgb(201, 209, 217),
        meta_fg: rgb(201, 209, 217),
        warn_bg: rgb(45, 29, 0),
        warn_fg: rgb(255, 193, 7),
        border_left: rgb(239, 68, 68),
        border_right: rgb(34, 197, 94),
        header_chip_bg: rgb(33, 38, 45),
        header_chip_fg: rgb(201, 209, 217),
        footer_fg: rgb(139, 148, 158),
        dim_fg: rgb(139, 148, 158),
    }
}

impl Theme {
    /// The colours of GitHub's dark theme.
    pub fn github_dark() -> (t: Theme)
        ensures
            t == github_dark_spec(),
    {
        Theme {
            base_fg: Rgb { r: 201, g: 209, b: 217 },
            add_bg: Rgb { r: 14, g: 68, b: 41 },
            add_fg: Rgb { r: 201, g: 209, b: 217 },
            del_bg: Rgb { r: 76, g: 30, b: 30 },
            del_fg: Rgb { r: 201, g: 209, b: 217 },
            meta_fg: Rgb { r: 201, g: 209, b: 217 },
            warn_bg: Rgb { r: 45, g: 29, b: 0 },
            warn_fg: Rgb { r: 255, g: 193, b: 7 },
            border_left: Rgb { r: 239, g: 68, b: 68 },
            border_right: Rgb { r: 34, g: 197, b: 94 },
            header_chip_bg: Rgb { r: 33, g: 38, b: 45 },
            header_chip_fg: Rgb { r: 201, g: 209, b: 217 },
            footer_fg: Rgb { r: 139, g: 148, b: 158 },
            dim_fg: Rgb { r: 139, g: 148, b: 158 },
        }
    }
}

} // verus!
