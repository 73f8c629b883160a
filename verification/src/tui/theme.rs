//! The two colour themes of the browser.

use vstd::prelude::*;

verus! {

/// A user-selectable colour palette.
#[derive(Debug, Clone, Copy, PartialEq, Eq, Structural)]
pub enum Theme {
    Dark,
    Light,
}

impl Default for Theme {
    fn default() -> (t: Self)
        ensures
            t == Theme::Dark,
    {
        Theme::Dark
    }
}

impl Theme {
    /// The other theme.
    pub open spec fn spec_next(self) -> Theme {
        match self {
            Theme::Dark => Theme::Light,
            Theme::Light => Theme::Dark,
        }
    }

    /// The other theme.
    pub fn next(self) -> (t: Self)
        ensures
            t == self.spec_next(),
            t != self,
    {
        match self {
            Theme::Dark => Theme::Light,
            Theme::Light => Theme::Dark,
        }
    }
}

/// Switching theme twice comes back to the start.
pub proof fn lemma_theme_next_twice(t: Theme)
    ensures
        t.spec_next().spec_next() == t,
{
}

/// A terminal colour: a named one, the terminal default (`Reset`), or RGB.
#[derive(Debug, Clone, Copy, PartialEq, Eq, Structural)]
pub enum Color {
    Reset,
    Black,
    White,
    Gray,
    DarkGray,
    Cyan,
    Blue,
    Yellow,
    Green,
    Red,
    Magenta,
    Rgb(u8, u8, u8),
}

/// Concrete colours of a theme.
#[derive(Debug, Clone, Copy, PartialEq, Eq, Structural)]
pub struct Palette {
    pub bg: Color,
    pub fg: Color,
    pub border_focus: Color,
    pub border_blur: Color,
    pub title: Color,
    pub selection_bg: Color,
    pub selection_fg: Color,
    pub status_bg: Color,
    pub status_fg: Color,
    pub modified: Color,
    pub added: Color,
    pub removed: Color,
    pub dim: Color,
    pub dir: Color,
    pub file: Color,
    pub archive: Color,
    pub vfat_long: Color,
    pub error: Color,
    pub warn: Color,
    pub ok: Color,
}

/// The colours of each theme.
pub open spec fn spec_palette(t: Theme) -> Palette {
    match t {
        Theme::Dark => Palette {
            bg: Color::Reset,
            fg: Color::Reset,
            border_focus: Color::Cyan,
            border_blur: Color::DarkGray,
            title: Color::White,
            selection_bg: Color::Rgb(40, 44, 52),
            selection_fg: Color::White,
            status_bg: Color::Rgb(30, 30, 30),
            status_fg: Color::Gray,
            modified: Color::Yellow,
            added: Color::Green,
            removed: Color::Red,
            dim: Color::DarkGray,
            dir: Color::Blue,
            file: Color::Reset,
            archive: Color::Green,
            vfat_long: Color::Magenta,
            error: Color::Red,
            warn: Color::Yellow,
            ok: Color::Green,
        },
        Theme::Light => Palette {
            bg: Color::Reset,
            fg: Color::Reset,
            border_focus: Color::Blue,
            border_blur: Color::Gray,
            title: Color::Black,
            selection_bg: Color::Rgb(220, 230, 240),
            selection_fg: Color::Black,
            status_bg: Color::Rgb(230, 230, 230),
            status_fg: Color::DarkGray,
            modified: Color::Rgb(180, 130, 0),
            added: Color::Rgb(0, 130, 0),
            removed: Color::Rgb(180, 0, 0),
            dim: Color::Gray,
            dir: Color::Blue,
            file: Color::Reset,
            archive: Color::Rgb(0, 130, 0),
            vfat_long: Color::Magenta,
            error: Color::Red,
            warn: Color::Rgb(180, 130, 0),
            ok: Color::Rgb(0, 130, 0),
        },
    }
}

impl Theme {
    /// The colours of this theme.
    pub fn palette(self) -> (p: Palette)
        ensures
            p == spec_palette(self),
    {
        match self {
            Theme::Dark => Palette {
                bg: Color::Reset,
                fg: Color::Reset,
                border_focus: Color::Cyan,
                border_blur: Color::DarkGray,
                title: Color::White,
                selection_bg: Color::Rgb(40, 44, 52),
                selection_fg: Color::White,
                status_bg: Color::Rgb(30, 30, 30),
                status_fg: Color::Gray,
                modified: Color::Yellow,
                added: Color::Green,
                removed: Color::Red,
                dim: Color::DarkGray,
                dir: Color::Blue,
                file: Color::Reset,
                archive: Color::Green,
                vfat_long: Color::Magenta,
                error: Color::Red,
                warn: Color::Yellow,
                ok: Color::Green,
            },
            Theme::Light => Palette {
                bg: Color::Reset,
                fg: Color::Reset,
                border_focus: Color::Blue,
                border_blur: Color::Gray,
                title: Color::Black,
                selection_bg: Color::Rgb(220, 230, 240),
                selection_fg: Color::Black,
                status_bg: Color::Rgb(230, 230, 230),
                status_fg: Color::DarkGray,
                modified: Color::Rgb(180, 130, 0),
                added: Color::Rgb(0, 130, 0),
                removed: Color::Rgb(180, 0, 0),
                dim: Color::Gray,
                dir: Color::Blue,
                file: Color::Reset,
                archive: Color::Rgb(0, 130, 0),
                vfat_long: Color::Magenta,
                error: Color::Red,
                warn: Color::Rgb(180, 130, 0),
                ok: Color::Rgb(0, 130, 0),
            },
        }
    }
}

} // verus!
