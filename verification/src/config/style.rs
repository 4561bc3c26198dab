use vstd::prelude::*;

use super::ColorScheme;

verus! {

/// An 8-bit RGBA colour, as `tiny_skia::Color::from_rgba8` takes it.
#[derive(Clone, Copy, PartialEq, Eq, Structural, Debug)]
pub struct Rgba8 {
    pub r: u8,
    pub g: u8,
    pub b: u8,
    pub a: u8,
}

/// The colour with the given channels.
pub open spec fn rgba(r: u8, g: u8, b: u8, a: u8) -> Rgba8 {
    Rgba8 { r, g, b, a }
}

pub fn from_rgba8(r: u8, g: u8, b: u8, a: u8) -> (c: Rgba8)
    ensures
        c == rgba(r, g, b, a),
{
    Rgba8 { r, g, b, a }
}

/// The colours of the rendered parts of the chosen colour scheme.
pub struct Palette {
    pub canvas_bg: Rgba8,
    pub diff_style: DiffStyle,
    pub status_style: StatusStyle,
}

impl Palette {
    /// The canvas background and the diff and status colours of `scheme`.
    pub fn for_scheme(scheme: ColorScheme) -> (p: Self)
        ensures
            scheme == ColorScheme::Dark ==> p.canvas_bg == rgba(24, 24, 27, 255) && p.diff_style
                == DiffStyle::dark_spec() && p.status_style == StatusStyle::dark_spec(),
            scheme == ColorScheme::Light ==> p.canvas_bg == rgba(255, 255, 255, 255)
                && p.diff_style == DiffStyle::light_spec() && p.status_style
                == StatusStyle::light_spec(),
    {
        match scheme {
            ColorScheme::Dark => Palette {
                canvas_bg: from_rgba8(24, 24, 27, 255),
                diff_style: DiffStyle::dark(),
                status_style: StatusStyle::dark(),
            },
            ColorScheme::Light => Palette {
                canvas_bg: from_rgba8(255, 255, 255, 255),
                diff_style: DiffStyle::light(),
                status_style: StatusStyle::light(),
            },
        }
    }
}

// ── DiffStyle ───────────────────────────────────────────────────────
#[derive(Clone, Copy, Debug)]
pub struct DiffStyle {
    pub added_bg: Rgba8,
    pub deleted_bg: Rgba8,
    pub separator_bg: Rgba8,
    pub added_fg: (u8, u8, u8),
    pub deleted_fg: (u8, u8, u8),
    pub hunk_fg: (u8, u8, u8),
    pub file_fg: (u8, u8, u8),
    pub default_fg: (u8, u8, u8),
}

impl DiffStyle {
    pub open spec fn dark_spec() -> Self {
        DiffStyle {
            added_bg: rgba(46, 160, 67, 30),
            deleted_bg: rgba(248, 81, 73, 30),
            separator_bg: rgba(48, 54, 61, 255),
            added_fg: (63, 185, 80),
            deleted_fg: (248, 81, 73),
            hunk_fg: (187, 128, 230),
            file_fg: (88, 166, 255),
            default_fg: (201, 209, 217),
        }
    }

    pub open spec fn light_spec() -> Self {
        DiffStyle {
            added_bg: rgba(46, 160, 67, 25),
            deleted_bg: rgba(248, 81, 73, 25),
            separator_bg: rgba(216, 222, 228, 255),
            added_fg: (26, 127, 55),
            deleted_fg: (207, 34, 46),
            hunk_fg: (111, 78, 167),
            file_fg: (4, 81, 165),
            default_fg: (31, 35, 40),
        }
    }

    pub fn dark() -> (s: Self)
        ensures
            s == Self::dark_spec(),
    {
        DiffStyle {
            added_bg: from_rgba8(46, 160, 67, 30),
            deleted_bg: from_rgba8(248, 81, 73, 30),
            separator_bg: from_rgba8(48, 54, 61, 255),
            added_fg: (63, 185, 80),
            deleted_fg: (248, 81, 73),
            hunk_fg: (187, 128, 230),
            file_fg: (88, 166, 255),
            default_fg: (201, 209, 217),
        }
    }

    pub fn light() -> (s: Self)
        ensures
            s == Self::light_spec(),
    {
        DiffStyle {
            added_bg: from_rgba8(46, 160, 67, 25),
            deleted_bg: from_rgba8(248, 81, 73, 25),
            separator_bg: from_rgba8(216, 222, 228, 255),
            added_fg: (26, 127, 55),
            deleted_fg: (207, 34, 46),
            hunk_fg: (111, 78, 167),
            file_fg: (4, 81, 165),
            default_fg: (31, 35, 40),
        }
    }
}

impl Default for DiffStyle {
    fn default() -> (s: Self)
        ensures
            s == Self::dark_spec(),
    {
        Self::dark()
    }
}

// ── StatusStyle ─────────────────────────────────────────────────────
#[derive(Clone, Copy, Debug)]
pub struct StatusStyle {
    pub title_fg: (u8, u8, u8),
    pub path_fg: (u8, u8, u8),
    pub added_fg: (u8, u8, u8),
    pub added_bg: Rgba8,
    pub modified_fg: (u8, u8, u8),
    pub modified_bg: Rgba8,
    pub deleted_fg: (u8, u8, u8),
    pub deleted_bg: Rgba8,
    pub renamed_fg: (u8, u8, u8),
    pub typechange_fg: (u8, u8, u8),
    pub conflict_fg: (u8, u8, u8),
    pub conflict_bg: Rgba8,
}

impl StatusStyle {
    pub open spec fn dark_spec() -> Self {
        StatusStyle {
            title_fg: (88, 166, 255),
            path_fg: (201, 209, 217),
            added_fg: (63, 185, 80),
            added_bg: rgba(46, 160, 67, 25),
            modified_fg: (210, 153, 34),
            modified_bg: rgba(210, 153, 34, 25),
            deleted_fg: (248, 81, 73),
            deleted_bg: rgba(248, 81, 73, 25),
            renamed_fg: (88, 166, 255),
            typechange_fg: (187, 128, 230),
            conflict_fg: (248, 81, 73),
            conflict_bg: rgba(248, 81, 73, 25),
        }
    }

    pub open spec fn light_spec() -> Self {
        StatusStyle {
            title_fg: (4, 81, 165),
            path_fg: (31, 35, 40),
            added_fg: (26, 127, 55),
            added_bg: rgba(46, 160, 67, 18),
            modified_fg: (154, 103, 0),
            modified_bg: rgba(210, 153, 34, 18),
            deleted_fg: (207, 34, 46),
            deleted_bg: rgba(248, 81, 73, 18),
            renamed_fg: (4, 81, 165),
            typechange_fg: (111, 78, 167),
            conflict_fg: (207, 34, 46),
            conflict_bg: rgba(248, 81, 73, 18),
        }
    }

    pub fn dark() -> (s: Self)
        ensures
            s == Self::dark_spec(),
    {
        StatusStyle {
            title_fg: (88, 166, 255),
            path_fg: (201, 209, 217),
            added_fg: (63, 185, 80),
            added_bg: from_rgba8(46, 160, 67, 25),
            modified_fg: (210, 153, 34),
            modified_bg: from_rgba8(210, 153, 34, 25),
            deleted_fg: (248, 81, 73),
            deleted_bg: from_rgba8(248, 81, 73, 25),
            renamed_fg: (88, 166, 255),
            typechange_fg: (187, 128, 230),
            conflict_fg: (248, 81, 73),
            conflict_bg: from_rgba8(248, 81, 73, 25),
        }
    }

    pub fn light() -> (s: Self)
        ensures
            s == Self::light_spec(),
    {
        StatusStyle {
            title_fg: (4, 81, 165),
            path_fg: (31, 35, 40),
            added_fg: (26, 127, 55),
            added_bg: from_rgba8(46, 160, 67, 18),
            modified_fg: (154, 103, 0),
            modified_bg: from_rgba8(210, 153, 34, 18),
            deleted_fg: (207, 34, 46),
            deleted_bg: from_rgba8(248, 81, 73, 18),
            renamed_fg: (4, 81, 165),
            typechange_fg: (111, 78, 167),
            conflict_fg: (207, 34, 46),
            conflict_bg: from_rgba8(248, 81, 73, 18),
        }
    }
}

impl Default for StatusStyle {
    fn default() -> (s: Self)
        ensures
            s == Self::dark_spec(),
    {
        Self::dark()
    }
}

} // verus!
