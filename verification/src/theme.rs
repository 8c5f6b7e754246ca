//! Color themes: each theme name resolves to a fixed palette of RGB colors.

use vstd::prelude::*;

verus! {

/// One color as red, green and blue components.
#[derive(Clone, Copy, Debug, PartialEq, Eq, Structural)]
pub struct Rgb {
    pub r: u8,
    pub g: u8,
    pub b: u8,
}

/// The resolved palette a session renders with.
#[derive(Clone, Copy, Debug, PartialEq, Eq, Structural)]
pub struct Theme {
    pub accent: Rgb,
    pub background: Rgb,
    pub folder: Rgb,
    pub note: Rgb,
    pub modified: Rgb,
    pub tag: Rgb,
}

/// The selectable theme names.
#[derive(Clone, Copy, Debug, PartialEq, Eq, Structural)]
pub enum ThemeName {
    ObsidianDark,
    ObsidianLight,
    SolarizedDark,
    SolarizedLight,
    GruvboxDark,
    GruvboxLight,
}

/// The fixed palette each theme name stands for.
pub open spec fn palette_of(name: ThemeName) -> Theme {
    match name {
        ThemeName::ObsidianDark => Theme {
            accent: Rgb { r: 166, g: 218, b: 149 },
            background: Rgb { r: 36, g: 37, b: 38 },
            folder: Rgb { r: 255, g: 203, b: 107 },
            note: Rgb { r: 208, g: 208, b: 208 },
            modified: Rgb { r: 255, g: 132, b: 132 },
            tag: Rgb { r: 124, g: 174, b: 254 },
        },
        ThemeName::ObsidianLight => Theme {
            accent: Rgb { r: 76, g: 110, b: 245 },
            background: Rgb { r: 250, g: 250, b: 250 },
            folder: Rgb { r: 66, g: 92, b: 162 },
            note: Rgb { r: 33, g: 33, b: 33 },
            modified: Rgb { r: 210, g: 77, b: 87 },
            tag: Rgb { r: 114, g: 124, b: 245 },
        },
        ThemeName::SolarizedDark => Theme {
            accent: Rgb { r: 147, g: 161, b: 161 },
            background: Rgb { r: 0, g: 43, b: 54 },
            folder: Rgb { r: 88, g: 110, b: 117 },
            note: Rgb { r: 253, g: 246, b: 227 },
            modified: Rgb { r: 203, g: 75, b: 22 },
            tag: Rgb { r: 38, g: 139, b: 210 },
        },
        ThemeName::SolarizedLight => Theme {
            accent: Rgb { r: 101, g: 123, b: 131 },
            background: Rgb { r: 253, g: 246, b: 227 },
            folder: Rgb { r: 38, g: 139, b: 210 },
            note: Rgb { r: 0, g: 43, b: 54 },
            modified: Rgb { r: 211, g: 54, b: 130 },
            tag: Rgb { r: 133, g: 153, b: 0 },
        },
        ThemeName::GruvboxDark => Theme {
            accent: Rgb { r: 215, g: 153, b: 33 },
            background: Rgb { r: 40, g: 40, b: 40 },
            folder: Rgb { r: 189, g: 174, b: 147 },
            note: Rgb { r: 235, g: 219, b: 178 },
            modified: Rgb { r: 204, g: 36, b: 29 },
            tag: Rgb { r: 104, g: 157, b: 106 },
        },
        ThemeName::GruvboxLight => Theme {
            accent: Rgb { r: 204, g: 36, b: 29 },
            background: Rgb { r: 251, g: 241, b: 199 },
            folder: Rgb { r: 152, g: 151, b: 26 },
            note: Rgb { r: 60, g: 56, b: 54 },
            modified: Rgb { r: 204, g: 36, b: 29 },
            tag: Rgb { r: 69, g: 133, b: 136 },
        },
    }
}

impl ThemeName {
    /// The palette this theme name stands for.
    pub fn resolve(self) -> (r: Theme)
        ensures
            r == palette_of(self),
    {
        match self {
            ThemeName::ObsidianDark => Theme {
                accent: Rgb { r: 166, g: 218, b: 149 },
                background: Rgb { r: 36, g: 37, b: 38 },
                folder: Rgb { r: 255, g: 203, b: 107 },
                note: Rgb { r: 208, g: 208, b: 208 },
                modified: Rgb { r: 255, g: 132, b: 132 },
                tag: Rgb { r: 124, g: 174, b: 254 },
            },
            ThemeName::ObsidianLight => Theme {
                accent: Rgb { r: 76, g: 110, b: 245 },
                background: Rgb { r: 250, g: 250, b: 250 },
                folder: Rgb { r: 66, g: 92, b: 162 },
                note: Rgb { r: 33, g: 33, b: 33 },
                modified: Rgb { r: 210, g: 77, b: 87 },
                tag: Rgb { r: 114, g: 124, b: 245 },
            },
            ThemeName::SolarizedDark => Theme {
                accent: Rgb { r: 147, g: 161, b: 161 },
                background: Rgb { r: 0, g: 43, b: 54 },
                folder: Rgb { r: 88, g: 110, b: 117 },
                note: Rgb { r: 253, g: 246, b: 227 },
                modified: Rgb { r: 203, g: 75, b: 22 },
                tag: Rgb { r: 38, g: 139, b: 210 },
            },
            ThemeName::SolarizedLight => Theme {
                accent: Rgb { r: 101, g: 123, b: 131 },
                background: Rgb { r: 253, g: 246, b: 227 },
                folder: Rgb { r: 38, g: 139, b: 210 },
                note: Rgb { r: 0, g: 43, b: 54 },
                modified: Rgb { r: 211, g: 54, b: 130 },
                tag: Rgb { r: 133, g: 153, b: 0 },
            },
            ThemeName::GruvboxDark => Theme {
                accent: Rgb { r: 215, g: 153, b: 33 },
                background: Rgb { r: 40, g: 40, b: 40 },
                folder: Rgb { r: 189, g: 174, b: 147 },
                note: Rgb { r: 235, g: 219, b: 178 },
                modified: Rgb { r: 204, g: 36, b: 29 },
                tag: Rgb { r: 104, g: 157, b: 106 },
            },
            ThemeName::GruvboxLight => Theme {
                accent: Rgb { r: 204, g: 36, b: 29 },
                background: Rgb { r: 251, g: 241, b: 199 },
                folder: Rgb { r: 152, g: 151, b: 26 },
                note: Rgb { r: 60, g: 56, b: 54 },
                modified: Rgb { r: 204, g: 36, b: 29 },
                tag: Rgb { r: 69, g: 133, b: 136 },
            },
        }
    }
}

impl Default for ThemeName {
    /// The theme a session starts with when none is configured.
    fn default() -> (r: Self)
        ensures
            r == ThemeName::ObsidianDark,
    {
        ThemeName::ObsidianDark
    }
}

impl Default for Theme {
    /// The palette of the default theme name.
    fn default() -> (r: Self)
        ensures
            r == palette_of(ThemeName::ObsidianDark),
    {
        ThemeName::ObsidianDark.resolve()
    }
}

} // verus!
