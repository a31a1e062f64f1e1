//! The style of a highlighted token, made from the style the highlighting engine gives it.
use crate::line::{Color, Style};
use vstd::prelude::*;

verus! {

/// The highlighting engine's bold flag.
pub const FONT_BOLD: u8 = 1;
/// The highlighting engine's underline flag.
pub const FONT_UNDERLINE: u8 = 2;
/// The highlighting engine's italic flag.
pub const FONT_ITALIC: u8 = 4;

/// The terminal's bold modifier.
pub const MOD_BOLD: u16 = 1;
/// The terminal's italic modifier.
pub const MOD_ITALIC: u16 = 4;
/// The terminal's underline modifier.
pub const MOD_UNDERLINED: u16 = 8;

/// The terminal modifiers for the engine's font flags: bold, underlined and italic carry
/// over, anything else is dropped.
pub open spec fn modifiers_of(font_style: u8) -> u16 {
    (if font_style & FONT_BOLD != 0 { MOD_BOLD } else { 0u16 }) | (if font_style & FONT_UNDERLINE != 0 {
        MOD_UNDERLINED
    } else {
        0u16
    }) | (if font_style & FONT_ITALIC != 0 { MOD_ITALIC } else { 0u16 })
}

/// The style of a token the engine drew with colors `fg` and `bg` (red, green, blue) and
/// font flags `font_style`: those colors, and the modifiers of the flags.
pub open spec fn engine_style(fg: (u8, u8, u8), bg: (u8, u8, u8), font_style: u8) -> Style {
    Style {
        fg: Some(Color::Rgb(fg.0, fg.1, fg.2)),
        bg: Some(Color::Rgb(bg.0, bg.1, bg.2)),
        add_modifier: modifiers_of(font_style),
        sub_modifier: 0,
    }
}

/// The style of a token the engine drew with colors `fg` and `bg` (red, green, blue) and
/// font flags `font_style`.
pub fn from_engine_style(fg: (u8, u8, u8), bg: (u8, u8, u8), font_style: u8) -> (s: Style)
    ensures
        s == engine_style(fg, bg, font_style),
{
    let bold: u16 = if font_style & FONT_BOLD != 0 { MOD_BOLD } else { 0 };
    let underlined: u16 = if font_style & FONT_UNDERLINE != 0 { MOD_UNDERLINED } else { 0 };
    let italic: u16 = if font_style & FONT_ITALIC != 0 { MOD_ITALIC } else { 0 };
    let mut style = Style::new().fg(Color::Rgb(fg.0, fg.1, fg.2)).bg(Color::Rgb(bg.0, bg.1, bg.2));
    style.add_modifier = bold | underlined | italic;
    style
}

} // verus!
