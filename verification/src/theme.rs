//! What remains of the widget's styling once rendering is stripped away:
//! the style markers and the color and theme choices they make.

use vstd::prelude::*;

verus! {

/// The two button looks the widget uses.
#[derive(Clone, Copy, Debug, PartialEq, Eq, Structural)]
pub enum ButtonStyle {
    Standard,
    ThemeButton,
}

/// The container look; its appearance carries no choice.
#[derive(Clone, Copy, Debug, PartialEq, Eq, Structural)]
pub struct ContainerStyle;

/// The label colors button styling chooses between.
#[derive(Clone, Copy, Debug, PartialEq, Eq, Structural)]
pub enum TextColor {
    White,
    Black,
}

/// The two themes the widget renders with.
#[derive(Clone, Copy, Debug, PartialEq, Eq, Structural)]
pub enum ThemeChoice {
    Light,
    Dark,
}

/// What the system reports its appearance to be.
#[derive(Clone, Copy, Debug, PartialEq, Eq, Structural)]
pub enum DetectedMode {
    Light,
    Dark,
    Unspecified,
}

impl ButtonStyle {
    /// A button label's color: the theme toggle reads black on the light
    /// theme; every other combination reads white.
    pub fn text_color(&self, theme: ThemeChoice) -> (c: TextColor)
        ensures
            c == (if self is ThemeButton && theme is Light {
                TextColor::Black
            } else {
                TextColor::White
            }),
    {
        match self {
            ButtonStyle::ThemeButton => match theme {
                ThemeChoice::Light => TextColor::Black,
                ThemeChoice::Dark => TextColor::White,
            },
            ButtonStyle::Standard => TextColor::White,
        }
    }
}

/// The theme chosen for a system report: dark stays dark, light and
/// unspecified read as light, and a failed detection falls back to dark.
pub fn resolve_system_theme(detection: Option<DetectedMode>) -> (t: ThemeChoice)
    ensures
        t == (match detection {
            Some(DetectedMode::Dark) => ThemeChoice::Dark,
            Some(DetectedMode::Light) => ThemeChoice::Light,
            Some(DetectedMode::Unspecified) => ThemeChoice::Light,
            None => ThemeChoice::Dark,
        }),
{
    match detection {
        Some(DetectedMode::Dark) => ThemeChoice::Dark,
        Some(DetectedMode::Light) => ThemeChoice::Light,
        Some(DetectedMode::Unspecified) => ThemeChoice::Light,
        None => ThemeChoice::Dark,
    }
}

} // verus!
