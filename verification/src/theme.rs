//! Colours.

use vstd::prelude::*;

verus! {

/// An opaque colour.
#[derive(Clone, Copy, Debug, PartialEq, Eq, Structural)]
pub struct Rgb {
    pub r: u8,
    pub g: u8,
    pub b: u8,
}

/// The colour with these parts.
pub open spec fn rgb_spec(r: u8, g: u8, b: u8) -> Rgb {
    Rgb { r, g, b }
}

/// The colour with these parts.
#[verifier::when_used_as_spec(rgb_spec)]
pub fn rgb(r: u8, g: u8, b: u8) -> (color: Rgb)
    ensures
        color == rgb_spec(r, g, b),
{
    Rgb { r, g, b }
}

/// The colours of the window.
pub struct Theme {
    pub text: Rgb,
    pub panel_fill: Rgb,
    pub window_fill: Rgb,
    pub extreme_background: Rgb,
    pub faint_background: Rgb,
    pub noninteractive: Rgb,
    pub inactive: Rgb,
    pub hovered: Rgb,
    pub active: Rgb,
    pub selection: Rgb,
}

/// The dark theme: light text on greys that grow lighter the more a widget is acted on.
pub fn dark_theme() -> (theme: Theme)
    ensures
        theme == (Theme {
            text: rgb(220, 220, 220),
            panel_fill: rgb(25, 25, 30),
            window_fill: rgb(35, 35, 40),
            extreme_background: rgb(30, 30, 35),
            faint_background: rgb(30, 30, 35),
            noninteractive: rgb(35, 35, 40),
            inactive: rgb(40, 40, 48),
            hovered: rgb(50, 50, 58),
            active: rgb(55, 55, 65),
            selection: rgb(50, 80, 120),
        }),
{
    Theme {
        text: rgb(220, 220, 220),
        panel_fill: rgb(25, 25, 30),
        window_fill: rgb(35, 35, 40),
        extreme_background: rgb(30, 30, 35),
        faint_background: rgb(30, 30, 35),
        noninteractive: rgb(35, 35, 40),
        inactive: rgb(40, 40, 48),
        hovered: rgb(50, 50, 58),
        active: rgb(55, 55, 65),
        selection: rgb(50, 80, 120),
    }
}

/// The colour of a card.
pub open spec fn card_fill_spec(is_active: bool) -> Rgb {
    if is_active {
        rgb(45, 55, 72)
    } else {
        rgb(30, 35, 45)
    }
}

/// The colour of a card.
pub fn card_fill(is_active: bool) -> (color: Rgb)
    ensures
        color == card_fill_spec(is_active),
{
    if is_active {
        rgb(45, 55, 72)
    } else {
        rgb(30, 35, 45)
    }
}

/// The colour round a card: that it runs goes before that it is the active one.
pub open spec fn card_border_spec(running: bool, is_active: bool) -> Rgb {
    if running {
        rgb(72, 180, 100)
    } else if is_active {
        rgb(100, 140, 200)
    } else {
        rgb(60, 65, 75)
    }
}

/// The colour round a card.
pub fn card_border(running: bool, is_active: bool) -> (color: Rgb)
    ensures
        color == card_border_spec(running, is_active),
{
    if running {
        rgb(72, 180, 100)
    } else if is_active {
        rgb(100, 140, 200)
    } else {
        rgb(60, 65, 75)
    }
}

} // verus!
