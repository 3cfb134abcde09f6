//! Palettes, and the colours that modes go by.

use crate::modes::{ModeId, Protocol};
use crate::text::same_text;
use vstd::prelude::*;

verus! {

/// Which palette the window uses.
///
/// It is stored by name, so that a name from a build that knew one more theme
/// than this one is skipped rather than taking every other setting with it.
#[derive(Clone, Copy, Debug, PartialEq, Eq, Structural)]
pub enum Theme {
    /// Whatever the desktop asks for.
    Auto,
    Dark,
    Light,
}

impl Default for Theme {
    fn default() -> (t: Theme)
        ensures
            t == Theme::Auto,
    {
        Theme::Auto
    }
}

impl Theme {
    /// All themes, in the order they are offered.
    pub const ALL: [Theme; 3] = [Theme::Auto, Theme::Dark, Theme::Light];

    /// The word a theme is stored by.
    pub open spec fn word(self) -> Seq<char> {
        match self {
            Theme::Auto => "auto"@,
            Theme::Dark => "dark"@,
            Theme::Light => "light"@,
        }
    }

    /// The word a theme is stored by.
    pub fn name(self) -> (s: &'static str)
        ensures
            s@ == self.word(),
    {
        match self {
            Theme::Auto => "auto",
            Theme::Dark => "dark",
            Theme::Light => "light",
        }
    }

    /// The theme that a word names, if one does.
    pub fn parse(name: &str) -> (t: Option<Theme>)
        ensures
            t matches Some(x) ==> x.word() == name@,
            t is None ==> forall|x: Theme| #[trigger] x.word() != name@,
    {
        proof {
            words_are_distinct();
        }
        if same_text(name, "auto") {
            Some(Theme::Auto)
        } else if same_text(name, "dark") {
            Some(Theme::Dark)
        } else if same_text(name, "light") {
            Some(Theme::Light)
        } else {
            None
        }
    }

    /// What the control shows.
    pub fn label(self) -> (s: &'static str)
        ensures
            s@ == match self {
                Theme::Auto => "Auto"@,
                Theme::Dark => "Dark"@,
                Theme::Light => "Light"@,
            },
    {
        match self {
            Theme::Auto => "Auto",
            Theme::Dark => "Dark",
            Theme::Light => "Light",
        }
    }

    /// What the control says when it is pointed at.
    pub fn hover(self) -> (s: &'static str)
        ensures
            s@ == match self {
                Theme::Auto => "follow the desktop"@,
                Theme::Dark => "always dark"@,
                Theme::Light => "always light"@,
            },
    {
        match self {
            Theme::Auto => "follow the desktop",
            Theme::Dark => "always dark",
            Theme::Light => "always light",
        }
    }
}

proof fn words_are_distinct()
    ensures
        "auto"@ != "dark"@ && "auto"@ != "light"@ && "dark"@ != "light"@,
{
    reveal_strlit("auto");
    reveal_strlit("dark");
    reveal_strlit("light");
    assert("auto"@[0] == 'a' && "dark"@[0] == 'd' && "light"@[0] == 'l');
}

/// The theme that a saved word stands for: the default, where it is not known.
pub open spec fn theme_saved_as(word: Seq<char>) -> Theme {
    if word == "dark"@ {
        Theme::Dark
    } else if word == "light"@ {
        Theme::Light
    } else {
        Theme::Auto
    }
}

/// The theme that a saved word stands for: the default, where it is not known.
pub fn saved_theme(word: &str) -> (t: Theme)
    ensures
        t == theme_saved_as(word@),
{
    proof {
        words_are_distinct();
    }
    match Theme::parse(word) {
        Some(t) => t,
        None => {
            assert(Theme::Dark.word() != word@ && Theme::Light.word() != word@);
            Theme::default()
        },
    }
}

/// Every theme round-trips through the word it is stored by.
pub proof fn themes_round_trip(t: Theme)
    ensures
        theme_saved_as(t.word()) == t,
        forall|u: Theme| #[trigger] u.word() == t.word() ==> u == t,
{
    words_are_distinct();
}

/// A colour.
#[derive(Clone, Copy, Debug, PartialEq, Eq, Structural)]
pub struct Rgb {
    pub r: u8,
    pub g: u8,
    pub b: u8,
}

/// The colour of an Olivia mode of so many tones and hertz: narrow and slow at
/// the violet end, wide and fast towards cyan.
pub open spec fn olivia_color(tones: int, hz: int) -> Rgb {
    if tones == 4 && hz == 125 {
        Rgb { r: 190, g: 150, b: 255 }
    } else if tones == 8 && hz == 250 {
        Rgb { r: 215, g: 155, b: 235 }
    } else if tones == 16 && hz == 500 {
        Rgb { r: 235, g: 165, b: 205 }
    } else if tones == 32 && hz == 1000 {
        Rgb { r: 170, g: 180, b: 255 }
    } else if tones == 8 && hz == 500 {
        Rgb { r: 140, g: 220, b: 235 }
    } else if tones == 16 && hz == 1000 {
        Rgb { r: 130, g: 235, b: 200 }
    } else {
        Rgb { r: 200, g: 190, b: 230 }
    }
}

/// The colour that a mode's channels are drawn in.
pub open spec fn color_of(m: ModeId) -> Rgb {
    match m.protocol {
        Protocol::Js8 => if m.period_s == Some(30u32) {
            Rgb { r: 130, g: 200, b: 255 }
        } else if m.period_s == Some(15u32) {
            Rgb { r: 150, g: 255, b: 150 }
        } else if m.period_s == Some(10u32) {
            Rgb { r: 255, g: 195, b: 120 }
        } else {
            Rgb { r: 255, g: 140, b: 200 }
        },
        Protocol::Olivia => if m.baud == 0 {
            olivia_color(0, 0)
        } else {
            olivia_color(
                m.bandwidth as int / m.baud as int,
                if m.bandwidth % 1000 == 0 {
                    m.bandwidth as int / 1000
                } else {
                    0
                },
            )
        },
        Protocol::Psk => Rgb { r: 245, g: 220, b: 130 },
    }
}

/// The colour that a mode's channels are drawn in, so that a channel's colour
/// tells what it is: each protocol has its own end of the spectrum.
pub fn mode_color(m: &ModeId) -> (c: Rgb)
    ensures
        c == color_of(*m),
{
    match m.protocol {
        Protocol::Js8 => match m.period_s {
            Some(30) => Rgb { r: 130, g: 200, b: 255 },
            Some(15) => Rgb { r: 150, g: 255, b: 150 },
            Some(10) => Rgb { r: 255, g: 195, b: 120 },
            _ => Rgb { r: 255, g: 140, b: 200 },
        },
        Protocol::Olivia => {
            if m.baud == 0 {
                return Rgb { r: 200, g: 190, b: 230 };
            }
            let tones: u32 = m.bandwidth / m.baud;
            let hz: u32 = if m.bandwidth % 1000 == 0 {
                m.bandwidth / 1000
            } else {
                0
            };
            match (tones, hz) {
                (4, 125) => Rgb { r: 190, g: 150, b: 255 },
                (8, 250) => Rgb { r: 215, g: 155, b: 235 },
                (16, 500) => Rgb { r: 235, g: 165, b: 205 },
                (32, 1000) => Rgb { r: 170, g: 180, b: 255 },
                (8, 500) => Rgb { r: 140, g: 220, b: 235 },
                (16, 1000) => Rgb { r: 130, g: 235, b: 200 },
                _ => Rgb { r: 200, g: 190, b: 230 },
            }
        },
        Protocol::Psk => Rgb { r: 245, g: 220, b: 130 },
    }
}

/// A share of a colour's strength that holds up on a light panel.
pub open spec fn darkened(v: u8) -> int {
    v * 45 / 100
}

/// A colour picked for a dark panel, as it holds up on the panel there is.
pub open spec fn legible_on(dark: bool, c: Rgb) -> Rgb {
    if dark {
        c
    } else {
        Rgb { r: darkened(c.r) as u8, g: darkened(c.g) as u8, b: darkened(c.b) as u8 }
    }
}

/// A colour picked for a dark panel, made to hold up on a light one: scaled
/// towards black, which keeps the hue, and the hue carries the meaning.
pub fn legible(dark: bool, c: Rgb) -> (out: Rgb)
    ensures
        out == legible_on(dark, c),
{
    if dark {
        return c;
    }
    Rgb {
        r: (c.r as u32 * 45 / 100) as u8,
        g: (c.g as u32 * 45 / 100) as u8,
        b: (c.b as u32 * 45 / 100) as u8,
    }
}

/// A mode's colour, legible as text on the panel there is.
pub fn mode_text_color(dark: bool, m: &ModeId) -> (out: Rgb)
    ensures
        out == legible_on(dark, color_of(*m)),
{
    legible(dark, mode_color(m))
}

/// A light panel darkens every part of a colour that there is anything of, and
/// keeps which part is the stronger.
pub proof fn light_darkens_and_keeps_the_hue(a: u8, b: u8)
    ensures
        0 <= darkened(a) <= a,
        a > 0 ==> darkened(a) < a,
        a <= b ==> darkened(a) <= darkened(b),
{
}

/// A colour on a light panel is never nearly white: its luma, of a thousand
/// parts to each step, stays below the middle.
pub proof fn light_mode_never_washes_out(c: Rgb)
    ensures
        ({
            let d = legible_on(false, c);
            299 * d.r + 587 * d.g + 114 * d.b < 128_000
        }),
{
}

} // verus!
