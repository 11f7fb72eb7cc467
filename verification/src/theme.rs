//! Colours of the screen.
use vstd::prelude::*;

use crate::strings::is_text;
use crate::terminal_palette::DefaultColors;
use crate::text::chars_of;

verus! {

/// Which colours the reader wants.
#[derive(Clone, Copy, Debug, PartialEq, Eq, Structural)]
pub enum ThemeChoice {
    Auto,
    Light,
    Dark,
}

impl Default for ThemeChoice {
    fn default() -> (choice: Self)
        ensures
            choice == ThemeChoice::Auto,
    {
        ThemeChoice::Auto
    }
}

pub open spec fn theme_name(choice: ThemeChoice) -> Seq<char> {
    match choice {
        ThemeChoice::Auto => "auto"@,
        ThemeChoice::Light => "light"@,
        ThemeChoice::Dark => "dark"@,
    }
}

/// The choice of a given name.
pub open spec fn theme_named(name: Seq<char>) -> Option<ThemeChoice> {
    if name == "auto"@ {
        Some(ThemeChoice::Auto)
    } else if name == "light"@ {
        Some(ThemeChoice::Light)
    } else if name == "dark"@ {
        Some(ThemeChoice::Dark)
    } else {
        None
    }
}

impl ThemeChoice {
    pub fn name(&self) -> (name: &'static str)
        ensures
            name@ == theme_name(*self),
    {
        match self {
            ThemeChoice::Auto => "auto",
            ThemeChoice::Light => "light",
            ThemeChoice::Dark => "dark",
        }
    }

    /// The choice of the given name.
    pub fn from_name(name: &str) -> (choice: Option<Self>)
        ensures
            choice == theme_named(name@),
    {
        let characters = chars_of(name);
        if is_text(&characters, "auto") {
            Some(ThemeChoice::Auto)
        } else if is_text(&characters, "light") {
            Some(ThemeChoice::Light)
        } else if is_text(&characters, "dark") {
            Some(ThemeChoice::Dark)
        } else {
            None
        }
    }
}

/// A choice is found again by its name, and every name that is found is the name of its choice.
pub proof fn law_theme_names(choice: ThemeChoice, name: Seq<char>)
    ensures
        theme_named(theme_name(choice)) == Some(choice),
        theme_named(name) matches Some(found) ==> theme_name(found) == name,
{
    reveal_strlit("auto");
    reveal_strlit("light");
    reveal_strlit("dark");
    assert("auto"@.len() == 4 && "light"@.len() == 5 && "dark"@.len() == 4);
    assert("auto"@[0] == 'a' && "dark"@[0] == 'd');
}

/// A colour by its red, green and blue.
pub type Rgb = (u8, u8, u8);

/// A colour of the terminal.
#[derive(Clone, Copy, Debug, PartialEq, Eq, Structural)]
pub enum Color {
    Rgb(u8, u8, u8),
    Black,
    White,
    DarkGray,
    Cyan,
}

/// How text is shown.
#[derive(Clone, Copy, Debug, PartialEq, Eq, Structural)]
pub struct Style {
    pub fg: Option<Color>,
    pub bg: Option<Color>,
    pub bold: bool,
    pub reversed: bool,
}

/// The styles of all parts of the screen.
#[derive(Clone, Copy, Debug, PartialEq, Eq, Structural)]
pub struct Theme {
    pub body: Style,
    pub surface: Style,
    pub muted: Style,
    pub accent: Style,
    pub heading: Style,
    pub border: Style,
    pub selected: Style,
    pub matched: Style,
    pub surface_visible: bool,
}

/// A colour that is mixed of two, with so many hundredths of the upper one.
#[derive(Clone, Copy, Debug, PartialEq, Eq)]
pub struct Mixture {
    pub top: Rgb,
    pub bottom: Rgb,
    pub hundredths: u8,
}

/// The colours from which a theme is made.
#[derive(Clone, Copy, Debug, PartialEq, Eq)]
pub struct BaseColors {
    pub foreground: Rgb,
    pub background: Rgb,
}

/// A colour counts as light by what the eye sees of it.
pub open spec fn is_light_color(color: Rgb) -> bool {
    299 * color.0 + 587 * color.1 + 114 * color.2 > 128000
}

pub fn is_light(color: Rgb) -> (light: bool)
    ensures
        light == is_light_color(color),
{
    299 * (color.0 as u32) + 587 * (color.1 as u32) + 114 * (color.2 as u32) > 128000
}

pub open spec fn contrast_of(background: Rgb) -> Color {
    if is_light_color(background) {
        Color::Black
    } else {
        Color::White
    }
}

/// The colour of text that can be read on the given one.
pub fn contrast_text(background: Rgb) -> (color: Color)
    ensures
        color == contrast_of(background),
{
    if is_light(background) {
        Color::Black
    } else {
        Color::White
    }
}

/// The colours of a choice: those of the terminal, if they are known, or fixed ones.
pub open spec fn chosen_colors(
    choice: ThemeChoice,
    terminal: Option<DefaultColors>,
) -> Option<BaseColors> {
    match choice {
        ThemeChoice::Auto => match terminal {
            Some(colors) => Some(
                BaseColors { foreground: colors.foreground, background: colors.background },
            ),
            None => None,
        },
        ThemeChoice::Light => Some(
            BaseColors { foreground: (31, 35, 40), background: (255, 255, 255) },
        ),
        ThemeChoice::Dark => Some(
            BaseColors { foreground: (230, 237, 243), background: (13, 17, 23) },
        ),
    }
}

/// The colours of a choice.
pub fn choose_colors(choice: ThemeChoice, terminal: Option<DefaultColors>) -> (colors: Option<
    BaseColors,
>)
    ensures
        colors == chosen_colors(choice, terminal),
{
    match choice {
        ThemeChoice::Auto => match terminal {
            Some(colors) => Some(
                BaseColors { foreground: colors.foreground, background: colors.background },
            ),
            None => None,
        },
        ThemeChoice::Light => Some(
            BaseColors { foreground: (31, 35, 40), background: (255, 255, 255) },
        ),
        ThemeChoice::Dark => Some(
            BaseColors { foreground: (230, 237, 243), background: (13, 17, 23) },
        ),
    }
}

/// How the colour of raised surfaces is mixed: a little darker than a light background, and a
/// little lighter than a dark one.
pub open spec fn surface_of(colors: BaseColors) -> Mixture {
    if is_light_color(colors.background) {
        Mixture { top: (0, 0, 0), bottom: colors.background, hundredths: 4 }
    } else {
        Mixture { top: (255, 255, 255), bottom: colors.background, hundredths: 12 }
    }
}

/// How the colour of text in the background is mixed.
pub open spec fn muted_of(colors: BaseColors) -> Mixture {
    Mixture { top: colors.foreground, bottom: colors.background, hundredths: 55 }
}

impl BaseColors {
    /// How the colour of raised surfaces is mixed.
    pub fn surface(&self) -> (mixture: Mixture)
        ensures
            mixture == surface_of(*self),
    {
        if is_light(self.background) {
            Mixture { top: (0, 0, 0), bottom: self.background, hundredths: 4 }
        } else {
            Mixture { top: (255, 255, 255), bottom: self.background, hundredths: 12 }
        }
    }

    /// How the colour of text in the background is mixed.
    pub fn muted(&self) -> (mixture: Mixture)
        ensures
            mixture == muted_of(*self),
    {
        Mixture { top: self.foreground, bottom: self.background, hundredths: 55 }
    }
}

pub open spec fn rgb_color(color: Rgb) -> Color {
    Color::Rgb(color.0, color.1, color.2)
}

fn rgb(color: Rgb) -> (result: Color)
    ensures
        result == rgb_color(color),
{
    Color::Rgb(color.0, color.1, color.2)
}

pub open spec fn accent_of(background: Rgb) -> Rgb {
    if is_light_color(background) {
        (0u8, 95u8, 135u8)
    } else {
        (86u8, 156u8, 214u8)
    }
}

pub open spec fn match_color_of(background: Rgb) -> Rgb {
    if is_light_color(background) {
        (255u8, 214u8, 64u8)
    } else {
        (137u8, 101u8, 0u8)
    }
}

pub open spec fn style_on(fg: Option<Color>, bg: Option<Color>, bold: bool) -> Style {
    Style { fg, bg, bold, reversed: false }
}

/// The theme of the given colours and of two that were mixed of them.
pub open spec fn theme_of(colors: BaseColors, surface: Rgb, muted: Rgb) -> Theme {
    let foreground = rgb_color(colors.foreground);
    let accent = accent_of(colors.background);
    let matched = match_color_of(colors.background);
    Theme {
        body: style_on(Some(foreground), Some(rgb_color(colors.background)), false),
        surface: style_on(Some(foreground), Some(rgb_color(surface)), false),
        muted: style_on(Some(rgb_color(muted)), None, false),
        accent: style_on(Some(rgb_color(accent)), None, false),
        heading: style_on(Some(rgb_color(accent)), None, true),
        border: style_on(Some(rgb_color(muted)), Some(rgb_color(surface)), false),
        selected: style_on(Some(contrast_of(accent)), Some(rgb_color(accent)), true),
        matched: style_on(Some(contrast_of(matched)), Some(rgb_color(matched)), true),
        surface_visible: true,
    }
}

/// The theme where nothing is known of the colours of the terminal.
pub open spec fn fallback_theme() -> Theme {
    let reversed = Style { fg: None, bg: None, bold: true, reversed: true };
    Theme {
        body: style_on(None, None, false),
        surface: style_on(None, None, false),
        muted: style_on(Some(Color::DarkGray), None, false),
        accent: style_on(Some(Color::Cyan), None, false),
        heading: style_on(Some(Color::Cyan), None, true),
        border: style_on(Some(Color::DarkGray), None, false),
        selected: reversed,
        matched: reversed,
        surface_visible: false,
    }
}

fn plain_style(fg: Option<Color>, bg: Option<Color>, bold: bool) -> (style: Style)
    ensures
        style == style_on(fg, bg, bold),
{
    Style { fg, bg, bold, reversed: false }
}

impl Theme {
    /// The theme of the given colours and of two that were mixed of them.
    pub fn from_colors(colors: BaseColors, surface: Rgb, muted: Rgb) -> (theme: Self)
        ensures
            theme == theme_of(colors, surface, muted),
    {
        let light = is_light(colors.background);
        let accent: Rgb = if light {
            (0, 95, 135)
        } else {
            (86, 156, 214)
        };
        let matched: Rgb = if light {
            (255, 214, 64)
        } else {
            (137, 101, 0)
        };
        let foreground = rgb(colors.foreground);
        Theme {
            body: plain_style(Some(foreground), Some(rgb(colors.background)), false),
            surface: plain_style(Some(foreground), Some(rgb(surface)), false),
            muted: plain_style(Some(rgb(muted)), None, false),
            accent: plain_style(Some(rgb(accent)), None, false),
            heading: plain_style(Some(rgb(accent)), None, true),
            border: plain_style(Some(rgb(muted)), Some(rgb(surface)), false),
            selected: plain_style(Some(contrast_text(accent)), Some(rgb(accent)), true),
            matched: plain_style(Some(contrast_text(matched)), Some(rgb(matched)), true),
            surface_visible: true,
        }
    }

    /// The theme where nothing is known of the colours of the terminal.
    pub fn fallback() -> (theme: Self)
        ensures
            theme == fallback_theme(),
    {
        let reversed = Style { fg: None, bg: None, bold: true, reversed: true };
        Theme {
            body: plain_style(None, None, false),
            surface: plain_style(None, None, false),
            muted: plain_style(Some(Color::DarkGray), None, false),
            accent: plain_style(Some(Color::Cyan), None, false),
            heading: plain_style(Some(Color::Cyan), None, true),
            border: plain_style(Some(Color::DarkGray), None, false),
            selected: reversed,
            matched: reversed,
            surface_visible: false,
        }
    }
}

/// Selected text and matches can be read in every theme: black on a light colour, or white on
/// a dark one, or the colours of the terminal the other way round.
pub proof fn law_marked_text_is_readable(colors: BaseColors, surface: Rgb, muted: Rgb)
    ensures
        theme_of(colors, surface, muted).selected.fg != theme_of(
            colors,
            surface,
            muted,
        ).selected.bg,
        theme_of(colors, surface, muted).matched.fg != theme_of(colors, surface, muted).matched.bg,
        theme_of(colors, surface, muted).surface_visible,
        fallback_theme().selected.reversed,
        fallback_theme().matched.reversed,
        !fallback_theme().surface_visible,
{
}

} // verus!
