//! Design tokens: the dark and light themes, colors written in hex, and
//! user overrides of the base theme and of single tokens.

use vstd::prelude::*;

use crate::keymap::{pget, KeyMap};
use crate::split::{strip_start_char, trim_start_char};
use crate::text::{chars_of, copy_string, lower_seq, str_eq, to_lower, trim, trim_seq};

verus! {

/// The look of a button.
#[derive(Clone, Copy, Debug, PartialEq, Eq, Structural)]
pub enum ButtonStyle {
    Preset,
    Info,
    Primary,
    Warning,
    Success,
    Danger,
}

/// The base theme.
#[derive(Clone, Copy, Debug, PartialEq, Eq, Structural)]
pub enum ThemeBase {
    Dark,
    Light,
}

impl ThemeBase {
    /// The base a name stands for, ignoring surrounding whitespace and
    /// ASCII case: `dark` or `light`.
    pub fn parse(s: &str) -> (r: Option<ThemeBase>)
        ensures
            r == if lower_seq(trim_seq(s@)) == "dark"@ {
                Some(ThemeBase::Dark)
            } else if lower_seq(trim_seq(s@)) == "light"@ {
                Some(ThemeBase::Light)
            } else {
                None::<ThemeBase>
            },
    {
        let c = chars_of(s);
        let t = trim(c.as_slice());
        let l = to_lower(t.as_slice());
        let d = chars_of("dark");
        let li = chars_of("light");
        if crate::text::same_chars(l.as_slice(), d.as_slice()) {
            Some(ThemeBase::Dark)
        } else if crate::text::same_chars(l.as_slice(), li.as_slice()) {
            Some(ThemeBase::Light)
        } else {
            None
        }
    }
}

/// A color with unmultiplied alpha.
#[derive(Clone, Copy, Debug, PartialEq, Eq, Structural)]
pub struct Rgba {
    pub r: u8,
    pub g: u8,
    pub b: u8,
    pub a: u8,
}

/// An opaque color.
pub open spec fn rgb(r: u8, g: u8, b: u8) -> Rgba {
    Rgba { r, g, b, a: 255 }
}

/// An opaque color.
pub fn from_rgb(r: u8, g: u8, b: u8) -> (c: Rgba)
    ensures
        c == rgb(r, g, b),
{
    Rgba { r, g, b, a: 255 }
}

/// The value of an ASCII hexadecimal digit.
pub open spec fn hex_digit(c: char) -> Option<u8> {
    if '0' <= c && c <= '9' {
        Some(((c as u32) - 48) as u8)
    } else if 'a' <= c && c <= 'f' {
        Some(((c as u32) - 87) as u8)
    } else if 'A' <= c && c <= 'F' {
        Some(((c as u32) - 55) as u8)
    } else {
        None
    }
}

/// The byte two characters write in base 16 (`u8::from_str_radix`): two
/// hexadecimal digits, or `+` and one digit.
pub open spec fn hex_pair(a: char, b: char) -> Option<u8> {
    match (hex_digit(a), hex_digit(b)) {
        (Some(x), Some(y)) => Some((16 * x + y) as u8),
        (None, Some(y)) => if a == '+' {
            Some(y)
        } else {
            None
        },
        _ => None,
    }
}

/// The color a hex text writes: `RRGGBB` or `RRGGBBAA`, with or without a
/// leading `#`, surrounding whitespace ignored.
pub open spec fn color_of(value: Seq<char>) -> Option<Rgba> {
    let t = trim_seq(value);
    let h = if t.len() > 0 && t[0] == '#' {
        t.drop_first()
    } else {
        t
    };
    if h.len() == 6 {
        match (hex_pair(h[0], h[1]), hex_pair(h[2], h[3]), hex_pair(h[4], h[5])) {
            (Some(r), Some(g), Some(b)) => Some(Rgba { r, g, b, a: 255 }),
            _ => None,
        }
    } else if h.len() == 8 {
        match (
            hex_pair(h[0], h[1]),
            hex_pair(h[2], h[3]),
            hex_pair(h[4], h[5]),
            hex_pair(h[6], h[7]),
        ) {
            (Some(r), Some(g), Some(b), Some(a)) => Some(Rgba { r, g, b, a }),
            _ => None,
        }
    } else {
        None
    }
}

fn hex_digit_value(c: char) -> (r: Option<u8>)
    ensures
        r == hex_digit(c),
{
    if '0' <= c && c <= '9' {
        Some((c as u8) - 48)
    } else if 'a' <= c && c <= 'f' {
        Some((c as u8) - 87)
    } else if 'A' <= c && c <= 'F' {
        Some((c as u8) - 55)
    } else {
        None
    }
}

fn hex_pair_value(a: char, b: char) -> (r: Option<u8>)
    ensures
        r == hex_pair(a, b),
{
    match (hex_digit_value(a), hex_digit_value(b)) {
        (Some(x), Some(y)) => Some(16 * x + y),
        (None, Some(y)) => if a == '+' {
            Some(y)
        } else {
            None
        },
        _ => None,
    }
}

/// The color a hex text writes (see `color_of`).
pub fn parse_color(value: &str) -> (r: Option<Rgba>)
    ensures
        r == color_of(value@),
{
    let c = chars_of(value);
    let t = trim(c.as_slice());
    let h = if t.len() > 0 && t[0] == '#' {
        let v = crate::text::slice_range(t.as_slice(), 1, t.len());
        assert(v@ =~= t@.drop_first());
        v
    } else {
        t
    };
    if h.len() == 6 {
        match (hex_pair_value(h[0], h[1]), hex_pair_value(h[2], h[3]), hex_pair_value(h[4], h[5])) {
            (Some(r), Some(g), Some(b)) => Some(Rgba { r, g, b, a: 255 }),
            _ => None,
        }
    } else if h.len() == 8 {
        match (
            hex_pair_value(h[0], h[1]),
            hex_pair_value(h[2], h[3]),
            hex_pair_value(h[4], h[5]),
            hex_pair_value(h[6], h[7]),
        ) {
            (Some(r), Some(g), Some(b), Some(a)) => Some(Rgba { r, g, b, a }),
            _ => None,
        }
    } else {
        None
    }
}


/// The fill color of each button style.
#[derive(Clone, Copy, Debug, PartialEq, Eq, Structural)]
pub struct ButtonPalette {
    pub preset: Rgba,
    pub info: Rgba,
    pub primary: Rgba,
    pub warning: Rgba,
    pub success: Rgba,
    pub danger: Rgba,
}

/// The colors of the interface.
#[derive(Clone, Copy, Debug, PartialEq, Eq, Structural)]
pub struct Theme {
    pub is_dark: bool,
    pub bg: Rgba,
    pub panel: Rgba,
    pub panel_border: Rgba,
    pub text: Rgba,
    pub muted_text: Rgba,
    pub accent: Rgba,
    pub section: Rgba,
    pub saved: Rgba,
    pub dirty: Rgba,
    pub status_bg: Rgba,
    pub status_text: Rgba,
    pub widget_bg: Rgba,
    pub hover_bg: Rgba,
    pub active_bg: Rgba,
    pub selection: Rgba,
    pub buttons: ButtonPalette,
}

/// The button colors shared by both themes.
pub open spec fn palette() -> ButtonPalette {
    ButtonPalette {
        preset: rgb(0xE6, 0x51, 0x00),
        info: rgb(0x0D, 0x47, 0xA1),
        primary: rgb(0x19, 0x76, 0xD2),
        warning: rgb(0xF5, 0x7F, 0x17),
        success: rgb(0x2E, 0x7D, 0x32),
        danger: rgb(0xC6, 0x28, 0x28),
    }
}

/// The dark theme.
pub open spec fn dark_theme() -> Theme {
    Theme {
        is_dark: true,
        bg: rgb(0x19, 0x19, 0x19),
        panel: rgb(0x23, 0x23, 0x23),
        panel_border: rgb(0x3C, 0x3C, 0x3C),
        text: rgb(0xFF, 0xFF, 0xFF),
        muted_text: rgb(0xAA, 0xAA, 0xAA),
        accent: rgb(0x87, 0xCE, 0xFA),
        section: rgb(0xFF, 0xA0, 0x7A),
        saved: rgb(0x90, 0xEE, 0x90),
        dirty: rgb(0xFF, 0xD7, 0x00),
        status_bg: rgb(0x2D, 0x2D, 0x2D),
        status_text: rgb(0xAA, 0xAA, 0xAA),
        widget_bg: rgb(0x30, 0x30, 0x30),
        hover_bg: rgb(0x3A, 0x3A, 0x3A),
        active_bg: rgb(0x45, 0x45, 0x45),
        selection: rgb(0x1F, 0x4D, 0x8C),
        buttons: palette(),
    }
}

/// The light theme.
pub open spec fn light_theme() -> Theme {
    Theme {
        is_dark: false,
        bg: rgb(0xF2, 0xF2, 0xF2),
        panel: rgb(0xFF, 0xFF, 0xFF),
        panel_border: rgb(0xD5, 0xD5, 0xD5),
        text: rgb(0x1C, 0x1C, 0x1C),
        muted_text: rgb(0x5F, 0x5F, 0x5F),
        accent: rgb(0x15, 0x65, 0xC0),
        section: rgb(0xE6, 0x51, 0x00),
        saved: rgb(0x2E, 0x7D, 0x32),
        dirty: rgb(0x9A, 0x67, 0x00),
        status_bg: rgb(0xE6, 0xE6, 0xE6),
        status_text: rgb(0x4A, 0x4A, 0x4A),
        widget_bg: rgb(0xE8, 0xE8, 0xE8),
        hover_bg: rgb(0xDC, 0xDC, 0xDC),
        active_bg: rgb(0xCF, 0xCF, 0xCF),
        selection: rgb(0xBB, 0xDE, 0xFB),
        buttons: palette(),
    }
}

fn button_palette() -> (r: ButtonPalette)
    ensures
        r == palette(),
{
    ButtonPalette {
        preset: from_rgb(0xE6, 0x51, 0x00),
        info: from_rgb(0x0D, 0x47, 0xA1),
        primary: from_rgb(0x19, 0x76, 0xD2),
        warning: from_rgb(0xF5, 0x7F, 0x17),
        success: from_rgb(0x2E, 0x7D, 0x32),
        danger: from_rgb(0xC6, 0x28, 0x28),
    }
}

/// The token a name sets: each field of the theme by its name, the button
/// colors as `button_<style>`.
pub open spec fn with_token(t: Theme, name: Seq<char>, c: Rgba) -> Theme {
    if name == "bg"@ {
        Theme { bg: c, ..t }
    } else if name == "panel"@ {
        Theme { panel: c, ..t }
    } else if name == "panel_border"@ {
        Theme { panel_border: c, ..t }
    } else if name == "text"@ {
        Theme { text: c, ..t }
    } else if name == "muted_text"@ {
        Theme { muted_text: c, ..t }
    } else if name == "accent"@ {
        Theme { accent: c, ..t }
    } else if name == "section"@ {
        Theme { section: c, ..t }
    } else if name == "saved"@ {
        Theme { saved: c, ..t }
    } else if name == "dirty"@ {
        Theme { dirty: c, ..t }
    } else if name == "status_bg"@ {
        Theme { status_bg: c, ..t }
    } else if name == "status_text"@ {
        Theme { status_text: c, ..t }
    } else if name == "widget_bg"@ {
        Theme { widget_bg: c, ..t }
    } else if name == "hover_bg"@ {
        Theme { hover_bg: c, ..t }
    } else if name == "active_bg"@ {
        Theme { active_bg: c, ..t }
    } else if name == "selection"@ {
        Theme { selection: c, ..t }
    } else if name == "button_preset"@ {
        Theme { buttons: ButtonPalette { preset: c, ..t.buttons }, ..t }
    } else if name == "button_info"@ {
        Theme { buttons: ButtonPalette { info: c, ..t.buttons }, ..t }
    } else if name == "button_primary"@ {
        Theme { buttons: ButtonPalette { primary: c, ..t.buttons }, ..t }
    } else if name == "button_warning"@ {
        Theme { buttons: ButtonPalette { warning: c, ..t.buttons }, ..t }
    } else if name == "button_success"@ {
        Theme { buttons: ButtonPalette { success: c, ..t.buttons }, ..t }
    } else if name == "button_danger"@ {
        Theme { buttons: ButtonPalette { danger: c, ..t.buttons }, ..t }
    } else {
        t
    }
}

impl Theme {
    /// The dark theme.
    pub fn dark() -> (r: Theme)
        ensures
            r == dark_theme(),
    {
        Theme {
            is_dark: true,
            bg: from_rgb(0x19, 0x19, 0x19),
            panel: from_rgb(0x23, 0x23, 0x23),
            panel_border: from_rgb(0x3C, 0x3C, 0x3C),
            text: from_rgb(0xFF, 0xFF, 0xFF),
            muted_text: from_rgb(0xAA, 0xAA, 0xAA),
            accent: from_rgb(0x87, 0xCE, 0xFA),
            section: from_rgb(0xFF, 0xA0, 0x7A),
            saved: from_rgb(0x90, 0xEE, 0x90),
            dirty: from_rgb(0xFF, 0xD7, 0x00),
            status_bg: from_rgb(0x2D, 0x2D, 0x2D),
            status_text: from_rgb(0xAA, 0xAA, 0xAA),
            widget_bg: from_rgb(0x30, 0x30, 0x30),
            hover_bg: from_rgb(0x3A, 0x3A, 0x3A),
            active_bg: from_rgb(0x45, 0x45, 0x45),
            selection: from_rgb(0x1F, 0x4D, 0x8C),
            buttons: button_palette(),
        }
    }

    /// The light theme.
    pub fn light() -> (r: Theme)
        ensures
            r == light_theme(),
    {
        Theme {
            is_dark: false,
            bg: from_rgb(0xF2, 0xF2, 0xF2),
            panel: from_rgb(0xFF, 0xFF, 0xFF),
            panel_border: from_rgb(0xD5, 0xD5, 0xD5),
            text: from_rgb(0x1C, 0x1C, 0x1C),
            muted_text: from_rgb(0x5F, 0x5F, 0x5F),
            accent: from_rgb(0x15, 0x65, 0xC0),
            section: from_rgb(0xE6, 0x51, 0x00),
            saved: from_rgb(0x2E, 0x7D, 0x32),
            dirty: from_rgb(0x9A, 0x67, 0x00),
            status_bg: from_rgb(0xE6, 0xE6, 0xE6),
            status_text: from_rgb(0x4A, 0x4A, 0x4A),
            widget_bg: from_rgb(0xE8, 0xE8, 0xE8),
            hover_bg: from_rgb(0xDC, 0xDC, 0xDC),
            active_bg: from_rgb(0xCF, 0xCF, 0xCF),
            selection: from_rgb(0xBB, 0xDE, 0xFB),
            buttons: button_palette(),
        }
    }

    /// The theme of a base.
    pub fn of_base(base: ThemeBase) -> (r: Theme)
        ensures
            r == match base {
                ThemeBase::Dark => dark_theme(),
                ThemeBase::Light => light_theme(),
            },
    {
        match base {
            ThemeBase::Dark => Theme::dark(),
            ThemeBase::Light => Theme::light(),
        }
    }

    /// The fill color of a button style.
    pub fn button_color(&self, style: ButtonStyle) -> (r: Rgba)
        ensures
            r == match style {
                ButtonStyle::Preset => self.buttons.preset,
                ButtonStyle::Info => self.buttons.info,
                ButtonStyle::Primary => self.buttons.primary,
                ButtonStyle::Warning => self.buttons.warning,
                ButtonStyle::Success => self.buttons.success,
                ButtonStyle::Danger => self.buttons.danger,
            },
    {
        match style {
            ButtonStyle::Preset => self.buttons.preset,
            ButtonStyle::Info => self.buttons.info,
            ButtonStyle::Primary => self.buttons.primary,
            ButtonStyle::Warning => self.buttons.warning,
            ButtonStyle::Success => self.buttons.success,
            ButtonStyle::Danger => self.buttons.danger,
        }
    }

    /// Sets the token `name` to `color`; an unknown name changes nothing.
    pub fn set_token(&mut self, name: &str, color: Rgba)
        ensures
            *final(self) == with_token(*old(self), name@, color),
    {
        if str_eq(name, "bg") {
            self.bg = color;
        } else if str_eq(name, "panel") {
            self.panel = color;
        } else if str_eq(name, "panel_border") {
            self.panel_border = color;
        } else if str_eq(name, "text") {
            self.text = color;
        } else if str_eq(name, "muted_text") {
            self.muted_text = color;
        } else if str_eq(name, "accent") {
            self.accent = color;
        } else if str_eq(name, "section") {
            self.section = color;
        } else if str_eq(name, "saved") {
            self.saved = color;
        } else if str_eq(name, "dirty") {
            self.dirty = color;
        } else if str_eq(name, "status_bg") {
            self.status_bg = color;
        } else if str_eq(name, "status_text") {
            self.status_text = color;
        } else if str_eq(name, "widget_bg") {
            self.widget_bg = color;
        } else if str_eq(name, "hover_bg") {
            self.hover_bg = color;
        } else if str_eq(name, "active_bg") {
            self.active_bg = color;
        } else if str_eq(name, "selection") {
            self.selection = color;
        } else if str_eq(name, "button_preset") {
            self.buttons.preset = color;
        } else if str_eq(name, "button_info") {
            self.buttons.info = color;
        } else if str_eq(name, "button_primary") {
            self.buttons.primary = color;
        } else if str_eq(name, "button_warning") {
            self.buttons.warning = color;
        } else if str_eq(name, "button_success") {
            self.buttons.success = color;
        } else if str_eq(name, "button_danger") {
            self.buttons.danger = color;
        }
    }
}


/// User changes to the theme: a base, and colors by token name.
pub struct ThemeOverrides {
    pub base: Option<ThemeBase>,
    pub colors: KeyMap<Rgba>,
}

/// The base a name stands for.
pub open spec fn base_of(s: Seq<char>) -> Option<ThemeBase> {
    if lower_seq(trim_seq(s)) == "dark"@ {
        Some(ThemeBase::Dark)
    } else if lower_seq(trim_seq(s)) == "light"@ {
        Some(ThemeBase::Light)
    } else {
        None
    }
}

/// The theme with the tokens of `es` set in order.
pub open spec fn applied(t: Theme, es: Seq<(String, Rgba)>) -> Theme
    decreases es.len(),
{
    if es.len() == 0 {
        t
    } else {
        with_token(applied(t, es.drop_last()), es.last().0@, es.last().1)
    }
}

impl ThemeOverrides {
    /// The overrides that a theme file gives: its base name read as a base,
    /// and each color that parses, by token name.
    pub fn from_raw(base: Option<&str>, colors: Option<&KeyMap<String>>) -> (r: ThemeOverrides)
        ensures
            r.base == match base {
                Some(b) => base_of(b@),
                None => None::<ThemeBase>,
            },
            forall|k: Seq<char>| #[trigger] r.colors.spec_get(k) == match colors {
                Some(m) => match m.spec_get(k) {
                    Some(v) => color_of(v@),
                    None => None::<Rgba>,
                },
                None => None::<Rgba>,
            },
    {
        let b = match base {
            Some(t) => ThemeBase::parse(t),
            None => None,
        };
        let mut out: KeyMap<Rgba> = KeyMap::new();
        match colors {
            Some(m) => {
                let es = m.entries();
                let mut i: usize = 0;
                assert(es@.take(0) =~= Seq::<(String, String)>::empty());
                while i < es.len()
                    invariant
                        i <= es@.len(),
                        es@ == m.entries_view(),
                        crate::keys::ascending(crate::keymap::entry_keys(es@)),
                        forall|k: Seq<char>| #[trigger] out.spec_get(k) == match pget(es@.take(i as int), k) {
                            Some(v) => color_of(v@),
                            None => None::<Rgba>,
                        },
                    decreases es@.len() - i,
                {
                    let ghost pre = es@.take(i as int);
                    let ghost post = es@.take(i + 1);
                    assert(post.drop_last() =~= pre);
                    assert(post.last() == es@[i as int]);
                    proof {
                        assert forall|l: int| 0 <= l < pre.len() implies pre[l].0@ != es@[i as int].0@ by {
                            crate::keys::lemma_ascending_distinct(crate::keymap::entry_keys(es@), l, i as int);
                        }
                        crate::keymap::lemma_pget_none(pre, es@[i as int].0@);
                    }
                    match parse_color(es[i].1.as_str()) {
                        Some(c) => {
                            out.insert(copy_string(&es[i].0), c);
                        },
                        None => {},
                    }
                    i = i + 1;
                }
                assert(es@.take(i as int) =~= es@);
            },
            None => {},
        }
        ThemeOverrides { base: b, colors: out }
    }

    /// The theme: the base (dark when none) with each overridden token set.
    pub fn apply(&self) -> (r: Theme)
        ensures
            r == applied(base_theme(self.base), self.colors.entries_view()),
    {
        let mut theme = match self.base {
            Some(ThemeBase::Light) => Theme::light(),
            _ => Theme::dark(),
        };
        let ghost t0 = theme;
        let es = self.colors.entries();
        let mut i: usize = 0;
        assert(es@.take(0) =~= Seq::<(String, Rgba)>::empty());
        while i < es.len()
            invariant
                i <= es@.len(),
                es@ == self.colors.entries_view(),
                theme == applied(t0, es@.take(i as int)),
            decreases es@.len() - i,
        {
            assert(es@.take(i + 1).drop_last() =~= es@.take(i as int));
            assert(es@.take(i + 1).last() == es@[i as int]);
            theme.set_token(es[i].0.as_str(), es[i].1);
            i = i + 1;
        }
        assert(es@.take(i as int) =~= es@);
        theme
    }
}

/// The theme a base gives: dark when there is none.
pub open spec fn base_theme(base: Option<ThemeBase>) -> Theme {
    match base {
        Some(ThemeBase::Light) => light_theme(),
        _ => dark_theme(),
    }
}

/// The color of the token `name`, if it names one (see `with_token`).
pub open spec fn token_of(t: Theme, name: Seq<char>) -> Option<Rgba> {
    if name == "bg"@ {
        Some(t.bg)
    } else if name == "panel"@ {
        Some(t.panel)
    } else if name == "panel_border"@ {
        Some(t.panel_border)
    } else if name == "text"@ {
        Some(t.text)
    } else if name == "muted_text"@ {
        Some(t.muted_text)
    } else if name == "accent"@ {
        Some(t.accent)
    } else if name == "section"@ {
        Some(t.section)
    } else if name == "saved"@ {
        Some(t.saved)
    } else if name == "dirty"@ {
        Some(t.dirty)
    } else if name == "status_bg"@ {
        Some(t.status_bg)
    } else if name == "status_text"@ {
        Some(t.status_text)
    } else if name == "widget_bg"@ {
        Some(t.widget_bg)
    } else if name == "hover_bg"@ {
        Some(t.hover_bg)
    } else if name == "active_bg"@ {
        Some(t.active_bg)
    } else if name == "selection"@ {
        Some(t.selection)
    } else if name == "button_preset"@ {
        Some(t.buttons.preset)
    } else if name == "button_info"@ {
        Some(t.buttons.info)
    } else if name == "button_primary"@ {
        Some(t.buttons.primary)
    } else if name == "button_warning"@ {
        Some(t.buttons.warning)
    } else if name == "button_success"@ {
        Some(t.buttons.success)
    } else if name == "button_danger"@ {
        Some(t.buttons.danger)
    } else {
        None
    }
}

/// Setting a token gives it the color and leaves the other tokens and the
/// dark flag as they were.
proof fn lemma_with_token(t: Theme, n: Seq<char>, c: Rgba, m: Seq<char>)
    ensures
        with_token(t, n, c).is_dark == t.is_dark,
        token_of(with_token(t, n, c), m) == if m == n && token_of(t, m) is Some {
            Some(c)
        } else {
            token_of(t, m)
        },
{
}

/// After setting the tokens of `es` in order, a token has the color of its
/// last entry, or else its color before.
proof fn lemma_applied_tokens(t: Theme, es: Seq<(String, Rgba)>, m: Seq<char>)
    ensures
        applied(t, es).is_dark == t.is_dark,
        token_of(applied(t, es), m) == match token_of(t, m) {
            Some(b) => match crate::keymap::pget(es, m) {
                Some(c) => Some(c),
                None => Some(b),
            },
            None => None::<Rgba>,
        },
    decreases es.len(),
{
    if es.len() > 0 {
        lemma_applied_tokens(t, es.drop_last(), m);
        lemma_with_token(applied(t, es.drop_last()), es.last().0@, es.last().1, m);
    }
}

/// Overriding a theme changes exactly the tokens named: each token takes
/// the color given for it and every other keeps the base's value; whether
/// the theme is dark comes from the base alone.
pub proof fn law_overrides_change_only_named_tokens(o: ThemeOverrides, name: Seq<char>)
    ensures
        applied(base_theme(o.base), o.colors.entries_view()).is_dark == base_theme(o.base).is_dark,
        token_of(applied(base_theme(o.base), o.colors.entries_view()), name) == match token_of(
            base_theme(o.base),
            name,
        ) {
            Some(b) => match o.colors.spec_get(name) {
                Some(c) => Some(c),
                None => Some(b),
            },
            None => None::<Rgba>,
        },
{
    lemma_applied_tokens(base_theme(o.base), o.colors.entries_view(), name);
}

} // verus!
