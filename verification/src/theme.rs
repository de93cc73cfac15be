//! The color themes of the interface: the bundled presets, custom themes that start
//! from one of them, and where a theme file is looked for.
use crate::config::{Config, ThemeConfig};
use crate::text::{is, is_ascii_hex, lowercase, opt_view, push_char, to_chars, to_lowercase};
use vstd::prelude::*;
use vstd::string::StringExecFns;

verus! {

/// A terminal color: the terminal's own, one of its 256 indexed colors, or RGB.
#[derive(Clone, Copy, Debug, PartialEq, Eq, Structural)]
pub enum Color {
    Reset,
    Indexed(u8),
    Rgb(u8, u8, u8),
}

/// The colors that the interface draws with.
#[derive(Clone, Copy, Debug, PartialEq, Eq, Structural)]
pub struct Palette {
    pub primary: Color,
    pub secondary: Color,
    pub accent: Color,
    pub text: Color,
    pub muted: Color,
    pub background: Color,
    pub selection_bg: Color,
    pub selection_fg: Color,
    pub success: Color,
    pub warning: Color,
    pub error: Color,
}

/// The colors of the `catppuccin-mocha` preset.
pub open spec fn catppuccin_mocha_colors() -> Palette {
    Palette {
        primary: Color::Rgb(137, 180, 250),
        secondary: Color::Rgb(137, 180, 250),
        accent: Color::Rgb(249, 226, 175),
        text: Color::Rgb(205, 214, 244),
        muted: Color::Rgb(127, 132, 156),
        background: Color::Rgb(30, 30, 46),
        selection_bg: Color::Rgb(137, 180, 250),
        selection_fg: Color::Rgb(30, 30, 46),
        success: Color::Rgb(166, 227, 161),
        warning: Color::Rgb(249, 226, 175),
        error: Color::Rgb(243, 139, 168),
    }
}

/// The `catppuccin-mocha` preset.
pub fn catppuccin_mocha() -> (r: Palette)
    ensures
        r == catppuccin_mocha_colors(),
{
    Palette {
        primary: Color::Rgb(137, 180, 250),
        secondary: Color::Rgb(137, 180, 250),
        accent: Color::Rgb(249, 226, 175),
        text: Color::Rgb(205, 214, 244),
        muted: Color::Rgb(127, 132, 156),
        background: Color::Rgb(30, 30, 46),
        selection_bg: Color::Rgb(137, 180, 250),
        selection_fg: Color::Rgb(30, 30, 46),
        success: Color::Rgb(166, 227, 161),
        warning: Color::Rgb(249, 226, 175),
        error: Color::Rgb(243, 139, 168),
    }
}

/// The colors of the `catppuccin-latte` preset.
pub open spec fn catppuccin_latte_colors() -> Palette {
    Palette {
        primary: Color::Rgb(30, 102, 245),
        secondary: Color::Rgb(30, 102, 245),
        accent: Color::Rgb(223, 142, 29),
        text: Color::Rgb(76, 79, 105),
        muted: Color::Rgb(156, 160, 176),
        background: Color::Rgb(239, 241, 245),
        selection_bg: Color::Rgb(30, 102, 245),
        selection_fg: Color::Rgb(239, 241, 245),
        success: Color::Rgb(64, 160, 43),
        warning: Color::Rgb(223, 142, 29),
        error: Color::Rgb(210, 15, 57),
    }
}

/// The `catppuccin-latte` preset.
pub fn catppuccin_latte() -> (r: Palette)
    ensures
        r == catppuccin_latte_colors(),
{
    Palette {
        primary: Color::Rgb(30, 102, 245),
        secondary: Color::Rgb(30, 102, 245),
        accent: Color::Rgb(223, 142, 29),
        text: Color::Rgb(76, 79, 105),
        muted: Color::Rgb(156, 160, 176),
        background: Color::Rgb(239, 241, 245),
        selection_bg: Color::Rgb(30, 102, 245),
        selection_fg: Color::Rgb(239, 241, 245),
        success: Color::Rgb(64, 160, 43),
        warning: Color::Rgb(223, 142, 29),
        error: Color::Rgb(210, 15, 57),
    }
}

/// The colors of the `tokyo-night` preset.
pub open spec fn tokyo_night_colors() -> Palette {
    Palette {
        primary: Color::Rgb(125, 207, 255),
        secondary: Color::Rgb(122, 162, 247),
        accent: Color::Rgb(224, 175, 104),
        text: Color::Rgb(192, 202, 245),
        muted: Color::Rgb(86, 95, 137),
        background: Color::Rgb(26, 27, 38),
        selection_bg: Color::Rgb(122, 162, 247),
        selection_fg: Color::Rgb(26, 27, 38),
        success: Color::Rgb(158, 206, 106),
        warning: Color::Rgb(224, 175, 104),
        error: Color::Rgb(247, 118, 142),
    }
}

/// The `tokyo-night` preset.
pub fn tokyo_night() -> (r: Palette)
    ensures
        r == tokyo_night_colors(),
{
    Palette {
        primary: Color::Rgb(125, 207, 255),
        secondary: Color::Rgb(122, 162, 247),
        accent: Color::Rgb(224, 175, 104),
        text: Color::Rgb(192, 202, 245),
        muted: Color::Rgb(86, 95, 137),
        background: Color::Rgb(26, 27, 38),
        selection_bg: Color::Rgb(122, 162, 247),
        selection_fg: Color::Rgb(26, 27, 38),
        success: Color::Rgb(158, 206, 106),
        warning: Color::Rgb(224, 175, 104),
        error: Color::Rgb(247, 118, 142),
    }
}

/// The colors of the `gruvbox` preset.
pub open spec fn gruvbox_colors() -> Palette {
    Palette {
        primary: Color::Rgb(131, 165, 152),
        secondary: Color::Rgb(142, 192, 124),
        accent: Color::Rgb(250, 189, 47),
        text: Color::Rgb(235, 219, 178),
        muted: Color::Rgb(146, 131, 116),
        background: Color::Rgb(40, 40, 40),
        selection_bg: Color::Rgb(131, 165, 152),
        selection_fg: Color::Rgb(40, 40, 40),
        success: Color::Rgb(184, 187, 38),
        warning: Color::Rgb(250, 189, 47),
        error: Color::Rgb(251, 73, 52),
    }
}

/// The `gruvbox` preset.
pub fn gruvbox() -> (r: Palette)
    ensures
        r == gruvbox_colors(),
{
    Palette {
        primary: Color::Rgb(131, 165, 152),
        secondary: Color::Rgb(142, 192, 124),
        accent: Color::Rgb(250, 189, 47),
        text: Color::Rgb(235, 219, 178),
        muted: Color::Rgb(146, 131, 116),
        background: Color::Rgb(40, 40, 40),
        selection_bg: Color::Rgb(131, 165, 152),
        selection_fg: Color::Rgb(40, 40, 40),
        success: Color::Rgb(184, 187, 38),
        warning: Color::Rgb(250, 189, 47),
        error: Color::Rgb(251, 73, 52),
    }
}

/// The colors of the `nord` preset.
pub open spec fn nord_colors() -> Palette {
    Palette {
        primary: Color::Rgb(136, 192, 208),
        secondary: Color::Rgb(129, 161, 193),
        accent: Color::Rgb(235, 203, 139),
        text: Color::Rgb(216, 222, 233),
        muted: Color::Rgb(118, 129, 149),
        background: Color::Rgb(46, 52, 64),
        selection_bg: Color::Rgb(136, 192, 208),
        selection_fg: Color::Rgb(46, 52, 64),
        success: Color::Rgb(163, 190, 140),
        warning: Color::Rgb(235, 203, 139),
        error: Color::Rgb(191, 97, 106),
    }
}

/// The `nord` preset.
pub fn nord() -> (r: Palette)
    ensures
        r == nord_colors(),
{
    Palette {
        primary: Color::Rgb(136, 192, 208),
        secondary: Color::Rgb(129, 161, 193),
        accent: Color::Rgb(235, 203, 139),
        text: Color::Rgb(216, 222, 233),
        muted: Color::Rgb(118, 129, 149),
        background: Color::Rgb(46, 52, 64),
        selection_bg: Color::Rgb(136, 192, 208),
        selection_fg: Color::Rgb(46, 52, 64),
        success: Color::Rgb(163, 190, 140),
        warning: Color::Rgb(235, 203, 139),
        error: Color::Rgb(191, 97, 106),
    }
}

/// The colors of the `dracula` preset.
pub open spec fn dracula_colors() -> Palette {
    Palette {
        primary: Color::Rgb(139, 233, 253),
        secondary: Color::Rgb(189, 147, 249),
        accent: Color::Rgb(241, 250, 140),
        text: Color::Rgb(248, 248, 242),
        muted: Color::Rgb(98, 114, 164),
        background: Color::Rgb(40, 42, 54),
        selection_bg: Color::Rgb(189, 147, 249),
        selection_fg: Color::Rgb(40, 42, 54),
        success: Color::Rgb(80, 250, 123),
        warning: Color::Rgb(241, 250, 140),
        error: Color::Rgb(255, 85, 85),
    }
}

/// The `dracula` preset.
pub fn dracula() -> (r: Palette)
    ensures
        r == dracula_colors(),
{
    Palette {
        primary: Color::Rgb(139, 233, 253),
        secondary: Color::Rgb(189, 147, 249),
        accent: Color::Rgb(241, 250, 140),
        text: Color::Rgb(248, 248, 242),
        muted: Color::Rgb(98, 114, 164),
        background: Color::Rgb(40, 42, 54),
        selection_bg: Color::Rgb(189, 147, 249),
        selection_fg: Color::Rgb(40, 42, 54),
        success: Color::Rgb(80, 250, 123),
        warning: Color::Rgb(241, 250, 140),
        error: Color::Rgb(255, 85, 85),
    }
}

/// A theme name as presets are looked up: lower case, with `_` read as `-`.
pub open spec fn preset_name(name: Seq<char>) -> Seq<char> {
    lowercase(name).map_values(|c: char| if c == '_' { '-' } else { c })
}

/// The bundled preset of a (normalized) name.
pub open spec fn preset(name: Seq<char>) -> Option<Palette> {
    if name == "catppuccin-latte"@ {
        Some(catppuccin_latte_colors())
    } else if name == "tokyo-night"@ {
        Some(tokyo_night_colors())
    } else if name == "gruvbox"@ {
        Some(gruvbox_colors())
    } else if name == "nord"@ {
        Some(nord_colors())
    } else if name == "dracula"@ {
        Some(dracula_colors())
    } else if name == "catppuccin-mocha"@ {
        Some(catppuccin_mocha_colors())
    } else {
        None
    }
}

/// The bundled preset that `name` names, in any case and with `_` for `-`.
pub fn palette_for(name: &str) -> (r: Option<Palette>)
    ensures
        r == preset(preset_name(name@)),
{
    let lower = to_chars(to_lowercase(name).as_str());
    let mut key: Vec<char> = Vec::new();
    let mut i: usize = 0;
    while i < lower.len()
        invariant
            i <= lower.len(),
            key@ == lower@.take(i as int).map_values(|c: char| if c == '_' { '-' } else { c }),
        decreases lower.len() - i,
    {
        let c = lower[i];
        key.push(if c == '_' { '-' } else { c });
        i += 1;
        assert(key@ =~= lower@.take(i as int).map_values(
            |c: char| if c == '_' { '-' } else { c },
        ));
    }
    assert(lower@.take(lower.len() as int) =~= lower@);
    if is(&key, "catppuccin-latte") {
        Some(catppuccin_latte())
    } else if is(&key, "tokyo-night") {
        Some(tokyo_night())
    } else if is(&key, "gruvbox") {
        Some(gruvbox())
    } else if is(&key, "nord") {
        Some(nord())
    } else if is(&key, "dracula") {
        Some(dracula())
    } else if is(&key, "catppuccin-mocha") {
        Some(catppuccin_mocha())
    } else {
        None
    }
}

// ---------------------------------------------------------------------
// Custom themes
// ---------------------------------------------------------------------
/// A color as a theme file writes it: text (`"#RRGGBB"` or `"default"`) or an index.
#[derive(Clone, Debug)]
pub enum ThemeColor {
    Text(String),
    Indexed(u8),
}

/// The value of an ASCII hexadecimal digit.
pub open spec fn hex_digit_value(c: char) -> nat {
    if '0' <= c <= '9' {
        (c as u32 - 48) as nat
    } else if 'a' <= c <= 'f' {
        (c as u32 - 87) as nat
    } else {
        (c as u32 - 55) as nat
    }
}

/// `#` and six hexadecimal digits.
pub open spec fn is_hex_color(v: Seq<char>) -> bool {
    v.len() == 7 && v[0] == '#' && forall|i: int| 1 <= i < 7 ==> is_ascii_hex(#[trigger] v[i])
}

/// The byte written by the two hexadecimal digits at `i` and `i + 1`.
pub open spec fn hex_byte(v: Seq<char>, i: int) -> u8 {
    (hex_digit_value(v[i]) * 16 + hex_digit_value(v[i + 1])) as u8
}

/// The color that a theme file's text stands for, if it is one.
pub open spec fn text_color(v: Seq<char>) -> Option<Color> {
    if v == "default"@ {
        Some(Color::Reset)
    } else if is_hex_color(v) {
        Some(Color::Rgb(hex_byte(v, 1), hex_byte(v, 3), hex_byte(v, 5)))
    } else {
        None
    }
}

pub open spec fn theme_color(c: ThemeColor) -> Option<Color> {
    match c {
        ThemeColor::Indexed(i) => Some(Color::Indexed(i)),
        ThemeColor::Text(v) => text_color(v@),
    }
}

pub open spec fn color_error() -> Seq<char> {
    "expected \"#RRGGBB\", \"default\", or an integer from 0 to 255"@
}

fn hex_digit(c: char) -> (r: u8)
    requires
        is_ascii_hex(c),
    ensures
        r == hex_digit_value(c),
{
    if '0' <= c && c <= '9' {
        ((c as u32) - 48) as u8
    } else if 'a' <= c && c <= 'f' {
        ((c as u32) - 87) as u8
    } else {
        ((c as u32) - 55) as u8
    }
}

impl ThemeColor {
    /// The color this value stands for, or why it is none.
    pub fn parse(&self) -> (r: Result<Color, String>)
        ensures
            match theme_color(*self) {
                Some(c) => r matches Ok(x) && x == c,
                None => r matches Err(e) && e@ == color_error(),
            },
    {
        match self {
            ThemeColor::Indexed(i) => Ok(Color::Indexed(*i)),
            ThemeColor::Text(value) => {
                let v = to_chars(value.as_str());
                if is(&v, "default") {
                    return Ok(Color::Reset);
                }
                let mut ok = v.len() == 7 && v[0] == '#';
                let mut i: usize = 1;
                while ok && i < 7
                    invariant
                        1 <= i <= 7,
                        ok ==> v@.len() == 7 && v@[0] == '#',
                        ok ==> forall|j: int| 1 <= j < i ==> is_ascii_hex(#[trigger] v@[j]),
                        !ok ==> !is_hex_color(v@),
                    decreases 7 - i,
                {
                    if !crate::text::is_hex_digit(v[i]) {
                        ok = false;
                    }
                    i += 1;
                }
                if !ok {
                    return Err(
                        "expected \"#RRGGBB\", \"default\", or an integer from 0 to 255".to_owned(),
                    );
                }
                let red = hex_digit(v[1]) * 16 + hex_digit(v[2]);
                let green = hex_digit(v[3]) * 16 + hex_digit(v[4]);
                let blue = hex_digit(v[5]) * 16 + hex_digit(v[6]);
                Ok(Color::Rgb(red, green, blue))
            },
        }
    }
}

/// Whether `name` names a color of a palette.
pub open spec fn is_color_key(name: Seq<char>) -> bool {
    name == "primary"@
        || name == "secondary"@
        || name == "accent"@
        || name == "text"@
        || name == "muted"@
        || name == "background"@
        || name == "selection_bg"@
        || name == "selection_fg"@
        || name == "success"@
        || name == "warning"@
        || name == "error"@
}

/// `p` with the color named `name` set to `c`.
pub open spec fn with_color(p: Palette, name: Seq<char>, c: Color) -> Palette {
    if name == "primary"@ {
        Palette { primary: c, ..p }
    } else if name == "secondary"@ {
        Palette { secondary: c, ..p }
    } else if name == "accent"@ {
        Palette { accent: c, ..p }
    } else if name == "text"@ {
        Palette { text: c, ..p }
    } else if name == "muted"@ {
        Palette { muted: c, ..p }
    } else if name == "background"@ {
        Palette { background: c, ..p }
    } else if name == "selection_bg"@ {
        Palette { selection_bg: c, ..p }
    } else if name == "selection_fg"@ {
        Palette { selection_fg: c, ..p }
    } else if name == "success"@ {
        Palette { success: c, ..p }
    } else if name == "warning"@ {
        Palette { warning: c, ..p }
    } else if name == "error"@ {
        Palette { error: c, ..p }
    } else {
        p
    }
}

/// Sets the color named `name` of `p` to `c`; false, and nothing set, for a name that
/// is not a color of a palette.
fn set_color(p: &mut Palette, name: &Vec<char>, c: Color) -> (r: bool)
    ensures
        r == is_color_key(name@),
        r ==> *final(p) == with_color(*old(p), name@, c),
        !r ==> *final(p) == *old(p),
{
    if is(name, "primary") {
        p.primary = c;
    } else if is(name, "secondary") {
        p.secondary = c;
    } else if is(name, "accent") {
        p.accent = c;
    } else if is(name, "text") {
        p.text = c;
    } else if is(name, "muted") {
        p.muted = c;
    } else if is(name, "background") {
        p.background = c;
    } else if is(name, "selection_bg") {
        p.selection_bg = c;
    } else if is(name, "selection_fg") {
        p.selection_fg = c;
    } else if is(name, "success") {
        p.success = c;
    } else if is(name, "warning") {
        p.warning = c;
    } else if is(name, "error") {
        p.error = c;
    } else {
        return false;
    }
    true
}

/// The named colors of a theme file, read as colors (or not).
pub open spec fn color_entries(cs: Seq<(String, ThemeColor)>) -> Seq<(Seq<char>, Option<Color>)> {
    cs.map_values(|e: (String, ThemeColor)| (e.0@, theme_color(e.1)))
}

/// `p` with the colors `cs` applied in order; the first unknown name or bad color is
/// the error.
pub open spec fn painted(p: Palette, cs: Seq<(Seq<char>, Option<Color>)>) -> Result<Palette, Seq<char>>
    decreases cs.len(),
{
    if cs.len() == 0 {
        Ok(p)
    } else {
        let name = cs[0].0;
        if !is_color_key(name) {
            Err("Unknown theme color '"@ + name + "'; see themes/README.md for supported keys"@)
        } else {
            match cs[0].1 {
                None => Err("Color '"@ + name + "': "@ + color_error()),
                Some(c) => painted(with_color(p, name, c), cs.drop_first()),
            }
        }
    }
}

/// The color of `p` that `name` names.
pub open spec fn color_named(p: Palette, name: Seq<char>) -> Color {
    if name == "primary"@ {
        p.primary
    } else if name == "secondary"@ {
        p.secondary
    } else if name == "accent"@ {
        p.accent
    } else if name == "text"@ {
        p.text
    } else if name == "muted"@ {
        p.muted
    } else if name == "background"@ {
        p.background
    } else if name == "selection_bg"@ {
        p.selection_bg
    } else if name == "selection_fg"@ {
        p.selection_fg
    } else if name == "success"@ {
        p.success
    } else if name == "warning"@ {
        p.warning
    } else if name == "error"@ {
        p.error
    } else {
        Color::Reset
    }
}

/// The names of the colors of a palette are distinct.
proof fn lemma_color_keys_distinct()
    ensures
        "primary"@ != "secondary"@,
        "primary"@ != "accent"@,
        "primary"@ != "text"@,
        "primary"@ != "muted"@,
        "primary"@ != "background"@,
        "primary"@ != "selection_bg"@,
        "primary"@ != "selection_fg"@,
        "primary"@ != "success"@,
        "primary"@ != "warning"@,
        "primary"@ != "error"@,
        "secondary"@ != "accent"@,
        "secondary"@ != "text"@,
        "secondary"@ != "muted"@,
        "secondary"@ != "background"@,
        "secondary"@ != "selection_bg"@,
        "secondary"@ != "selection_fg"@,
        "secondary"@ != "success"@,
        "secondary"@ != "warning"@,
        "secondary"@ != "error"@,
        "accent"@ != "text"@,
        "accent"@ != "muted"@,
        "accent"@ != "background"@,
        "accent"@ != "selection_bg"@,
        "accent"@ != "selection_fg"@,
        "accent"@ != "success"@,
        "accent"@ != "warning"@,
        "accent"@ != "error"@,
        "text"@ != "muted"@,
        "text"@ != "background"@,
        "text"@ != "selection_bg"@,
        "text"@ != "selection_fg"@,
        "text"@ != "success"@,
        "text"@ != "warning"@,
        "text"@ != "error"@,
        "muted"@ != "background"@,
        "muted"@ != "selection_bg"@,
        "muted"@ != "selection_fg"@,
        "muted"@ != "success"@,
        "muted"@ != "warning"@,
        "muted"@ != "error"@,
        "background"@ != "selection_bg"@,
        "background"@ != "selection_fg"@,
        "background"@ != "success"@,
        "background"@ != "warning"@,
        "background"@ != "error"@,
        "selection_bg"@ != "selection_fg"@,
        "selection_bg"@ != "success"@,
        "selection_bg"@ != "warning"@,
        "selection_bg"@ != "error"@,
        "selection_fg"@ != "success"@,
        "selection_fg"@ != "warning"@,
        "selection_fg"@ != "error"@,
        "success"@ != "warning"@,
        "success"@ != "error"@,
        "warning"@ != "error"@,
{
    reveal_strlit("primary");
    reveal_strlit("secondary");
    reveal_strlit("accent");
    reveal_strlit("text");
    reveal_strlit("muted");
    reveal_strlit("background");
    reveal_strlit("selection_bg");
    reveal_strlit("selection_fg");
    reveal_strlit("success");
    reveal_strlit("warning");
    reveal_strlit("error");
    assert("primary"@.len() != "secondary"@.len());
    assert("primary"@.len() != "accent"@.len());
    assert("primary"@.len() != "text"@.len());
    assert("primary"@.len() != "muted"@.len());
    assert("primary"@.len() != "background"@.len());
    assert("primary"@.len() != "selection_bg"@.len());
    assert("primary"@.len() != "selection_fg"@.len());
    assert("primary"@[0] != "success"@[0]);
    assert("primary"@[0] != "warning"@[0]);
    assert("primary"@.len() != "error"@.len());
    assert("secondary"@.len() != "accent"@.len());
    assert("secondary"@.len() != "text"@.len());
    assert("secondary"@.len() != "muted"@.len());
    assert("secondary"@.len() != "background"@.len());
    assert("secondary"@.len() != "selection_bg"@.len());
    assert("secondary"@.len() != "selection_fg"@.len());
    assert("secondary"@.len() != "success"@.len());
    assert("secondary"@.len() != "warning"@.len());
    assert("secondary"@.len() != "error"@.len());
    assert("accent"@.len() != "text"@.len());
    assert("accent"@.len() != "muted"@.len());
    assert("accent"@.len() != "background"@.len());
    assert("accent"@.len() != "selection_bg"@.len());
    assert("accent"@.len() != "selection_fg"@.len());
    assert("accent"@.len() != "success"@.len());
    assert("accent"@.len() != "warning"@.len());
    assert("accent"@.len() != "error"@.len());
    assert("text"@.len() != "muted"@.len());
    assert("text"@.len() != "background"@.len());
    assert("text"@.len() != "selection_bg"@.len());
    assert("text"@.len() != "selection_fg"@.len());
    assert("text"@.len() != "success"@.len());
    assert("text"@.len() != "warning"@.len());
    assert("text"@.len() != "error"@.len());
    assert("muted"@.len() != "background"@.len());
    assert("muted"@.len() != "selection_bg"@.len());
    assert("muted"@.len() != "selection_fg"@.len());
    assert("muted"@.len() != "success"@.len());
    assert("muted"@.len() != "warning"@.len());
    assert("muted"@[0] != "error"@[0]);
    assert("background"@.len() != "selection_bg"@.len());
    assert("background"@.len() != "selection_fg"@.len());
    assert("background"@.len() != "success"@.len());
    assert("background"@.len() != "warning"@.len());
    assert("background"@.len() != "error"@.len());
    assert("selection_bg"@[10] != "selection_fg"@[10]);
    assert("selection_bg"@.len() != "success"@.len());
    assert("selection_bg"@.len() != "warning"@.len());
    assert("selection_bg"@.len() != "error"@.len());
    assert("selection_fg"@.len() != "success"@.len());
    assert("selection_fg"@.len() != "warning"@.len());
    assert("selection_fg"@.len() != "error"@.len());
    assert("success"@[0] != "warning"@[0]);
    assert("success"@.len() != "error"@.len());
    assert("warning"@.len() != "error"@.len());
}

/// A custom theme inherits every color it does not name from its base: applying the
/// colors `cs` changes no color named by none of them.
pub proof fn lemma_unnamed_colors_inherited(p: Palette, cs: Seq<(Seq<char>, Option<Color>)>, k: Seq<char>)
    requires
        is_color_key(k),
        forall|i: int| 0 <= i < cs.len() ==> #[trigger] cs[i].0 != k,
    ensures
        painted(p, cs) matches Ok(q) ==> color_named(q, k) == color_named(p, k),
    decreases cs.len(),
{
    if cs.len() > 0 {
        let name = cs[0].0;
        assert(cs[0].0 != k);
        if is_color_key(name) {
            match cs[0].1 {
                Some(c) => {
                    lemma_color_keys_distinct();
                    assert(color_named(with_color(p, name, c), k) == color_named(p, k));
                    assert forall|i: int| 0 <= i < cs.drop_first().len() implies #[trigger] cs.drop_first()[i].0 != k by {
                        assert(cs.drop_first()[i] == cs[i + 1]);
                    }
                    lemma_unnamed_colors_inherited(with_color(p, name, c), cs.drop_first(), k);
                },
                None => {},
            }
        }
    }
}

/// The palette of a custom theme: its base preset with its colors applied.
pub open spec fn themed(base: Seq<char>, cs: Seq<(Seq<char>, Option<Color>)>) -> Result<Palette, Seq<char>> {
    match preset(preset_name(base)) {
        None => Err("Unknown base theme '"@ + base + "'; choose a built-in preset"@),
        Some(p) => painted(p, cs),
    }
}

/// The palette of a custom theme whose file names preset `base` and sets `colors`
/// (in the order the file's table lists them).
pub fn build_theme(base: &str, colors: &Vec<(String, ThemeColor)>) -> (r: Result<Palette, String>)
    ensures
        match themed(base@, color_entries(colors@)) {
            Ok(p) => r matches Ok(x) && x == p,
            Err(e) => r matches Err(x) && x@ == e,
        },
{
    let mut palette = match palette_for(base) {
        Some(p) => p,
        None => {
            let mut e = "Unknown base theme '".to_owned();
            e.append(base);
            e.append("'; choose a built-in preset");
            return Err(e);
        },
    };
    let ghost cs = color_entries(colors@);
    let mut i: usize = 0;
    assert(cs.skip(0) =~= cs);
    while i < colors.len()
        invariant
            i <= colors.len(),
            cs == color_entries(colors@),
            themed(base@, cs) == painted(palette, cs.skip(i as int)),
        decreases colors.len() - i,
    {
        let ghost rest = cs.skip(i as int);
        assert(rest[0] == (colors@[i as int].0@, theme_color(colors@[i as int].1)));
        assert(rest.drop_first() =~= cs.skip(i + 1));
        let name = &colors[i].0;
        let key = to_chars(name.as_str());
        let color = match colors[i].1.parse() {
            Ok(c) => Some(c),
            Err(_) => None,
        };
        let known = match color {
            Some(c) => set_color(&mut palette, &key, c),
            None => set_color(&mut palette, &key, Color::Reset),
        };
        if !known {
            let mut e = "Unknown theme color '".to_owned();
            e.append(name.as_str());
            e.append("'; see themes/README.md for supported keys");
            return Err(e);
        }
        if color.is_none() {
            let mut e = "Color '".to_owned();
            e.append(name.as_str());
            e.append("': ");
            e.append("expected \"#RRGGBB\", \"default\", or an integer from 0 to 255");
            return Err(e);
        }
        i += 1;
    }
    assert(cs.skip(i as int) =~= seq![]);
    Ok(palette)
}

// ---------------------------------------------------------------------
// Where themes are found
// ---------------------------------------------------------------------
/// `path` joined to `dir` as `Path::join` does on Unix: an absolute `path` replaces
/// `dir`; otherwise a `/` separates them where `dir` lacks one.
pub open spec fn joined(dir: Seq<char>, path: Seq<char>) -> Seq<char> {
    if path.len() > 0 && path[0] == '/' {
        path
    } else if dir.len() == 0 {
        path
    } else if dir.last() == '/' {
        dir + path
    } else {
        dir + "/"@ + path
    }
}

pub fn join(dir: &str, path: &str) -> (r: String)
    ensures
        r@ == joined(dir@, path@),
{
    let d = to_chars(dir);
    let p = to_chars(path);
    if p.len() > 0 && p[0] == '/' {
        return path.to_owned();
    }
    if d.len() == 0 {
        return path.to_owned();
    }
    let mut r = dir.to_owned();
    if d[d.len() - 1] != '/' {
        push_char(&mut r, '/');
        proof {
            reveal_strlit("/");
        }
    }
    r.append(path);
    r
}

/// Whether a theme name may name a file: letters, digits, `-` and `_`.
pub open spec fn is_name_char(c: char) -> bool {
    ('a' <= c <= 'z') || ('A' <= c <= 'Z') || ('0' <= c <= '9') || c == '-' || c == '_'
}

pub open spec fn no_dir_error() -> Seq<char> {
    "Cannot locate the PassTUI configuration directory"@
}

/// The theme file that a theme configuration names, given the configuration directory.
pub open spec fn theme_file(name: Seq<char>, file: Option<Seq<char>>, dir: Option<Seq<char>>) -> Result<Seq<char>, Seq<char>> {
    match file {
        Some(f) => if f.len() == 0 {
            Err("Theme file path cannot be empty"@)
        } else if f[0] == '/' {
            Ok(f)
        } else {
            match dir {
                None => Err(no_dir_error()),
                Some(d) => Ok(joined(d, f)),
            }
        },
        None => if name.len() == 0 || exists|i: int| 0 <= i < name.len() && !is_name_char(#[trigger] name[i]) {
            Err(
                "Theme names may contain letters, numbers, '-' and '_'; use theme.file for an explicit path"@,
            )
        } else {
            match dir {
                None => Err(no_dir_error()),
                Some(d) => Ok(joined(joined(d, "themes"@), name + ".toml"@)),
            }
        },
    }
}

pub open spec fn opt_str_view(o: Option<&str>) -> Option<Seq<char>> {
    match o {
        Some(s) => Some(s@),
        None => None,
    }
}

/// The path of the theme file that `config` names; a relative one is read from the
/// configuration directory `config_dir`, not the working directory.
pub fn theme_path(config: &ThemeConfig, config_dir: Option<&str>) -> (r: Result<String, String>)
    ensures
        match theme_file(config.name@, opt_view(config.file), opt_str_view(config_dir)) {
            Ok(p) => r matches Ok(x) && x@ == p,
            Err(e) => r matches Err(x) && x@ == e,
        },
{
    match &config.file {
        Some(file) => {
            let f = to_chars(file.as_str());
            if f.len() == 0 {
                return Err("Theme file path cannot be empty".to_owned());
            }
            if f[0] == '/' {
                return Ok(file.clone());
            }
            match config_dir {
                None => Err("Cannot locate the PassTUI configuration directory".to_owned()),
                Some(d) => Ok(join(d, file.as_str())),
            }
        },
        None => {
            let n = to_chars(config.name.as_str());
            let mut ok = n.len() > 0;
            let mut i: usize = 0;
            while i < n.len()
                invariant
                    i <= n.len(),
                    ok == (n@.len() > 0 && forall|j: int| 0 <= j < i ==> is_name_char(#[trigger] n@[j])),
                decreases n.len() - i,
            {
                let c = n[i];
                if !(('a' <= c && c <= 'z') || ('A' <= c && c <= 'Z') || ('0' <= c && c <= '9')
                    || c == '-' || c == '_') {
                    ok = false;
                }
                i += 1;
            }
            if !ok {
                return Err(
                    "Theme names may contain letters, numbers, '-' and '_'; use theme.file for an explicit path".to_owned(),
                );
            }
            match config_dir {
                None => Err("Cannot locate the PassTUI configuration directory".to_owned()),
                Some(d) => {
                    let themes = join(d, "themes");
                    let mut file = config.name.clone();
                    file.append(".toml");
                    Ok(join(themes.as_str(), file.as_str()))
                },
            }
        },
    }
}

/// Theme files are found from the configuration directory, never the working
/// directory: with an absolute configuration directory (or an absolute theme file), the
/// path of the theme file is absolute.
pub proof fn lemma_theme_file_is_absolute(name: Seq<char>, file: Option<Seq<char>>, dir: Option<Seq<char>>)
    requires
        dir matches Some(d) ==> d.len() > 0 && d[0] == '/',
    ensures
        theme_file(name, file, dir) matches Ok(p) ==> p.len() > 0 && p[0] == '/',
{
    match dir {
        Some(d) => {
            let f = match file {
                Some(f) => f,
                None => name + ".toml"@,
            };
            let t = joined(d, "themes"@);
            assert(t.len() > 0 && t[0] == '/');
            assert(joined(d, f) matches p ==> p.len() > 0 && p[0] == '/') by {
                if !(f.len() > 0 && f[0] == '/') {
                    if d.last() == '/' {
                        assert((d + f)[0] == d[0]);
                    } else {
                        assert((d + "/"@ + f)[0] == d[0]);
                    }
                }
            }
            assert(joined(t, f) matches p ==> p.len() > 0 && p[0] == '/') by {
                if !(f.len() > 0 && f[0] == '/') {
                    if t.last() == '/' {
                        assert((t + f)[0] == t[0]);
                    } else {
                        assert((t + "/"@ + f)[0] == t[0]);
                    }
                }
            }
        },
        None => {},
    }
}

/// Where the palette of a theme configuration comes from.
pub enum ThemeSource {
    Preset(Palette),
    File(String),
}

/// The preset that `config` names, when it names no file; otherwise the file to read.
pub fn theme_source(config: &ThemeConfig, config_dir: Option<&str>) -> (r: Result<ThemeSource, String>)
    ensures
        config.file is None && preset(preset_name(config.name@)) is Some ==> (r matches Ok(
            ThemeSource::Preset(p),
        ) && p == preset(preset_name(config.name@))->0),
        !(config.file is None && preset(preset_name(config.name@)) is Some) ==> match theme_file(
            config.name@,
            opt_view(config.file),
            opt_str_view(config_dir),
        ) {
            Ok(p) => r matches Ok(ThemeSource::File(x)) && x@ == p,
            Err(e) => r matches Err(x) && x@ == e,
        },
{
    if config.file.is_none() {
        match palette_for(config.name.as_str()) {
            Some(p) => {
                return Ok(ThemeSource::Preset(p));
            },
            None => {},
        }
    }
    match theme_path(config, config_dir) {
        Ok(p) => Ok(ThemeSource::File(p)),
        Err(e) => Err(e),
    }
}

/// The base preset of a theme file that names none.
pub fn default_base() -> (r: String)
    ensures
        r@ == "catppuccin-mocha"@,
{
    "catppuccin-mocha".to_owned()
}

/// Records that the configured theme could not be used (`error` says why) after any
/// other warning, since the default preset is used instead.
pub fn theme_failed(config: &mut Config, error: &str)
    ensures
        final(config).theme == old(config).theme,
        final(config).behavior == old(config).behavior,
        final(config).keybindings == old(config).keybindings,
        opt_view(final(config).warning) == Some(
            match opt_view(old(config).warning) {
                Some(w) => w + " "@ + (error@ + ". Using catppuccin-mocha."@),
                None => error@ + ". Using catppuccin-mocha."@,
            },
        ),
{
    let mut warning = error.to_owned();
    warning.append(". Using catppuccin-mocha.");
    config.add_warning(warning.as_str());
}

/// The color that shows a password strength score from 0 to 4.
pub fn strength_color(p: &Palette, score: u8) -> (r: Color)
    ensures
        r == if score <= 1 {
            p.error
        } else if score == 2 {
            p.warning
        } else {
            p.success
        },
{
    if score <= 1 {
        p.error
    } else if score == 2 {
        p.warning
    } else {
        p.success
    }
}

} // verus!
