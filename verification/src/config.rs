//! Configuration values as the manager consumes them: sizing, colors, font
//! and the hotkey table, with the clamps and fallbacks the loader applies.
//! The master/stack ratio is carried in thousandths throughout.

use vstd::prelude::*;

use crate::keys::HotkeyAction;

verus! {

/// One configured hotkey: a `|`-separated modifier string, a key name, and
/// the action the key fires.
#[derive(Clone, Debug)]
pub struct HotkeyConfig {
    pub modifiers: String,
    pub key: String,
    pub action: HotkeyAction,
}

/// Built-in fallbacks, used when a value is missing or unreadable.
pub const SPACING: u32 = 10;

pub const RATIO: u32 = 500;

pub const BORDER_SIZE: u32 = 1;

pub const MAIN_COLOR_R: u16 = 4369;

pub const MAIN_COLOR_G: u16 = 4369;

pub const MAIN_COLOR_B: u16 = 6939;

pub const SECONDARY_COLOR_R: u16 = 29812;

pub const SECONDARY_COLOR_G: u16 = 51143;

pub const SECONDARY_COLOR_B: u16 = 60652;

pub const FONT: &'static str = "fixed";

/// The settled configuration.
pub struct Config {
    pub spacing: u32,
    pub ratio: u32,
    pub border_size: u32,
    pub main_color: (u16, u16, u16),
    pub secondary_color: (u16, u16, u16),
    pub font: String,
    pub hotkeys: Vec<HotkeyConfig>,
}

/// `c` is one of the sixteen hexadecimal digit characters.
pub open spec fn is_hex_digit(c: char) -> bool {
    ||| '0' <= c <= '9'
    ||| 'a' <= c <= 'f'
    ||| 'A' <= c <= 'F'
}

/// The value of a hexadecimal digit character.
pub open spec fn hex_val(c: char) -> int {
    if '0' <= c <= '9' {
        c as int - 48
    } else if 'a' <= c <= 'f' {
        c as int - 87
    } else {
        c as int - 55
    }
}

/// The 16-bit X color channel encoded by the two digits at `i`: the 8-bit
/// value scaled by 257.
pub open spec fn channel_val(s: Seq<char>, i: int) -> int {
    (16 * hex_val(s[i]) + hex_val(s[i + 1])) * 257
}

/// What a `#RRGGBB` color string denotes: the first character is skipped,
/// the six characters after it must be hexadecimal digits, and each 8-bit
/// channel is scaled by 257 to a 16-bit X color value. Anything shorter or
/// non-hexadecimal denotes nothing.
pub open spec fn spec_hex_color(s: Seq<char>) -> Option<(u16, u16, u16)> {
    if s.len() >= 7 && is_hex_digit(s[1]) && is_hex_digit(s[2]) && is_hex_digit(s[3])
        && is_hex_digit(s[4]) && is_hex_digit(s[5]) && is_hex_digit(s[6]) {
        Some(
            (
                channel_val(s, 1) as u16,
                channel_val(s, 3) as u16,
                channel_val(s, 5) as u16,
            ),
        )
    } else {
        None
    }
}

/// The value of one hexadecimal digit character, or None.
fn hex_digit(c: char) -> (r: Option<u8>)
    ensures
        match r {
            Some(v) => is_hex_digit(c) && v as int == hex_val(c),
            None => !is_hex_digit(c),
        },
{
    let u = c as u32;
    if 48 <= u && u <= 57 {
        Some((u - 48) as u8)
    } else if 97 <= u && u <= 102 {
        Some((u - 87) as u8)
    } else if 65 <= u && u <= 70 {
        Some((u - 55) as u8)
    } else {
        None
    }
}

/// Parses a `#RRGGBB` color string into the three 16-bit X color channels.
pub fn hex_color_to_rgb(hex: &str) -> (r: Option<(u16, u16, u16)>)
    ensures
        r == spec_hex_color(hex@),
{
    if hex.unicode_len() < 7 {
        return None;
    }
    let d1 = hex_digit(hex.get_char(1));
    let d2 = hex_digit(hex.get_char(2));
    let d3 = hex_digit(hex.get_char(3));
    let d4 = hex_digit(hex.get_char(4));
    let d5 = hex_digit(hex.get_char(5));
    let d6 = hex_digit(hex.get_char(6));
    match (d1, d2, d3, d4, d5, d6) {
        (Some(a), Some(b), Some(c), Some(d), Some(e), Some(f)) => Some(
            (
                (16 * (a as u32) + (b as u32)) as u16 * 257,
                (16 * (c as u32) + (d as u32)) as u16 * 257,
                (16 * (e as u32) + (f as u32)) as u16 * 257,
            ),
        ),
        _ => None,
    }
}

/// Clamps a value into `0..=1000`, the range the sizing knobs accept.
pub open spec fn clamp_thousand(v: u32) -> u32 {
    if v > 1000 {
        1000
    } else {
        v
    }
}

impl Config {
    /// Settles a configuration from raw values: sizing knobs are clamped to
    /// `0..=1000`, colors fall back to the built-in palette when they do not
    /// parse, and the hotkey list is taken as given.
    pub fn from_raw(
        spacing: u32,
        ratio: u32,
        border_size: u32,
        main_color: &str,
        secondary_color: &str,
        font: String,
        hotkeys: Vec<HotkeyConfig>,
    ) -> (r: Config)
        ensures
            r.spacing == clamp_thousand(spacing),
            r.ratio == clamp_thousand(ratio),
            r.border_size == clamp_thousand(border_size),
            r.main_color == (match spec_hex_color(main_color@) {
                Some(c) => c,
                None => (MAIN_COLOR_R, MAIN_COLOR_G, MAIN_COLOR_B),
            }),
            r.secondary_color == (match spec_hex_color(secondary_color@) {
                Some(c) => c,
                None => (SECONDARY_COLOR_R, SECONDARY_COLOR_G, SECONDARY_COLOR_B),
            }),
            r.font == font,
            r.hotkeys == hotkeys,
    {
        let main = match hex_color_to_rgb(main_color) {
            Some(c) => c,
            None => (MAIN_COLOR_R, MAIN_COLOR_G, MAIN_COLOR_B),
        };
        let secondary = match hex_color_to_rgb(secondary_color) {
            Some(c) => c,
            None => (SECONDARY_COLOR_R, SECONDARY_COLOR_G, SECONDARY_COLOR_B),
        };
        Config {
            spacing: if spacing > 1000 {
                1000
            } else {
                spacing
            },
            ratio: if ratio > 1000 {
                1000
            } else {
                ratio
            },
            border_size: if border_size > 1000 {
                1000
            } else {
                border_size
            },
            main_color: main,
            secondary_color: secondary,
            font,
            hotkeys,
        }
    }
}

/// Appends one configured hotkey built from the given parts.
fn push_hotkey(v: &mut Vec<HotkeyConfig>, modifiers: &str, key: &str, action: HotkeyAction)
    ensures
        final(v)@.len() == old(v)@.len() + 1,
        forall|i: int| 0 <= i < old(v)@.len() ==> final(v)@[i] == old(v)@[i],
        final(v)@.last().modifiers@ == modifiers@,
        final(v)@.last().key@ == key@,
        final(v)@.last().action == action,
{
    v.push(
        HotkeyConfig {
            modifiers: String::from_str(modifiers),
            key: String::from_str(key),
            action,
        },
    );
}

/// One table entry spells exactly the given modifier string, key name and
/// action.
pub open spec fn binds(e: HotkeyConfig, modifiers: Seq<char>, key: Seq<char>, action: HotkeyAction) -> bool {
    &&& e.modifiers@ == modifiers
    &&& e.key@ == key
    &&& e.action == action
}

/// One table entry spells the given modifier string and key name and spawns
/// exactly the given command line.
pub open spec fn binds_spawn(e: HotkeyConfig, modifiers: Seq<char>, key: Seq<char>, cmd: Seq<char>) -> bool {
    &&& e.modifiers@ == modifiers
    &&& e.key@ == key
    &&& e.action matches HotkeyAction::Spawn(s) && s@ == cmd
}

/// The built-in hotkey table, entry by entry: a terminal, a browser, window
/// and tag controls, and one switch and one move binding on each digit key.
pub open spec fn is_default_hotkey_table(t: Seq<HotkeyConfig>) -> bool {
    &&& t.len() == 31
    &&& binds_spawn(t[0], "CONTROL|MOD"@, "XK_Return"@, "alacritty"@)
    &&& binds_spawn(t[1], "CONTROL|MOD"@, "l"@, "librewolf"@)
    &&& binds(t[2], "MOD"@, "q"@, HotkeyAction::ExitFocusedWindow)
    &&& binds_spawn(t[3], "CONTROL|MOD"@, "q"@, "killall rust_wm"@)
    &&& binds_spawn(t[4], "MOD"@, "c"@, "rofi -show drun"@)
    &&& binds_spawn(t[5], "MOD"@, "u"@, "maim --select | xclip -selection clipboard -t image/png"@)
    &&& binds(t[6], "MOD"@, "h"@, HotkeyAction::ChangeRatio(-50i32))
    &&& binds(t[7], "MOD"@, "j"@, HotkeyAction::ChangeRatio(50i32))
    &&& binds(t[8], "MOD"@, "k"@, HotkeyAction::NextFocus(1i16))
    &&& binds(t[9], "MOD"@, "l"@, HotkeyAction::NextFocus(-1i16))
    &&& binds(t[10], "MOD"@, "XK_Left"@, HotkeyAction::NextTag(-1i16))
    &&& binds(t[11], "MOD"@, "XK_Right"@, HotkeyAction::NextTag(1i16))
    &&& binds(t[12], "MOD"@, "XK_Return"@, HotkeyAction::SwapMaster)
    &&& binds(t[13], "MOD"@, "1"@, HotkeyAction::SwitchTag(1usize))
    &&& binds(t[14], "MOD"@, "2"@, HotkeyAction::SwitchTag(2usize))
    &&& binds(t[15], "MOD"@, "3"@, HotkeyAction::SwitchTag(3usize))
    &&& binds(t[16], "MOD"@, "4"@, HotkeyAction::SwitchTag(4usize))
    &&& binds(t[17], "MOD"@, "5"@, HotkeyAction::SwitchTag(5usize))
    &&& binds(t[18], "MOD"@, "6"@, HotkeyAction::SwitchTag(6usize))
    &&& binds(t[19], "MOD"@, "7"@, HotkeyAction::SwitchTag(7usize))
    &&& binds(t[20], "MOD"@, "8"@, HotkeyAction::SwitchTag(8usize))
    &&& binds(t[21], "MOD"@, "9"@, HotkeyAction::SwitchTag(9usize))
    &&& binds(t[22], "MOD|SHIFT"@, "1"@, HotkeyAction::MoveWindow(1usize))
    &&& binds(t[23], "MOD|SHIFT"@, "2"@, HotkeyAction::MoveWindow(2usize))
    &&& binds(t[24], "MOD|SHIFT"@, "3"@, HotkeyAction::MoveWindow(3usize))
    &&& binds(t[25], "MOD|SHIFT"@, "4"@, HotkeyAction::MoveWindow(4usize))
    &&& binds(t[26], "MOD|SHIFT"@, "5"@, HotkeyAction::MoveWindow(5usize))
    &&& binds(t[27], "MOD|SHIFT"@, "6"@, HotkeyAction::MoveWindow(6usize))
    &&& binds(t[28], "MOD|SHIFT"@, "7"@, HotkeyAction::MoveWindow(7usize))
    &&& binds(t[29], "MOD|SHIFT"@, "8"@, HotkeyAction::MoveWindow(8usize))
    &&& binds(t[30], "MOD|SHIFT"@, "9"@, HotkeyAction::MoveWindow(9usize))
}

/// The built-in hotkey list: a terminal, a browser, window and tag controls,
/// and one switch and one move binding for each of the nine tags.
pub fn default_hotkeys() -> (r: Vec<HotkeyConfig>)
    ensures
        is_default_hotkey_table(r@),
{
    let mut v: Vec<HotkeyConfig> = Vec::new();
    push_hotkey(&mut v, "CONTROL|MOD", "XK_Return", HotkeyAction::Spawn(String::from_str("alacritty")));
    push_hotkey(&mut v, "CONTROL|MOD", "l", HotkeyAction::Spawn(String::from_str("librewolf")));
    push_hotkey(&mut v, "MOD", "q", HotkeyAction::ExitFocusedWindow);
    push_hotkey(&mut v, "CONTROL|MOD", "q", HotkeyAction::Spawn(String::from_str("killall rust_wm")));
    push_hotkey(&mut v, "MOD", "c", HotkeyAction::Spawn(String::from_str("rofi -show drun")));
    push_hotkey(
        &mut v,
        "MOD",
        "u",
        HotkeyAction::Spawn(String::from_str("maim --select | xclip -selection clipboard -t image/png")),
    );
    push_hotkey(&mut v, "MOD", "h", HotkeyAction::ChangeRatio(-50));
    push_hotkey(&mut v, "MOD", "j", HotkeyAction::ChangeRatio(50));
    push_hotkey(&mut v, "MOD", "k", HotkeyAction::NextFocus(1));
    push_hotkey(&mut v, "MOD", "l", HotkeyAction::NextFocus(-1));
    push_hotkey(&mut v, "MOD", "XK_Left", HotkeyAction::NextTag(-1));
    push_hotkey(&mut v, "MOD", "XK_Right", HotkeyAction::NextTag(1));
    push_hotkey(&mut v, "MOD", "XK_Return", HotkeyAction::SwapMaster);
    push_hotkey(&mut v, "MOD", "1", HotkeyAction::SwitchTag(1));
    push_hotkey(&mut v, "MOD", "2", HotkeyAction::SwitchTag(2));
    push_hotkey(&mut v, "MOD", "3", HotkeyAction::SwitchTag(3));
    push_hotkey(&mut v, "MOD", "4", HotkeyAction::SwitchTag(4));
    push_hotkey(&mut v, "MOD", "5", HotkeyAction::SwitchTag(5));
    push_hotkey(&mut v, "MOD", "6", HotkeyAction::SwitchTag(6));
    push_hotkey(&mut v, "MOD", "7", HotkeyAction::SwitchTag(7));
    push_hotkey(&mut v, "MOD", "8", HotkeyAction::SwitchTag(8));
    push_hotkey(&mut v, "MOD", "9", HotkeyAction::SwitchTag(9));
    push_hotkey(&mut v, "MOD|SHIFT", "1", HotkeyAction::MoveWindow(1));
    push_hotkey(&mut v, "MOD|SHIFT", "2", HotkeyAction::MoveWindow(2));
    push_hotkey(&mut v, "MOD|SHIFT", "3", HotkeyAction::MoveWindow(3));
    push_hotkey(&mut v, "MOD|SHIFT", "4", HotkeyAction::MoveWindow(4));
    push_hotkey(&mut v, "MOD|SHIFT", "5", HotkeyAction::MoveWindow(5));
    push_hotkey(&mut v, "MOD|SHIFT", "6", HotkeyAction::MoveWindow(6));
    push_hotkey(&mut v, "MOD|SHIFT", "7", HotkeyAction::MoveWindow(7));
    push_hotkey(&mut v, "MOD|SHIFT", "8", HotkeyAction::MoveWindow(8));
    push_hotkey(&mut v, "MOD|SHIFT", "9", HotkeyAction::MoveWindow(9));
    v
}

impl Default for Config {
    /// The built-in configuration, used when no file can be read.
    fn default() -> (r: Config)
        ensures
            r.spacing == SPACING,
            r.ratio == RATIO,
            r.border_size == BORDER_SIZE,
            r.main_color == (MAIN_COLOR_R, MAIN_COLOR_G, MAIN_COLOR_B),
            r.secondary_color == (SECONDARY_COLOR_R, SECONDARY_COLOR_G, SECONDARY_COLOR_B),
            r.font@ == FONT@,
            is_default_hotkey_table(r.hotkeys@),
    {
        Config {
            spacing: SPACING,
            ratio: RATIO,
            border_size: BORDER_SIZE,
            main_color: (MAIN_COLOR_R, MAIN_COLOR_G, MAIN_COLOR_B),
            secondary_color: (SECONDARY_COLOR_R, SECONDARY_COLOR_G, SECONDARY_COLOR_B),
            font: String::from_str(FONT),
            hotkeys: default_hotkeys(),
        }
    }
}

} // verus!
