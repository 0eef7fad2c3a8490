use hematite_wm::config::HotkeyConfig;
use hematite_wm::keys::clone_action;
use hematite_wm::keys::key_name_to_sym;
use hematite_wm::keys::parse_modifiers;
use hematite_wm::keys::HotkeyAction;
use hematite_wm::keys::KeyHandler;

fn entry(modifiers: &str, key: &str, action: HotkeyAction) -> HotkeyConfig {
    HotkeyConfig { modifiers: modifiers.to_string(), key: key.to_string(), action }
}

// A small keyboard mapping: two keysyms per keycode, codes 8..=10.
// Code 8 carries q/Q, code 9 carries Return, code 10 carries a/A.
fn mapping() -> Vec<u32> {
    vec![0x71, 0x51, 0xff0d, 0, 0x61, 0x41]
}

#[test]
fn modifier_masks_combine() {
    assert_eq!(parse_modifiers("CONTROL"), 4);
    assert_eq!(parse_modifiers("SHIFT"), 1);
    assert_eq!(parse_modifiers("MOD"), 64);
    assert_eq!(parse_modifiers("CONTROL|MOD"), 68);
    assert_eq!(parse_modifiers("MOD|SHIFT"), 65);
    assert_eq!(parse_modifiers("CONTROL|SHIFT|MOD"), 69);
}

#[test]
fn unknown_modifier_tokens_are_ignored() {
    assert_eq!(parse_modifiers(""), 0);
    assert_eq!(parse_modifiers("SUPERDUPER"), 0);
    assert_eq!(parse_modifiers("MOD|WHAT"), 64);
    assert_eq!(parse_modifiers("control"), 0);
}

#[test]
fn key_aliases_resolve() {
    assert_eq!(key_name_to_sym("XK_Return"), Some(0xff0d));
    assert_eq!(key_name_to_sym("XK_Left"), Some(0xff51));
    assert_eq!(key_name_to_sym("XK_Right"), Some(0xff53));
    assert_eq!(key_name_to_sym("XF86_AudioRaiseVolume"), Some(0x1008ff13));
    assert_eq!(key_name_to_sym("XF86_AudioLowerVolume"), Some(0x1008ff11));
    assert_eq!(key_name_to_sym("XF86_AudioMute"), Some(0x1008ff12));
    assert_eq!(key_name_to_sym("XF86_MonBrightnessUp"), Some(0x1008ff02));
    assert_eq!(key_name_to_sym("XF86_MonBrightnessDown"), Some(0x1008ff03));
}

#[test]
fn plain_keys_use_their_first_character() {
    assert_eq!(key_name_to_sym("q"), Some(0x71));
    assert_eq!(key_name_to_sym("1"), Some(0x31));
    assert_eq!(key_name_to_sym("qwerty"), Some(0x71));
    assert_eq!(key_name_to_sym(""), None);
}

#[test]
fn table_build_resolves_keycodes() {
    let kh = KeyHandler::new(
        8,
        10,
        2,
        mapping(),
        vec![
            entry("MOD", "q", HotkeyAction::ExitFocusedWindow),
            entry("CONTROL|MOD", "XK_Return", HotkeyAction::SwapMaster),
            entry("MOD", "a", HotkeyAction::NextFocus(1)),
        ],
    );
    assert_eq!(kh.hotkeys.len(), 3);
    assert_eq!(kh.hotkeys[0].code, 8);
    assert_eq!(kh.hotkeys[0].mask, 64);
    assert_eq!(kh.hotkeys[1].code, 9);
    assert_eq!(kh.hotkeys[1].mask, 68);
    assert_eq!(kh.hotkeys[2].code, 10);
}

#[test]
fn entries_without_keycode_are_dropped() {
    let kh = KeyHandler::new(
        8,
        10,
        2,
        mapping(),
        vec![
            entry("MOD", "XF86_AudioMute", HotkeyAction::SwapMaster),
            entry("MOD", "q", HotkeyAction::ExitFocusedWindow),
            entry("MOD", "", HotkeyAction::SwapMaster),
        ],
    );
    assert_eq!(kh.hotkeys.len(), 1);
    assert_eq!(kh.hotkeys[0].code, 8);
}

#[test]
fn lookup_returns_configured_action() {
    let kh = KeyHandler::new(
        8,
        10,
        2,
        mapping(),
        vec![
            entry("MOD", "q", HotkeyAction::Spawn("xterm".to_string())),
            entry("CONTROL|MOD", "q", HotkeyAction::ExitFocusedWindow),
            entry("MOD", "XK_Return", HotkeyAction::SwapMaster),
        ],
    );
    assert_eq!(
        kh.get_action(64, 8),
        Some(HotkeyAction::Spawn("xterm".to_string())),
    );
    assert_eq!(kh.get_action(68, 8), Some(HotkeyAction::ExitFocusedWindow));
    assert_eq!(kh.get_action(64, 9), Some(HotkeyAction::SwapMaster));
    assert_eq!(kh.get_action(68, 9), None);
    assert_eq!(kh.get_action(64, 10), None);
    assert_eq!(kh.get_action(0, 8), None);
}

#[test]
fn duplicate_keysym_resolves_to_the_highest_keycode() {
    // Codes 8 and 9 both carry q; a map filled in keycode order keeps the
    // later insertion, so q resolves to code 9.
    let kh = KeyHandler::new(
        8,
        10,
        2,
        vec![0x71, 0x51, 0x71, 0x51, 0x61, 0x41],
        vec![entry("MOD", "q", HotkeyAction::SwapMaster)],
    );
    assert_eq!(kh.hotkeys.len(), 1);
    assert_eq!(kh.hotkeys[0].code, 9);
    assert_eq!(kh.get_action(64, 9), Some(HotkeyAction::SwapMaster));
    assert_eq!(kh.get_action(64, 8), None);
}

#[test]
fn first_matching_entry_wins() {
    let kh = KeyHandler::new(
        8,
        10,
        2,
        mapping(),
        vec![
            entry("MOD", "q", HotkeyAction::SwapMaster),
            entry("MOD", "q", HotkeyAction::ExitFocusedWindow),
        ],
    );
    assert_eq!(kh.get_action(64, 8), Some(HotkeyAction::SwapMaster));
}

#[test]
fn clone_action_copies_every_variant() {
    let actions = vec![
        HotkeyAction::Spawn("a b c".to_string()),
        HotkeyAction::ExitFocusedWindow,
        HotkeyAction::SwitchTag(5),
        HotkeyAction::MoveWindow(2),
        HotkeyAction::ChangeRatio(-50),
        HotkeyAction::NextFocus(-1),
        HotkeyAction::NextTag(1),
        HotkeyAction::SwapMaster,
    ];
    for a in actions.iter() {
        assert_eq!(&clone_action(a), a);
    }
}
