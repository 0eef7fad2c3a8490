use hematite_wm::config::default_hotkeys;
use hematite_wm::config::hex_color_to_rgb;
use hematite_wm::config::Config;
use hematite_wm::keys::HotkeyAction;

#[test]
fn hex_colors_parse_and_scale() {
    assert_eq!(hex_color_to_rgb("#11111b"), Some((4369, 4369, 6939)));
    assert_eq!(hex_color_to_rgb("#74c7ec"), Some((29812, 51143, 60652)));
    assert_eq!(hex_color_to_rgb("#000000"), Some((0, 0, 0)));
    assert_eq!(hex_color_to_rgb("#ffffff"), Some((65535, 65535, 65535)));
    assert_eq!(hex_color_to_rgb("#FFFFFF"), Some((65535, 65535, 65535)));
}

#[test]
fn bad_hex_colors_are_rejected() {
    assert_eq!(hex_color_to_rgb(""), None);
    assert_eq!(hex_color_to_rgb("#fff"), None);
    assert_eq!(hex_color_to_rgb("#gggggg"), None);
    assert_eq!(hex_color_to_rgb("#12345"), None);
    // Only the six digits after the first character count; the rest is
    // ignored, as is the first character itself.
    assert_eq!(hex_color_to_rgb("#111111zz"), Some((4369, 4369, 4369)));
    assert_eq!(hex_color_to_rgb("x111111"), Some((4369, 4369, 4369)));
}

#[test]
fn from_raw_clamps_the_sizing_knobs() {
    let c = Config::from_raw(
        5000,
        1200,
        3,
        "#11111b",
        "#74c7ec",
        "fixed".to_string(),
        Vec::new(),
    );
    assert_eq!(c.spacing, 1000);
    assert_eq!(c.ratio, 1000);
    assert_eq!(c.border_size, 3);
    assert_eq!(c.main_color, (4369, 4369, 6939));
    assert_eq!(c.secondary_color, (29812, 51143, 60652));
    assert_eq!(c.font, "fixed");
}

#[test]
fn from_raw_falls_back_on_bad_colors() {
    let c = Config::from_raw(
        10,
        500,
        1,
        "nonsense",
        "#zzzzzz",
        "fixed".to_string(),
        Vec::new(),
    );
    assert_eq!(c.main_color, (4369, 4369, 6939));
    assert_eq!(c.secondary_color, (29812, 51143, 60652));
}

#[test]
fn default_config_holds_the_builtin_values() {
    let c = Config::default();
    assert_eq!(c.spacing, 10);
    assert_eq!(c.ratio, 500);
    assert_eq!(c.border_size, 1);
    assert_eq!(c.main_color, (4369, 4369, 6939));
    assert_eq!(c.secondary_color, (29812, 51143, 60652));
    assert_eq!(c.font, "fixed");
    assert_eq!(c.hotkeys.len(), 31);
}

#[test]
fn default_hotkeys_cover_all_nine_tags() {
    let hks = default_hotkeys();
    assert_eq!(hks.len(), 31);
    for n in 1..=9usize {
        assert!(hks
            .iter()
            .any(|h| matches!(h.action, HotkeyAction::SwitchTag(m) if m == n)));
        assert!(hks
            .iter()
            .any(|h| matches!(h.action, HotkeyAction::MoveWindow(m) if m == n)));
    }
    assert_eq!(hks[0].modifiers, "CONTROL|MOD");
    assert_eq!(hks[0].key, "XK_Return");
    assert!(matches!(hks[0].action, HotkeyAction::Spawn(ref s) if s == "alacritty"));
    for n in 1..=9usize {
        assert_eq!(hks[12 + n].modifiers, "MOD");
        assert_eq!(hks[12 + n].key, n.to_string());
        assert!(matches!(hks[12 + n].action, HotkeyAction::SwitchTag(m) if m == n));
        assert_eq!(hks[21 + n].modifiers, "MOD|SHIFT");
        assert_eq!(hks[21 + n].key, n.to_string());
        assert!(matches!(hks[21 + n].action, HotkeyAction::MoveWindow(m) if m == n));
    }
    assert_eq!(hks[12].modifiers, "MOD");
    assert_eq!(hks[12].key, "XK_Return");
    assert!(matches!(hks[12].action, HotkeyAction::SwapMaster));
}
