use apex::config::{
    parse_key, parse_mods, Config, DEFAULT_FILE, DEFAULT_HOTKEY_MODS, DEFAULT_HOTKEY_VK,
};

#[test]
fn parses_sections_comments_quotes() {
    let cfg = Config::from_text(
        "# comment\n[Hotkey]\nmodifiers = \"ctrl+alt\" # trailing\nkey = f19\n\n[plugins]\nsearch = false\n",
    );
    assert_eq!(cfg.hotkey_mods, 0x2 | 0x1);
    assert_eq!(cfg.hotkey_vk, 0x70 + 18);
    assert!(!cfg.plugin_enabled("search"));
    assert!(cfg.plugin_enabled("unlisted"));
}

#[test]
fn defaults_when_missing_or_invalid() {
    for text in ["", "[hotkey]\nmodifiers = \"bogus\"\nkey = \"escape\"\n"] {
        let cfg = Config::from_text(text);
        assert_eq!(cfg.hotkey_mods, DEFAULT_HOTKEY_MODS);
        assert_eq!(cfg.hotkey_vk, DEFAULT_HOTKEY_VK);
    }
}

#[test]
fn default_file_round_trips() {
    let cfg = Config::from_text(DEFAULT_FILE);
    assert_eq!(cfg.hotkey_mods, DEFAULT_HOTKEY_MODS);
    assert_eq!(cfg.hotkey_vk, DEFAULT_HOTKEY_VK);
    assert!(cfg.plugin_enabled("search"));
    assert!(cfg.general_flag("start_menu", true));
    assert!(cfg.general_flag("start_on_startup", true));
}

#[test]
fn general_flags() {
    let cfg = Config::from_text("[general]\nstart_menu = false\n");
    assert!(!cfg.general_flag("start_menu", true));
    assert!(cfg.general_flag("start_on_startup", true));
    assert!(!cfg.general_flag("unknown", false));
}

#[test]
fn key_names() {
    assert_eq!(parse_key("a"), Some(0x41));
    assert_eq!(parse_key("Z"), Some(0x5A));
    assert_eq!(parse_key("7"), Some(0x37));
    assert_eq!(parse_key("f1"), Some(0x70));
    assert_eq!(parse_key("f24"), Some(0x87));
    assert_eq!(parse_key("f25"), None);
    assert_eq!(parse_key("space"), Some(0x20));
    assert_eq!(parse_key("nope"), None);
}

#[test]
fn modifier_combos() {
    assert_eq!(parse_mods("ctrl"), Some(0x2));
    assert_eq!(parse_mods("Ctrl+Shift"), Some(0x6));
    assert_eq!(parse_mods("win+alt"), Some(0x9));
    assert_eq!(parse_mods("none"), Some(0));
    assert_eq!(parse_mods("hyper"), None);
}
