use apex::config::{
    holds_string, parse_key, parse_mods, read_or_create, Config, Found, DEFAULT_FILE,
};

#[test]
fn no_key_is_set_twice_and_the_last_value_counts() {
    let c = Config::from_text("[a]\nk = 1\nk = 2\n[b]\nk = 3\n[A]\nK = 4\n");
    assert_eq!(c.get("a", "k"), Some("4"));
    assert_eq!(c.get("b", "k"), Some("3"));
    assert_eq!(c.entries("a").len(), 1);
}

#[test]
fn both_kinds_of_quotes_keep_what_is_in_them() {
    let c = Config::from_text(
        "[p]\na = 'C:\\tools\\x.exe' # tool\nb = \"# not a comment\"\nc = 'it\"s'\nd = plain # gone\n",
    );
    assert_eq!(c.get("p", "a"), Some(r"C:\tools\x.exe"));
    assert_eq!(c.get("p", "b"), Some("# not a comment"));
    assert_eq!(c.get("p", "c"), Some("it\"s"));
    assert_eq!(c.get("p", "d"), Some("plain"));
    assert_eq!(c.get("p", "e"), None);
}

#[test]
fn flags_fall_back_to_their_default() {
    let c = Config::from_text("[general]\na = true\nb = false\nc = maybe\n");
    assert!(c.flag("general", "a", false));
    assert!(!c.flag("general", "b", true));
    assert!(c.flag("general", "d", true) && !c.flag("general", "d", false));
}

#[test]
fn lists_and_tables_come_out_in_order() {
    let c = Config::from_text(
        "[sources]\n2 = 'b'\n1 = 'a'\n10 = 'c'\n[quicklinks.x]\nlink = 'l'\n[quicklinks.y]\nlink = 'm'\nname = 'n'\n",
    );
    // In the order of the file: the keys are just there to differ.
    assert_eq!(c.list_values("sources"), vec!["b", "a", "c"]);
    let tables = c.subtables("quicklinks");
    assert_eq!(tables.len(), 2);
    let y = tables.iter().find(|t| t.0 == "y").unwrap();
    assert!(y.1.contains(&("name".to_string(), "n".to_string())));
    assert!(c.subtables("other").is_empty());
}

#[test]
fn a_missing_file_reads_like_a_new_one() {
    let c = Config::load(&Found::Absent);
    assert!(c.general_flag("start_menu", false));
    assert_eq!(c.hotkey_vk, 0x1B);
    let given = Found::Text("[hotkey]\nmodifiers = \"none\"\nkey = \"f24\"\n".to_string());
    let given = Config::load(&given);
    assert_eq!((given.hotkey_mods, given.hotkey_vk), (0, 0x87));
}

#[test]
fn only_a_missing_file_is_created() {
    let absent = read_or_create(&Found::Absent);
    assert!(absent.create && absent.rewritable);
    assert_eq!(absent.text, DEFAULT_FILE);
    let there = read_or_create(&Found::Text("[a]\n".to_string()));
    assert!(!there.create && there.rewritable);
    assert_eq!(there.text, "[a]\n");
    let damaged = read_or_create(&Found::Unreadable);
    assert!(!damaged.create && !damaged.rewritable);
    assert_eq!(damaged.text, DEFAULT_FILE);
    let nowhere = read_or_create(&Found::Nowhere);
    assert!(!nowhere.create && !nowhere.rewritable);
    assert_eq!(nowhere.text, "");
}

#[test]
fn apostrophes_do_not_hide_comments() {
    let c = Config::from_text(
        "[a]\nk = it's # c\nname = Tom's list # todo\nq = \"a#b\" # c\ns = 'x # y' # it's\n\
         t = 'tis # c\nu = 'it's' # c\n# v = 'a'\n",
    );
    assert_eq!(c.get("a", "k"), Some("it's"));
    assert_eq!(c.get("a", "name"), Some("Tom's list"));
    assert_eq!(c.get("a", "q"), Some("a#b"));
    assert_eq!(c.get("a", "s"), Some("x # y"));
    assert_eq!(c.get("a", "t"), Some("'tis"));
    assert_eq!(c.get("a", "u"), Some("it's"));
    assert!(c.get("a", "v").is_none() && c.get("a", "# v").is_none());
}

#[test]
fn unknown_keys_and_modifiers_are_refused() {
    assert_eq!(parse_key("f25"), None);
    assert_eq!(parse_key(""), None);
    assert_eq!(parse_key("F24"), Some(0x87));
    assert_eq!(parse_mods("ctrl+hyper"), None);
    assert_eq!(parse_mods("win + shift"), Some(0x8 | 0x4));
}

#[test]
fn strings_are_found_in_a_list() {
    let v = vec!["a".to_string(), "b".to_string()];
    assert!(holds_string(&v, "b"));
    assert!(!holds_string(&v, "B"));
}

#[test]
fn the_background_is_frosted_unless_it_is_not_wanted() {
    assert!(Config::from_text("").acrylic());
    assert!(Config::from_text("[appearance]\nbackdrop = \"acrylic\"\n").acrylic());
    assert!(!Config::from_text("[appearance]\nbackdrop = \"None\"\n").acrylic());
}
