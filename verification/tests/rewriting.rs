use apex::config::Config;
use apex::rewrite::{
    add_source, remove_alias, remove_quicklink, sanitize_key, sanitize_value, set_general_flag,
    set_list, toggle_startup, upsert_alias, upsert_quicklink, Change,
};

const FILE: &str = "# mine\n[general]\ntray_icon = true # keep\n\n[aliases]\n# short names\nvs = 'code-id'\nff = 'fox-id'\n\n[hotkey]\nkey = \"space\"\n";

fn strings(v: &[&str]) -> Vec<String> {
    v.iter().map(|s| s.to_string()).collect()
}

#[test]
fn sanitized_keys_are_bare_keys() {
    assert_eq!(sanitize_key("  My Link! (2)  "), "my-link-2");
    assert_eq!(sanitize_key("Ünder_Score.x"), "nder_score.x");
    assert_eq!(sanitize_key("!!!"), "");
}

#[test]
fn sanitized_values_fit_between_quotes() {
    assert_eq!(sanitize_value(" it's \"here\"\r\n "), "its \"here\"");
    assert_eq!(sanitize_value("a\tb"), "ab");
    assert_eq!(sanitize_value(""), "");
}

#[test]
fn setting_an_alias_touches_its_own_lines_alone() {
    let s = upsert_alias(FILE, "vs", "studio-id");
    assert_eq!(
        s,
        "# mine\n[general]\ntray_icon = true # keep\n\n[aliases]\n# short names\nvs = 'studio-id'\nff = 'fox-id'\n\n[hotkey]\nkey = \"space\"\n"
    );
}

#[test]
fn an_alias_that_was_set_stands_alone_for_its_target() {
    let s = upsert_alias(FILE, "code", "code-id");
    let c = Config::from_text(&s);
    assert_eq!(c.get("aliases", "code"), Some("code-id"));
    assert_eq!(c.get("aliases", "vs"), None);
    assert_eq!(c.get("aliases", "ff"), Some("fox-id"));
}

#[test]
fn an_alias_that_was_taken_back_is_gone() {
    let s = remove_alias(FILE, "code-id");
    assert_eq!(s, FILE.replace("vs = 'code-id'\n", ""));
    let c = Config::from_text(&s);
    assert!(c.aliases_map().iter().all(|(_, target)| target != "code-id"));
    assert_eq!(remove_alias(FILE, "unknown"), FILE);
}

#[test]
fn a_section_that_is_new_comes_last() {
    assert_eq!(
        set_list("[general]\nx = 1\n", "hidden", &strings(&["search|a", "it's"])),
        "[general]\nx = 1\n[hidden]\n1 = 'search|a'\n2 = \"it's\"\n"
    );
    assert_eq!(
        set_list("[general]\nx = 1", "hidden", &strings(&["a"])),
        "[general]\nx = 1\n[hidden]\n1 = 'a'\n"
    );
    assert_eq!(set_list("x = 1\n", "hidden", &Vec::new()), "x = 1\n");
}

#[test]
fn a_list_reads_back_as_it_was_written() {
    let values = strings(&[r"D:\Tools # 1", "say \"hi\"", "it's"]);
    let s = set_list(FILE, "sources", &values);
    assert_eq!(Config::from_text(&s).list_values("sources"), values);
    let shorter = set_list(&s, "sources", &strings(&["only"]));
    assert_eq!(Config::from_text(&shorter).list_values("sources"), strings(&["only"]));
}

#[test]
fn a_list_of_more_than_nine_stays_in_order() {
    let values: Vec<String> = (1..=12).map(|i| format!("v{i}")).collect();
    let s = set_list("", "hidden", &values);
    assert_eq!(Config::from_text(&s).list_values("hidden"), values);
}

#[test]
fn flags_read_back() {
    for on in [true, false] {
        let s = set_general_flag(FILE, "tray_icon", on);
        assert_eq!(Config::from_text(&s).general_flag("tray_icon", !on), on);
    }
    assert_eq!(set_general_flag("", "tray_icon", false), "[general]\ntray_icon = false\n");
}

#[test]
fn quicklinks_read_back_and_go_again() {
    let s = upsert_quicklink(FILE, "gh", "Search GitHub", "https://g?q={q}", "chrome");
    assert!(s.ends_with(
        "[quicklinks.gh]\nname = 'Search GitHub'\nlink = 'https://g?q={q}'\nopen_with = 'chrome'\n"
    ));
    let c = Config::from_text(&s);
    assert_eq!(c.get("quicklinks.gh", "link"), Some("https://g?q={q}"));
    // Without a program there is no line for one.
    let plain = upsert_quicklink(&s, "gh", "Git", "https://g", "");
    let c = Config::from_text(&plain);
    assert_eq!(c.get("quicklinks.gh", "name"), Some("Git"));
    assert_eq!(c.get("quicklinks.gh", "open_with"), None);
    // Taking it out leaves the file as it was.
    assert_eq!(remove_quicklink(&s, "gh"), FILE);
    assert_eq!(remove_quicklink(FILE, "gh"), FILE);
}

#[test]
fn taking_a_section_out_keeps_its_comments() {
    let s = "[quicklinks.a]\n# why\nlink = 'x'\n[other]\ny = 1\n";
    assert_eq!(remove_quicklink(s, "a"), "# why\n[other]\ny = 1\n");
}

#[test]
fn starting_at_login_toggles_and_toggles_back() {
    let once = toggle_startup(FILE);
    assert!(!Config::from_text(&once).general_flag("start_on_startup", true));
    let twice = toggle_startup(&once);
    assert!(Config::from_text(&twice).general_flag("start_on_startup", true));
}

#[test]
fn a_source_is_added_once() {
    let s = add_source("[sources]\n1 = 'C:\\A'\n", r"D:\Tools").unwrap();
    assert_eq!(Config::from_text(&s).list_values("sources"), strings(&[r"C:\A", r"D:\Tools"]));
    assert_eq!(add_source(&s, r"d:\tools"), None);
}

#[test]
fn a_change_is_what_it_says() {
    let set = Change::SetAlias { alias: "vs".into(), target: "t".into() };
    assert_eq!(set.apply(FILE), upsert_alias(FILE, "vs", "t"));
    let back = Change::RemoveAlias { target: "code-id".into() };
    assert_eq!(back.apply(FILE), remove_alias(FILE, "code-id"));
    let save = Change::SaveQuicklink {
        slug: "a".into(),
        name: "A".into(),
        link: "l".into(),
        open_with: "p".into(),
    };
    assert_eq!(save.apply(FILE), upsert_quicklink(FILE, "a", "A", "l", "p"));
    let out = Change::RemoveQuicklink { slug: "a".into() };
    assert_eq!(out.apply(&save.apply(FILE)), FILE);
    let list = Change::SetList { section: "hidden".into(), values: strings(&["k"]) };
    assert_eq!(list.apply(FILE), set_list(FILE, "hidden", &strings(&["k"])));
}

#[test]
fn comments_behind_settings_stay() {
    let s = "[general]\nstart_menu = true        # entry's place\ntray_icon = true # tray\n";
    assert_eq!(
        set_general_flag(s, "start_menu", false),
        "[general]\nstart_menu = false        # entry's place\ntray_icon = true # tray\n"
    );
    assert_eq!(set_general_flag("[general]\na=1#c\n", "a", true), "[general]\na = true#c\n");
    assert_eq!(
        set_general_flag("[general]\r\na = false\r\n", "a", true),
        "[general]\r\na = true\r\n"
    );
    // Set twice, it is set in both places.
    assert_eq!(
        set_general_flag("[general]\na = 1 # x\n a = 2\n", "a", true),
        "[general]\na = true # x\na = true\n"
    );
}

#[test]
fn comments_of_settings_taken_out_stay() {
    let s = "[aliases] # mine\nvs = 'code-id'  # editor\nff = 'fox-id'\n";
    assert_eq!(remove_alias(s, "code-id"), "[aliases] # mine\n# editor\nff = 'fox-id'\n");
    assert_eq!(
        upsert_alias(s, "code", "code-id"),
        "[aliases] # mine\ncode = 'code-id'\n# editor\nff = 'fox-id'\n"
    );
    assert_eq!(
        upsert_alias(s, "vs", "code-id"),
        "[aliases] # mine\nvs = 'code-id'  # editor\nff = 'fox-id'\n"
    );
    assert_eq!(
        set_list("[hidden]\n1 = 'a' # why\n2 = 'b'\n", "hidden", &strings(&["b"])),
        "[hidden]\n1 = 'b'\n# why\n"
    );
    let link = "[quicklinks.a] # head\nname = 'A' # n\nlink = 'l' # x '#' y\nopen_with = 'p' # o\n";
    assert_eq!(
        upsert_quicklink(link, "a", "B", "m", ""),
        "[quicklinks.a] # head\nname = 'B' # n\nlink = 'm' # x '#' y\n# o\n"
    );
    assert_eq!(remove_quicklink(link, "a"), "# head\n# n\n# x '#' y\n# o\n");
}
