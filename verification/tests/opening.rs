use apex::config::Config;
use apex::launch::{open, EXPLORER};
use apex::plugins::search::{reveal_target, target};
use apex::setup::{logon_task, wants_start_menu, wants_startup, TASK_NAME};

fn pair(file: &str, args: Option<&str>) -> (String, Option<String>) {
    (file.to_string(), args.map(String::from))
}

#[test]
fn explorer_opens_what_should_not_run_elevated() {
    assert_eq!(open(r"C:\a b.exe", None, true), pair(EXPLORER, Some("\"C:\\a b.exe\"")));
    assert_eq!(open(r"C:\a b.exe", None, false), pair(r"C:\a b.exe", None));
}

#[test]
fn a_named_program_is_started_itself() {
    for elevated in [true, false] {
        assert_eq!(
            open("https://x.dev", Some("chrome"), elevated),
            pair("chrome", Some("https://x.dev"))
        );
    }
}

#[test]
fn files_are_opened_and_shown_as_files() {
    assert_eq!(target(r"D:\Tools\x.exe", true), r"D:\Tools\x.exe");
    assert_eq!(
        reveal_target(r"D:\Tools\x.exe", true),
        pair("explorer.exe", Some("/select,\"D:\\Tools\\x.exe\""))
    );
    assert_eq!(reveal_target("App.Id", false), pair("shell:AppsFolder", None));
}

#[test]
fn the_logon_task_is_made_anew_or_taken_away() {
    let made = logon_task(true, r"C:\Apex\apex.exe", true).unwrap();
    assert_eq!(
        made,
        vec![
            "/create",
            "/tn",
            "Apex Elevated Logon",
            "/tr",
            "\"C:\\Apex\\apex.exe\"",
            "/sc",
            "onlogon",
            "/rl",
            "highest",
            "/f",
        ]
    );
    assert_eq!(logon_task(true, r"C:\Apex\apex.exe", false), Some(made));
    let gone = vec!["/delete", "/tn", TASK_NAME, "/f"];
    assert_eq!(logon_task(false, "x", true).unwrap(), gone);
    assert_eq!(logon_task(false, "x", false), None);
}

#[test]
fn what_is_set_up_follows_the_flags() {
    let c = Config::from_text("");
    assert!(wants_start_menu(&c) && wants_startup(&c));
    let c = Config::from_text("[general]\nstart_menu = false\nstart_on_startup = false\n");
    assert!(!wants_start_menu(&c) && !wants_startup(&c));
}
