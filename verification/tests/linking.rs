use apex::config::Config;
use apex::plugin::{ActionResult, Disk, Effect, FormField, Plugin};
use apex::plugins::commands::Commands;
use apex::plugins::links::{fill, percent_encode, placeholder, url};
use apex::plugins::quicklinks::{targets, Quicklinks, StockIcons, CREATE_PAYLOAD};
use apex::plugins::search::{Aliases, Search};
use apex::rewrite::Change;

fn icons() -> StockIcons {
    StockIcons { internet: None, folder: None, application: None }
}

fn from_file(file: &str) -> Quicklinks {
    Quicklinks::new(Config::from_text(file).subtables("quicklinks"), icons(), &Vec::new())
}

fn slugs(q: &Quicklinks) -> Vec<String> {
    let mut out = Vec::new();
    q.browse(100, &mut out);
    out.into_iter().map(|i| i.payload).collect()
}

fn fields(name: &str, link: &str, open_with: &str) -> Vec<FormField> {
    vec![
        FormField::new("Name", name),
        FormField::new("Link", link),
        FormField::new("Open with (optional)", open_with),
    ]
}

const FILE: &str = "[quicklinks.notes]\nname = 'Notes'\nlink = 'C:\\notes'\n[quicklinks.gh]\nname = 'GitHub'\nlink = 'https://g'\n";

#[test]
fn what_goes_into_a_url_is_encoded() {
    assert_eq!(percent_encode("aZ0-_.~"), "aZ0-_.~");
    assert_eq!(percent_encode("a b&c/é"), "a%20b%26c%2F%C3%A9");
    let (a, b) = (percent_encode("a b&"), percent_encode("c/é"));
    assert_eq!(format!("{a}{b}"), percent_encode("a b&c/é"));
    // Undone byte by byte.
    assert_eq!(percent_encode("%41"), "%2541");
    assert!(url("https://x") && !url(r"C:\x"));
    let filled = fill("https://x/{a}", "ä/ &?#");
    assert_eq!(filled, "https://x/%C3%A4%2F%20%26%3F%23");
}

#[test]
fn a_link_without_a_token_is_opened_as_it_stands() {
    assert_eq!(placeholder("https://x"), None);
    assert_eq!(fill("https://x", "anything"), "https://x");
}

#[test]
fn quicklinks_go_by_name() {
    assert_eq!(slugs(&from_file(FILE)), vec!["gh", "notes"]);
}

#[test]
fn a_new_quicklink_replaces_nothing() {
    let mut q = from_file(FILE);
    let item = q.create_item(0);
    assert_eq!(item.payload, CREATE_PAYLOAD);
    let r = q.submit_form("create", &item, &fields("GH", "https://other", ""), false);
    match &r.effect {
        Effect::Rewrite(Change::SaveQuicklink { slug, name, link, open_with }) => {
            assert_eq!(slug, "gh-2");
            assert_eq!((name.as_str(), link.as_str(), open_with.as_str()), ("GH", "https://other", ""));
        }
        _ => panic!("expected the quicklink to be written"),
    }
    assert_eq!(q.len(), 3);
    assert_eq!(q.item_for("gh").unwrap().title, "GitHub");
    assert_eq!(q.item_for("gh-2").unwrap().title, "GH");
}

#[test]
fn a_quicklink_made_is_there_after_a_reload() {
    let mut q = from_file(FILE);
    let item = q.create_item(0);
    let r = q.submit_form("create", &item, &fields("My Docs", r"D:\docs", "code"), true);
    let file = match &r.effect {
        Effect::Rewrite(change) => change.apply(FILE),
        _ => panic!("expected a change"),
    };
    let mut again = from_file("");
    again.refresh(&Disk { config: Config::from_text(&file), folders: Vec::new() });
    assert_eq!(slugs(&again), slugs(&q));
    let item = again.item_for("my-docs").unwrap();
    assert_eq!(item.title, "My Docs");
    assert!(matches!(
        again.activate(&item).effect,
        Effect::OpenLink { link, open_with } if link == r"D:\docs" && open_with == "code"
    ));
}

#[test]
fn an_edited_quicklink_keeps_its_slug() {
    let mut q = from_file(FILE);
    let item = q.item_for("gh").unwrap();
    let r = q.submit_form("edit", &item, &fields("Zebra", "https://z", ""), false);
    assert!(matches!(
        &r.effect,
        Effect::Rewrite(Change::SaveQuicklink { slug, .. }) if slug == "gh"
    ));
    assert_eq!(q.len(), 2);
    assert_eq!(slugs(&q), vec!["notes", "gh"]);
}

#[test]
fn a_quicklink_without_a_name_takes_its_link_for_one() {
    let mut q = from_file("");
    let item = q.create_item(0);
    q.submit_form("create", &item, &fields("", "https://x.dev/a", ""), false);
    assert_eq!(q.item_for("httpsx.deva").unwrap().title, "https://x.dev/a");
}

#[test]
fn a_deleted_quicklink_is_gone_and_no_other() {
    let mut q = from_file(FILE);
    let item = q.item_for("gh").unwrap();
    let r = q.run_action("delete", &item);
    assert!(matches!(
        &r.effect,
        Effect::Rewrite(Change::RemoveQuicklink { slug }) if slug == "gh"
    ));
    assert_eq!(slugs(&q), vec!["notes"]);
    // What is no longer there does nothing.
    assert!(matches!(q.activate(&item).result, ActionResult::Done));
    assert!(matches!(q.activate(&item).effect, Effect::Nothing));
}

#[test]
fn links_of_a_configuration_are_listed_for_the_folders_among_them() {
    let tables = Config::from_text(FILE).subtables("quicklinks");
    assert_eq!(targets(&tables), vec![r"C:\notes", "https://g"]);
}

#[test]
fn one_alias_stands_for_one_target() {
    let mut a = Aliases::new(vec![("x".into(), "1".into()), ("y".into(), "2".into())]);
    a.set("x", "2");
    assert_eq!(a.of("2").as_deref(), Some("x"));
    assert_eq!(a.of("1"), None);
    a.remove("2");
    assert_eq!(a.of("2"), None);
    a.reload(vec![("z".into(), "3".into())]);
    assert_eq!(a.of("3").as_deref(), Some("z"));
}

#[test]
fn actions_offered_for_an_application_follow_what_it_is() {
    let mut s = Search::new(Aliases::new(vec![("ph".into(), "Photos!App".into())]));
    s.index_arrived(&apex::appindex::AppIndex {
        apps: vec![
            apex::appindex::IndexedApp {
                name: "Photos".into(),
                app_id: "Photos!App".into(),
                icon: None,
            },
            apex::appindex::IndexedApp { name: "Tool".into(), app_id: "tool".into(), icon: None },
        ],
        ..Default::default()
    });
    let ids = |p: &str| -> Vec<&'static str> {
        let item = s.item_for(p).unwrap();
        s.actions(&item).into_iter().map(|a| a.id).collect()
    };
    assert_eq!(ids("Photos!App"), vec!["open", "reveal", "remove_alias", "set_alias"]);
    assert_eq!(ids("tool"), vec!["open", "run_as_admin", "reveal", "set_alias"]);
    let item = s.item_for("tool").unwrap();
    let r = s.run_action("run_as_admin", &item);
    assert!(matches!(&r.effect, Effect::LaunchAsAdmin { app_id } if app_id == "tool"));
    // A declined prompt is no launch.
    assert!(r.stay_on_failure);
    assert!(matches!(r.outcome(false), ActionResult::Done));
    let r = s.run_action("reveal", &item);
    assert!(matches!(r.result, ActionResult::Dismiss));
    let photos = s.item_for("Photos!App").unwrap();
    s.run_action("remove_alias", &photos);
    assert_eq!(s.item_for("Photos!App").unwrap().badge, None);
}

#[test]
fn an_alias_of_nothing_is_not_set() {
    let mut s = Search::new(Aliases::new(Vec::new()));
    s.index_arrived(&apex::appindex::AppIndex {
        apps: vec![apex::appindex::IndexedApp {
            name: "Tool".into(),
            app_id: "tool".into(),
            icon: None,
        }],
        ..Default::default()
    });
    let item = s.item_for("tool").unwrap();
    let r = s.submit_text("set_alias", &item, " !! ");
    assert!(matches!(r.effect, Effect::Nothing));
    assert_eq!(s.item_for("tool").unwrap().badge, None);
}

#[test]
fn commands_reach_the_configuration_and_the_login() {
    let mut c = Commands::default();
    let find = |c: &Commands, q: &str| {
        let mut out = Vec::new();
        c.query(q, &mut out);
        out.sort_by(|a, b| b.score.cmp(&a.score));
        out.remove(0)
    };
    let item = find(&c, "open config folder");
    let r = c.activate(&item);
    assert!(matches!(r.effect, Effect::OpenConfig { folder: true }));
    assert!(matches!(r.result, ActionResult::Dismiss));
    let item = find(&c, "startup");
    let r = c.run_action("run", &item);
    assert!(matches!(r.effect, Effect::ToggleStartup));
    let item = find(&c, "add source");
    assert_eq!(item.category, "Apex");
    let path = vec![FormField::new("Folder", "")];
    assert!(matches!(
        c.submit_form("add_source", &item, &path, true).result,
        ActionResult::RequestForm { .. }
    ));
}
