use apex::app::{
    key, App, Listing, Mode, Outside, Source, Standing, UiOutcome, ACTION_HIDE, ACTION_UNHIDE,
    COMMANDS, MAX_RESULTS, SHELL, SUGGESTIONS,
};
use apex::appindex::{AppIndex, IndexedApp};
use apex::config::Config;
use apex::editor::Edit;
use apex::plugin::{ActionResult, Disk, Effect, Plugin, Reply, ShellCommand};
use apex::plugins::plugins;
use apex::plugins::quicklinks::StockIcons;
use apex::rewrite::Change;
use apex::window::Target;

const FILE: &str = "[aliases]\nvs = 'code-id'\n[quicklinks.gh]\nname = 'Search GitHub'\nlink = 'https://g?q={query}'\n";

fn index(names: &[(&str, &str)]) -> AppIndex {
    AppIndex {
        apps: names
            .iter()
            .map(|(name, id)| IndexedApp {
                name: name.to_string(),
                app_id: id.to_string(),
                icon: None,
            })
            .collect(),
        ..Default::default()
    }
}

fn launcher(file: &str, apps: &[(&str, &str)]) -> App {
    let config = Config::from_text(file);
    let icons = StockIcons { internet: None, folder: None, application: None };
    let made = plugins(&config, icons, None, &Vec::new());
    let mut all: Vec<Box<dyn Plugin>> = Vec::new();
    if let Some(p) = made.search {
        all.push(Box::new(p));
    }
    if let Some(p) = made.quicklinks {
        all.push(Box::new(p));
    }
    if let Some(p) = made.commands {
        all.push(Box::new(p));
    }
    let mut app = App::new(all, &config);
    app.index_arrived(&index(apps));
    app
}

fn outside(file: &str, standing: &[(&str, &str, u8)], sources: &[(&str, &str)]) -> Outside {
    Outside {
        standing: standing
            .iter()
            .map(|(plugin, payload, bonus)| Standing {
                plugin: plugin.to_string(),
                payload: payload.to_string(),
                bonus: *bonus,
            })
            .collect(),
        sources: sources
            .iter()
            .map(|(path, name)| Source { path: path.to_string(), name: name.to_string() })
            .collect(),
        folder_icon: None,
        disk: Disk { config: Config::from_text(file), folders: Vec::new() },
    }
}

const APPS: &[(&str, &str)] = &[
    ("Firefox", "fox-id"),
    ("Notepad", "note-id"),
    ("Visual Studio Code", "code-id"),
];

fn titles(app: &App) -> Vec<&str> {
    app.results.iter().map(|r| r.title.as_str()).collect()
}

fn type_in(app: &mut App, text: &str, w: &Outside) {
    app.edit(Edit::Text(text), w);
}

fn many(n: usize) -> App {
    let names: Vec<(String, String)> =
        (0..n).map(|i| (format!("Tool {i:03}"), format!("id-{i:03}"))).collect();
    let names: Vec<(&str, &str)> = names.iter().map(|(a, b)| (a.as_str(), b.as_str())).collect();
    let mut app = launcher("", &names);
    app.refresh_on_show(&outside("", &[], &[]));
    app
}

#[test]
fn without_a_history_everything_stands_under_one_heading() {
    let w = outside(FILE, &[], &[]);
    let mut a = launcher(FILE, APPS);
    a.refresh_on_show(&w);
    assert_eq!(titles(&a), vec!["Firefox", "Notepad", "Visual Studio Code", "Search GitHub"]);
    assert_eq!(a.sections, vec![(0, COMMANDS)]);
    assert_eq!(a.selected, 0);
}

#[test]
fn suggestions_come_first_and_are_not_repeated() {
    let w = outside(
        FILE,
        &[("quicklinks", "gh", 30), ("search", "gone-id", 20), ("search", "note-id", 10)],
        &[],
    );
    let mut a = launcher(FILE, APPS);
    a.refresh_on_show(&w);
    assert_eq!(titles(&a), vec!["Search GitHub", "Notepad", "Firefox", "Visual Studio Code"]);
    assert_eq!(a.sections, vec![(0, SUGGESTIONS), (2, COMMANDS)]);
}

#[test]
fn hidden_entries_are_listed_nowhere_and_take_no_suggestion() {
    let file = "[hidden]\n1 = 'search/note-id'\n";
    let w = outside(file, &[("search", "note-id", 30), ("search", "fox-id", 1)], &[]);
    let mut a = launcher(file, APPS);
    a.refresh_on_show(&w);
    assert_eq!(titles(&a), vec!["Firefox", "Visual Studio Code"]);
    assert_eq!(a.sections, vec![(0, SUGGESTIONS), (1, COMMANDS)]);
    type_in(&mut a, "notepad", &w);
    assert!(titles(&a).is_empty());
}

#[test]
fn rows_rank_by_score_and_history_tips_the_scale() {
    let apps = &[("Paint", "a"), ("Pains", "b")];
    let w = outside("", &[], &[]);
    let mut a = launcher("", apps);
    type_in(&mut a, "pai", &w);
    assert_eq!(titles(&a)[..2], ["Pains", "Paint"]);
    let w = outside("", &[("search", "a", 3)], &[]);
    let mut a = launcher("", apps);
    type_in(&mut a, "pai", &w);
    assert_eq!(titles(&a)[..2], ["Paint", "Pains"]);
    assert_eq!(a.results[0].score, a.results[1].score + 3);
}

#[test]
fn an_alias_comes_before_the_most_used() {
    let w = outside(FILE, &[("search", "vst-id", 40)], &[]);
    let mut a = launcher(FILE, &[("VS", "vst-id"), ("Visual Studio Code", "code-id")]);
    type_in(&mut a, "vs", &w);
    assert_eq!(a.results[0].payload, "code-id");
    assert_eq!(a.results[0].badge.as_deref(), Some("vs"));
}

#[test]
fn an_alias_finds_an_application_of_any_name() {
    let file = "[aliases]\nzz = 'fox-id'\n";
    let w = outside(file, &[("search", "zip-id", 40), ("commands", "quit", 255)], &[]);
    let mut a = launcher(file, &[("ZZ Top", "zip-id"), ("Firefox", "fox-id")]);
    type_in(&mut a, "ZZ", &w);
    assert_eq!(titles(&a)[..2], ["Firefox", "ZZ Top"]);
    assert_eq!(a.results[0].score, 2000);
    assert_eq!(a.results[0].badge.as_deref(), Some("zz"));
}

#[test]
fn lists_are_cut_off_at_their_limit() {
    let mut a = many(450);
    assert_eq!(a.results.len(), MAX_RESULTS);
    let w = outside("", &[], &[]);
    type_in(&mut a, "tool", &w);
    assert_eq!(a.results.len(), MAX_RESULTS);
}

#[test]
fn the_selection_goes_round_and_stays_in_sight() {
    let mut a = many(30);
    a.move_selection(-1);
    assert_eq!(a.selected, 29);
    // 26 of heading, 6 of padding on top, 30 rows of 44, 6 below; 364 shown.
    assert_eq!(a.scroll, (6 + 26 + 30 * 44 - 364) * 10);
    a.move_selection(1);
    assert_eq!((a.selected, a.scroll), (0, 60));
    for _ in 0..5 {
        a.move_selection(1);
    }
    for _ in 0..5 {
        a.move_selection(-1);
    }
    assert_eq!(a.selected, 0);
}

#[test]
fn scrolling_stops_at_both_ends() {
    let mut a = many(30);
    assert!(!a.scroll_by(1000));
    assert!(a.scroll_by(-100));
    assert_eq!(a.scroll, 100);
    assert!(a.scroll_by(-1_000_000));
    assert_eq!(a.scroll, (6 + 26 + 30 * 44 + 6 - 364) * 10);
    assert!(a.scroll_by(i64::MAX));
    assert_eq!(a.scroll, 0);
    let mut short = many(3);
    assert!(!short.scroll_by(-100));
}

#[test]
fn one_row_lies_under_a_point() {
    let a = many(30);
    // The list starts at 59, its first row 32 below.
    assert_eq!(a.row_at(90, 96), None);
    assert_eq!(a.row_at(91, 96), Some(0));
    assert_eq!(a.row_at(134, 96), Some(0));
    assert_eq!(a.row_at(135, 96), Some(1));
    assert_eq!(a.row_at(182, 192), Some(0));
    assert_eq!(a.row_at(59 + 365, 96), None);
    assert_eq!(a.row_at(-1, 96), None);
}

#[test]
fn clicks_and_hovering_go_by_the_same_rows() {
    let mut a = many(30);
    assert!(a.click_target(57, 96) == Target::Input);
    assert!(a.click_target(58, 96) == Target::Nothing);
    assert!(a.click_target(135, 96) == Target::Row(1));
    assert!(a.hover(135, 96));
    assert_eq!(a.selected, 1);
    assert!(!a.hover(140, 96));
    assert!(a.open_actions());
    assert!(a.click_target(135, 96) == Target::Nothing);
    assert!(!a.hover(91, 96));
}

#[test]
fn selecting_a_row_takes_one_that_is_there() {
    let mut a = many(3);
    assert!(a.select(2));
    assert!(!a.select(2));
    assert!(!a.select(3));
    assert_eq!(a.selected, 2);
}

#[test]
fn typing_leaves_the_lists_to_review() {
    let w = outside(FILE, &[], &[(r"D:\Tools", "Tools")]);
    let mut a = launcher(FILE, APPS);
    a.show_sources(&w);
    assert!(a.listing == Listing::Sources);
    assert_eq!(titles(&a), vec!["Tools"]);
    assert_eq!(a.results[0].plugin, SHELL);
    type_in(&mut a, "fire", &w);
    assert!(a.listing == Listing::Normal);
    assert_eq!(titles(&a)[0], "Firefox");
}

#[test]
fn source_rows_cannot_be_launched() {
    let w = outside(FILE, &[], &[(r"D:\Tools", "Tools")]);
    let mut a = launcher(FILE, APPS);
    a.show_sources(&w);
    let r = a.activate_selected();
    assert!(matches!(r.effect, Effect::Nothing));
    assert!(matches!(r.result, ActionResult::Done));
}

#[test]
fn removing_a_source_keeps_the_others_and_reloads() {
    let w = outside(FILE, &[], &[(r"C:\A", "A"), (r"D:\Tools", "Tools")]);
    let mut a = launcher(FILE, APPS);
    a.show_sources(&w);
    a.select(1);
    assert!(a.open_actions());
    let r = a.run_panel_action(&w).unwrap();
    assert!(r.reload);
    match &r.effect {
        Effect::Rewrite(Change::SetList { section, values }) => {
            assert_eq!(section, "sources");
            assert_eq!(values, &vec![r"C:\A".to_string()]);
        }
        _ => panic!("expected the list to be rewritten"),
    }
}

fn run(a: &mut App, id: &str, w: &Outside) -> Reply {
    assert!(a.open_actions());
    let at = match &a.mode {
        Mode::Actions { actions, .. } => actions.iter().position(|x| x.id == id).unwrap(),
        _ => panic!("expected the actions panel"),
    };
    for _ in 0..at {
        a.panel_move(1);
    }
    a.run_panel_action(w).unwrap()
}

#[test]
fn hiding_takes_hold_and_restoring_undoes_it() {
    let w = outside(FILE, &[], &[]);
    let mut a = launcher(FILE, APPS);
    a.refresh_on_show(&w);
    let r = run(&mut a, ACTION_HIDE, &w);
    assert_eq!(a.hidden, vec![key("search", "fox-id")]);
    // What is written is what a restart reads.
    let file = match &r.effect {
        Effect::Rewrite(change) => change.apply(FILE),
        _ => panic!("expected a change of the configuration"),
    };
    assert_eq!(Config::from_text(&file).list_values("hidden"), vec!["search/fox-id"]);
    assert!(launcher(&file, APPS).hidden == vec!["search/fox-id".to_string()]);
    a.apply(r, true, &w);
    assert_eq!(titles(&a)[0], "Notepad");

    a.show_hidden(&w);
    assert_eq!(titles(&a), vec!["Firefox"]);
    let r = run(&mut a, ACTION_UNHIDE, &w);
    a.apply(r, true, &w);
    assert!(a.hidden.is_empty());
    a.clear_query(&w);
}

#[test]
fn the_panel_goes_round_and_closes() {
    let w = outside(FILE, &[], &[]);
    let mut a = launcher(FILE, APPS);
    a.refresh_on_show(&w);
    assert!(a.open_actions());
    a.panel_move(-1);
    match &a.mode {
        Mode::Actions { actions, selected } => {
            assert_eq!(*selected, actions.len() - 1);
            assert_eq!(actions[*selected].id, ACTION_HIDE);
        }
        _ => panic!("expected the actions panel"),
    }
    a.close_panel();
    assert!(matches!(a.mode, Mode::Search));
    assert!(a.run_panel_action(&w).is_none());
    assert!(a.submit_text_input().is_none());
    assert!(a.submit_form(false).is_none());
}

#[test]
fn a_launch_is_remembered_and_a_failed_one_is_not() {
    let w = outside(FILE, &[], &[]);
    let mut a = launcher(FILE, APPS);
    type_in(&mut a, "fire", &w);
    let r = a.activate_selected();
    assert!(matches!(&r.effect, Effect::Launch { app_id } if app_id == "fox-id"));
    let done = a.apply(r, true, &w);
    assert!(done.outcome == UiOutcome::Hide && !done.forget);
    let l = done.launched.unwrap();
    assert_eq!((l.plugin, l.payload.as_str()), ("search", "fox-id"));

    let r = a.activate_selected();
    let failed = a.apply(r, false, &w);
    assert!(failed.outcome == UiOutcome::Stay);
    assert!(failed.launched.is_none());
}

#[test]
fn rows_go_back_to_the_plugin_that_found_them() {
    let w = outside(FILE, &[], &[]);
    let mut a = launcher(FILE, APPS);
    type_in(&mut a, "apex: quit", &w);
    let r = a.activate_selected();
    let done = a.apply(r, true, &w);
    assert!(done.outcome == UiOutcome::Shell(ShellCommand::Quit));
    assert!(done.launched.is_none());
}

#[test]
fn clearing_the_history_forgets_it_at_once() {
    let w = outside(FILE, &[("search", "note-id", 10)], &[]);
    let mut a = launcher(FILE, APPS);
    type_in(&mut a, "clear history", &w);
    let r = a.activate_selected();
    let done = a.apply(r, true, &w);
    assert!(done.forget && done.outcome == UiOutcome::Stay);
    assert_eq!(a.sections, vec![(0, COMMANDS)]);
    assert!(a.query.is_empty());
}

#[test]
fn a_quicklink_asks_for_its_argument() {
    let w = outside(FILE, &[], &[]);
    let mut a = launcher(FILE, APPS);
    type_in(&mut a, "github", &w);
    let r = a.activate_selected();
    let asked = a.apply(r, true, &w);
    assert!(asked.outcome == UiOutcome::Stay && asked.launched.is_none());
    match &a.mode {
        Mode::TextInput { prompt, .. } => assert_eq!(prompt, "query"),
        _ => panic!("expected a prompt"),
    }
    type_in(&mut a, "  rust lang ", &w);
    let r = a.submit_text_input().unwrap();
    match &r.effect {
        Effect::OpenLink { link, open_with } => {
            assert_eq!(link, "https://g?q=rust%20lang");
            assert_eq!(open_with, "");
        }
        _ => panic!("expected the link to be opened"),
    }
    let done = a.apply(r, true, &w);
    assert_eq!(done.launched.unwrap().payload, "gh");
}

#[test]
fn an_alias_can_be_set_and_found_at_once() {
    let w = outside(FILE, &[], &[]);
    let mut a = launcher(FILE, APPS);
    type_in(&mut a, "notepad", &w);
    let r = run(&mut a, "set_alias", &w);
    a.apply(r, true, &w);
    type_in(&mut a, "My Notes", &w);
    let r = a.submit_text_input().unwrap();
    match &r.effect {
        Effect::Rewrite(Change::SetAlias { alias, target }) => {
            assert_eq!((alias.as_str(), target.as_str()), ("my-notes", "note-id"));
        }
        _ => panic!("expected the alias to be written"),
    }
    a.apply(r, true, &w);
    assert_eq!(a.results[0].badge.as_deref(), Some("my-notes"));
}

#[test]
fn a_form_moves_round_and_is_handed_in_trimmed() {
    let w = outside("", &[], &[]);
    let mut a = launcher("", APPS);
    type_in(&mut a, "add source", &w);
    let r = a.activate_selected();
    a.apply(r, true, &w);
    a.form_move(1);
    a.form_move(-1);
    assert!(matches!(&a.mode, Mode::Form { focused: 0, .. }));
    type_in(&mut a, r" D:\Tools ", &w);
    assert_eq!(a.form_path().as_deref(), Some(r"D:\Tools"));
    // Not a folder: the form comes back.
    let again = a.submit_form(false).unwrap();
    assert!(matches!(&again.result, ActionResult::RequestForm { title, .. } if title == "Folder not found"));
    let r = a.submit_form(true).unwrap();
    assert!(matches!(&r.effect, Effect::AddSource { path } if path == r"D:\Tools"));
    assert!(matches!(r.result, ActionResult::Refresh));
}

#[test]
fn a_reload_takes_over_what_is_on_disk() {
    let mut a = launcher("", APPS);
    let w = outside(FILE, &[], &[]);
    type_in(&mut a, "reload", &w);
    let r = a.activate_selected();
    assert!(matches!(r.result, ActionResult::Refresh));
    a.apply(r, true, &w);
    assert_eq!(titles(&a), vec!["Firefox", "Notepad", "Visual Studio Code", "Search GitHub"]);
    assert_eq!(a.results[2].badge.as_deref(), Some("vs"));
    a.reload_plugins(&outside("", &[], &[]).disk);
    a.refresh_on_show(&outside("", &[], &[]));
    assert_eq!(titles(&a), vec!["Firefox", "Notepad", "Visual Studio Code"]);
}

#[test]
fn cut_copy_and_the_caret_work_on_the_query() {
    let w = outside("", &[], &[]);
    let mut a = launcher("", APPS);
    type_in(&mut a, "fire", &w);
    assert_eq!(a.selected_text(), None);
    a.place_caret(1, false);
    a.place_caret(3, true);
    assert_eq!(a.selected_text().as_deref(), Some("ir"));
    assert_eq!(a.cut(&w).as_deref(), Some("ir"));
    assert_eq!(a.query.text(), "fe");
    assert_eq!(a.cut(&w), None);
    a.clear_query(&w);
    assert!(a.query.is_empty());
}

#[test]
fn disabled_plugins_are_never_made() {
    let config = Config::from_text("[plugins]\nsearch = false\ncommands = false\n");
    let icons = StockIcons { internet: None, folder: None, application: None };
    let made = plugins(&config, icons, None, &Vec::new());
    assert!(made.search.is_none() && made.commands.is_none());
    assert!(made.quicklinks.is_some());
}

#[test]
fn appearance_is_read_from_the_configuration() {
    let dark = launcher("[appearance]\ntheme = \"dark\"\nanimation = true\n", &[]);
    assert!(dark.forced_dark == Some(true) && dark.animate);
    let light = launcher("[appearance]\ntheme = \"light\"\n", &[]);
    assert!(light.forced_dark == Some(false) && !light.animate);
    assert!(launcher("", &[]).forced_dark.is_none());
}

#[test]
fn the_window_keeps_its_height_but_for_forms() {
    let w = outside("", &[], &[]);
    let mut a = launcher("", APPS);
    assert_eq!(a.content_height(), 59 + 364 + 34);
    type_in(&mut a, "create quicklink", &w);
    let r = a.activate_selected();
    a.apply(r, true, &w);
    assert!(matches!(&a.mode, Mode::Form { fields, .. } if fields.len() == 3));
    assert_eq!(a.content_height(), 59 + 364 + 34);
}

#[test]
fn a_summoned_launcher_has_its_colours_and_its_list() {
    let w = outside(FILE, &[], &[]);
    let mut a = launcher(FILE, APPS);
    a.caret_visible = false;
    a.summoned(true, &w);
    assert!(!a.dark && a.caret_visible);
    assert_eq!(a.results.len(), 4);
    a.summoned(false, &w);
    assert!(a.dark);
    let mut pinned = launcher("[appearance]\ntheme = 'dark'\n", APPS);
    pinned.summoned(true, &w);
    assert!(pinned.dark);
}

#[test]
fn sources_are_shown_by_their_last_component() {
    let s = Source::named(r"D:\Tools", Some("Tools"));
    assert_eq!((s.path.as_str(), s.name.as_str()), (r"D:\Tools", "Tools"));
    assert_eq!(Source::named(r"D:\", None).name, r"D:\");
}
