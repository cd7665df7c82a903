use apex::plugin::{ActionResult, Plugin, ResultItem, ShellCommand};
use apex::plugins::commands::{Commands, ID};

fn commands() -> Commands {
    Commands::default()
}

/// Payloads best first, the way the result list ranks them.
fn find(q: &str) -> Vec<String> {
    let c = commands();
    let mut out = Vec::new();
    c.query(q, &mut out);
    out.sort_by(|a, b| b.score.cmp(&a.score).then_with(|| a.title.cmp(&b.title)));
    out.into_iter().map(|i| i.payload).collect()
}

#[test]
fn the_prefix_lists_every_command() {
    assert_eq!(find("apex").len(), commands().len());
}

#[test]
fn hidden_keywords_find_commands_their_label_does_not_contain() {
    // "startup" shares no subsequence with "Toggle Start at Login".
    assert_eq!(find("startup").first().map(String::as_str), Some("startup"));
    assert_eq!(find("exit").first().map(String::as_str), Some("quit"));
    assert_eq!(
        find("settings").first().map(String::as_str),
        Some("config")
    );
    assert_eq!(
        find("frecency").first().map(String::as_str),
        Some("clear_history")
    );
}

#[test]
fn a_label_match_outranks_a_keyword_match() {
    // "reload" is Reload's label and also a keyword on nothing else, but
    // "refresh" is only a keyword - both must still land on reload.
    assert_eq!(find("reload").first().map(String::as_str), Some("reload"));
    assert_eq!(find("refresh").first().map(String::as_str), Some("reload"));
}

#[test]
fn each_command_is_reachable_by_its_own_word() {
    for (q, id) in [
        ("reload", "reload"),
        ("restart", "restart"),
        ("quit", "quit"),
        ("tray", "tray"),
        ("startup", "startup"),
        ("clear history", "clear_history"),
    ] {
        let hits = find(q);
        assert!(
            hits.first().map(String::as_str) == Some(id),
            "query {q:?} ranked {hits:?}, wanted {id} first"
        );
    }
}

#[test]
fn open_config_outranks_open_config_folder_for_its_own_name() {
    let hits = find("open config");
    assert_eq!(hits.first().map(String::as_str), Some("config"));
}

#[test]
fn unrelated_queries_match_nothing() {
    assert!(find("spotify").is_empty());
}

#[test]
fn commands_map_to_the_right_outcomes() {
    let c = commands();
    let item = |id: &str| ResultItem {
        plugin: ID,
        title: String::new(),
        badge: None,
        category: String::new(),
        subtitle: String::new(),
        payload: id.to_string(),
        score: 0,
        icon: None,
    };
    assert!(matches!(c.activate(&item("reload")).result, ActionResult::Refresh));
    assert!(matches!(
        c.activate(&item("quit")).result,
        ActionResult::Shell(ShellCommand::Quit)
    ));
    assert!(matches!(
        c.activate(&item("restart")).result,
        ActionResult::Shell(ShellCommand::Restart)
    ));
    assert!(matches!(
        c.activate(&item("tray")).result,
        ActionResult::Shell(ShellCommand::ToggleTray)
    ));
    assert!(matches!(
        c.activate(&item("clear_history")).result,
        ActionResult::Shell(ShellCommand::ClearHistory)
    ));
    assert!(matches!(
        c.activate(&item("hidden")).result,
        ActionResult::Shell(ShellCommand::ShowHidden)
    ));
    assert!(matches!(
        c.activate(&item("sources")).result,
        ActionResult::Shell(ShellCommand::ShowSources)
    ));
}

#[test]
fn adding_and_managing_sources_are_told_apart() {
    // Two commands about the same noun, so the distinguishing verb has
    // to win rather than the shared word.
    assert_eq!(
        find("add source").first().map(String::as_str),
        Some("add_source")
    );
    for q in ["manage sources", "source folders", "remove", "delete"] {
        assert_eq!(
            find(q).first().map(String::as_str),
            Some("sources"),
            "query {q:?} should find Manage Source Folders"
        );
    }
}

#[test]
fn keywords_are_synonyms_not_phrase_material() {
    // Keywords sit after the label in the haystack, so a query pairing a
    // keyword with a label word in the other order cannot match as a
    // subsequence. Documented here so the limit is deliberate rather
    // than discovered.
    assert!(find("remove source").is_empty());
    assert_eq!(find("remove").first().map(String::as_str), Some("sources"));
}

#[test]
fn manage_hidden_is_findable_by_the_words_people_reach_for() {
    for q in ["hidden", "unhide", "restore"] {
        assert_eq!(
            find(q).first().map(String::as_str),
            Some("hidden"),
            "query {q:?} should find Manage Hidden Entries"
        );
    }
}

#[test]
fn commands_stay_out_of_history_and_the_default_list() {
    let c = commands();
    assert!(c.item_for("reload").is_none());
    let mut out = Vec::new();
    c.browse(8, &mut out);
    assert!(out.is_empty());
}

#[test]
fn a_synonym_loses_a_little() {
    let (c, mut out) = (commands(), Vec::new());
    c.query("exit", &mut out);
    let score = |id: &str| out.iter().find(|i| i.payload == id).unwrap().score;
    // A word start and a run, less the lead, the length and the penalty.
    assert_eq!(score("quit"), 32 + 3 * 16 - 8 - 5 - 12);
    // The letters scattered over "Apex: Clear Launch History" come after it.
    assert!(score("clear_history") < score("quit"));
}
