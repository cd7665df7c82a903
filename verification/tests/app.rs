use apex::app::{
    App, Listing, Mode, ACTION_HIDE, ACTION_REMOVE_SOURCE, ACTION_UNHIDE, SHELL,
};
use apex::config::Config;
use apex::plugin::ResultItem;

fn app() -> App {
    App::new(Vec::new(), &Config::from_text(""))
}

fn row(plugin: &'static str) -> ResultItem {
    ResultItem {
        plugin,
        title: "Tools".into(),
        badge: None,
        category: String::new(),
        subtitle: "Source folder".into(),
        payload: r"D:\Tools".into(),
        score: 0,
        icon: None,
    }
}

/// Source rows have no plugin, and still have an action.
#[test]
fn actions_open_for_rows_that_no_plugin_owns() {
    let mut a = app();
    a.listing = Listing::Sources;
    a.results.push(row(SHELL));
    assert!(a.open_actions(), "panel should open for a shell-built row");
    match &a.mode {
        Mode::Actions { actions, .. } => {
            assert_eq!(actions.len(), 1);
            assert_eq!(actions[0].id, ACTION_REMOVE_SOURCE);
        }
        _ => panic!("expected the actions panel"),
    }
}

#[test]
fn the_offered_action_follows_the_listing() {
    for (listing, expected) in [
        (Listing::Normal, ACTION_HIDE),
        (Listing::Hidden, ACTION_UNHIDE),
        (Listing::Sources, ACTION_REMOVE_SOURCE),
    ] {
        let mut a = app();
        a.listing = listing;
        a.results.push(row(SHELL));
        assert!(a.open_actions());
        match &a.mode {
            Mode::Actions { actions, .. } => assert_eq!(actions[0].id, expected),
            _ => panic!("expected the actions panel"),
        }
    }
}

#[test]
fn no_results_means_no_panel() {
    let mut a = app();
    assert!(!a.open_actions());
}
