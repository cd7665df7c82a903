use apex::plugin::{ActionResult, FormField, Plugin};
use apex::plugins::links::{fill, placeholder};
use apex::plugins::quicklinks::{Quicklinks, StockIcons, CREATE_PAYLOAD};

fn ql(pairs: &[(&str, &[(&str, &str)])]) -> Quicklinks {
    let icons = StockIcons { internet: None, folder: None, application: None };
    Quicklinks::new(
        pairs
            .iter()
            .map(|(slug, kv)| {
                (
                    slug.to_string(),
                    kv.iter().map(|(k, v)| (k.to_string(), v.to_string())).collect(),
                )
            })
            .collect(),
        icons,
        &Vec::new(),
    )
}

/// Slugs and names, in the order they are listed.
fn listed(q: &Quicklinks) -> Vec<(String, String)> {
    let mut out = Vec::new();
    q.browse(100, &mut out);
    out.into_iter().map(|i| (i.payload, i.title)).collect()
}

#[test]
fn placeholder_is_the_first_braced_token() {
    assert_eq!(placeholder("https://x.dev/s?q={query}").as_deref(), Some("query"));
    assert_eq!(placeholder("https://x.dev/{user}/{repo}").as_deref(), Some("user"));
    assert_eq!(placeholder("https://x.dev/{}").as_deref(), Some(""));
    assert_eq!(placeholder("https://x.dev").as_deref(), None);
    assert_eq!(placeholder("no closing {brace").as_deref(), None);
}

#[test]
fn fill_encodes_urls_but_not_paths() {
    assert_eq!(
        fill("https://x.dev/s?q={query}", "rust lang&c"),
        "https://x.dev/s?q=rust%20lang%26c"
    );
    assert_eq!(
        fill(r"C:\notes\{name}.md", "my file"),
        r"C:\notes\my file.md"
    );
    assert_eq!(fill("https://x.dev", "ignored"), "https://x.dev");
}

#[test]
fn fill_replaces_every_occurrence_of_the_token() {
    assert_eq!(
        fill("https://x.dev/{q}?also={q}", "a b"),
        "https://x.dev/a%20b?also=a%20b"
    );
}

#[test]
fn entries_without_a_link_are_dropped() {
    let q = ql(&[
        ("good", &[("name", "Good"), ("link", "https://x.dev")]),
        ("bad", &[("name", "Bad")]),
        ("blank", &[("name", "Blank"), ("link", "   ")]),
    ]);
    assert_eq!(q.len(), 1);
    assert_eq!(listed(&q)[0].0, "good");
}

#[test]
fn name_falls_back_to_the_slug() {
    let q = ql(&[("my-link", &[("link", "https://x.dev")])]);
    assert_eq!(listed(&q)[0].1, "my-link");
}

#[test]
fn query_matches_names_and_offers_the_create_row() {
    let q = ql(&[("gh", &[("name", "Search GitHub"), ("link", "https://g")])]);
    let mut out = Vec::new();
    q.query("github", &mut out);
    assert_eq!(out.len(), 1);
    assert_eq!(out[0].payload, "gh");

    out.clear();
    q.query("create", &mut out);
    assert!(out.iter().any(|i| i.payload == CREATE_PAYLOAD));

    out.clear();
    q.query("zzzz", &mut out);
    assert!(out.is_empty());
}

#[test]
fn free_slug_avoids_collisions() {
    let q = ql(&[
        ("my-link", &[("link", "https://a")]),
        ("my-link-2", &[("link", "https://b")]),
    ]);
    assert_eq!(q.free_slug("My Link"), "my-link-3");
    assert_eq!(q.free_slug("Fresh One"), "fresh-one");
    // Nothing survives sanitising, so fall back to a usable stem.
    assert_eq!(q.free_slug("!!!"), "link");
}

#[test]
fn browse_skips_what_history_already_placed() {
    let q = ql(&[
        ("a", &[("name", "A"), ("link", "https://a")]),
        ("b", &[("name", "B"), ("link", "https://b")]),
    ]);
    let mut out = vec![q.item_for("a").unwrap()];
    q.browse(8, &mut out);
    assert_eq!(out.len(), 2);
    assert_eq!(out[1].payload, "b");
}

#[test]
fn submitting_without_a_link_reopens_the_form_with_the_input_intact() {
    let mut q = ql(&[]);
    let item = q.create_item(0);
    let fields = vec![
        FormField::new("Name", "Half Typed"),
        FormField::new("Link", "  "),
        FormField::new("Open with (optional)", "chrome"),
    ];
    match q.submit_form("create", &item, &fields, false).result {
        ActionResult::RequestForm { fields, .. } => {
            assert_eq!(fields[0].value, "Half Typed");
            assert_eq!(fields[2].value, "chrome");
        }
        _ => panic!("expected the form to reopen"),
    }
    assert!(q.len() == 0, "nothing should have been saved");
}

#[test]
fn browse_respects_the_limit() {
    let q = ql(&[
        ("a", &[("link", "https://a")]),
        ("b", &[("link", "https://b")]),
        ("c", &[("link", "https://c")]),
    ]);
    let mut out = Vec::new();
    q.browse(2, &mut out);
    assert_eq!(out.len(), 2);
}
