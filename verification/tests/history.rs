use apex::frecency::{parse, standing, to_text, Frecency, Saved, HEADER, PRUNE_BELOW};

const ONE: u32 = 0x3F80_0000;
const TWO: u32 = 0x4000_0000;

fn saved(plugin: &str, milli: u64, last: u64, payload: &str) -> Saved {
    Saved { plugin: plugin.into(), milli, last, payload: payload.into() }
}

#[test]
fn recording_changes_one_entry() {
    let mut f = Frecency::default();
    f.record("search", "a", ONE, 10);
    f.record("search", "b", ONE, 20);
    f.record("quicklinks", "a", TWO, 30);
    f.record("search", "a", TWO, 40);
    assert_eq!(f.len(), 3);
    assert_eq!(f.weight("search", "a"), Some((TWO, 40)));
    assert_eq!(f.weight("search", "b"), Some((ONE, 20)));
    assert_eq!(f.weight("quicklinks", "a"), Some((TWO, 30)));
    assert_eq!(f.weight("search", "c"), None);
    assert_eq!(f.weights(), vec![(TWO, 40), (ONE, 20), (TWO, 30)]);
}

#[test]
fn weights_stand_in_the_order_of_the_numbers() {
    let numbers = [f32::NEG_INFINITY, -2.0, -0.0, 0.0, 0.05, 1.0, 2.0, f32::INFINITY];
    let stand: Vec<i64> = numbers.iter().map(|n: &f32| standing(n.to_bits())).collect();
    assert!(stand.windows(2).all(|w| w[0] < w[1]));
    assert_eq!(f32::from_bits(PRUNE_BELOW), 0.05);
}

#[test]
fn the_best_come_first_and_equals_by_payload() {
    let mut f = Frecency::default();
    for (p, w) in [("b", ONE), ("c", TWO), ("a", ONE)] {
        f.record("search", p, w, 0);
    }
    let faded = vec![ONE, TWO, ONE];
    let names: Vec<String> = f.top(9, &faded).into_iter().map(|(_, p)| p).collect();
    assert_eq!(names, vec!["c", "a", "b"]);
    assert_eq!(f.top(1, &faded), vec![("search".to_string(), "c".to_string())]);
    let ranks = f.standing(&faded, &vec![5, 9, 5]);
    assert_eq!(ranks[0].payload, "c");
    assert_eq!(ranks[0].bonus, 9);
    assert_eq!(ranks[1].bonus, 5);
    assert_eq!(ranks.len(), 3);
}

#[test]
fn pruning_drops_what_has_faded() {
    let mut f = Frecency::default();
    for p in ["a", "b", "c"] {
        f.record("search", p, ONE, 0);
    }
    f.prune(&vec![PRUNE_BELOW, PRUNE_BELOW - 1, ONE]);
    assert_eq!(f.len(), 2);
    assert!(f.weight("search", "b").is_none());
    assert_eq!(f.weight("search", "a"), Some((ONE, 0)));
}

#[test]
fn a_history_reads_back_as_it_was_written() {
    let v = vec![saved("search", 1500, 7, "id with space"), saved("quicklinks", 1, u64::MAX, "gh")];
    let text = to_text(&v);
    assert!(text.starts_with(HEADER));
    let back = parse(&text);
    assert_eq!(back.len(), 2);
    let find = |p: &str| back.iter().find(|s| s.plugin == p).unwrap();
    assert_eq!((find("search").milli, find("search").last), (1500, 7));
    assert_eq!(find("search").payload, "id with space");
    assert_eq!((find("quicklinks").milli, find("quicklinks").last), (1, u64::MAX));
}

#[test]
fn of_two_lines_for_one_entry_the_later_counts() {
    let v = parse("search\t1000\t1\ta\nsearch\t2000\t2\ta\n");
    assert_eq!(v.len(), 1);
    assert_eq!(v[0].milli, 2000);
}

#[test]
fn lines_that_say_nothing_are_skipped() {
    for line in [
        "# search\t1\t1\ta",
        "search\t1\t1",
        "search\t0\t1\ta",
        "search\tx\t1\ta",
        "search\t1\t-1\ta",
        "\t1\t1\ta",
        "search\t1\t1\t",
        "",
    ] {
        assert!(parse(line).is_empty(), "{line:?}");
    }
    assert_eq!(parse("search\t1\t1\ta\tb")[0].payload, "a\tb");
}

#[test]
fn a_restored_history_is_saved_the_same() {
    let v = vec![saved("search", 1000, 5, "a"), saved("search", 2000, 6, "b")];
    let f = Frecency::restore(&v, &vec![ONE, TWO]);
    assert_eq!(f.weight("search", "b"), Some((TWO, 6)));
    let out = f.saved(&vec![1000, 2000]);
    assert_eq!(to_text(&out), to_text(&v));
}
