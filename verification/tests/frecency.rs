use apex::frecency::{parse, to_text, Frecency};

const DAY: u64 = 24 * 60 * 60;
const T0: u64 = 1_700_000_000;

const HALF_LIFE_SECS: f32 = 14.0 * 24.0 * 60.0 * 60.0;
const SCALE: f32 = 1000.0;

/// What is left of a weight: the library takes faded weights as they come.
fn faded(weight: u32, last: u64, now: u64) -> f32 {
    let dt = now.saturating_sub(last) as f32;
    f32::from_bits(weight) * (-dt / HALF_LIFE_SECS).exp2()
}

fn all_faded(f: &Frecency, now: u64) -> Vec<u32> {
    f.weights().into_iter().map(|(w, last)| faded(w, last, now).to_bits()).collect()
}

fn record(f: &mut Frecency, plugin: &str, payload: &str, now: u64) {
    let weight = match f.weight(plugin, payload) {
        Some((w, last)) => faded(w, last, now) + 1.0,
        None => 1.0,
    };
    f.record(plugin, payload, weight.to_bits(), now);
}

fn prune(f: &mut Frecency, now: u64) {
    let left = all_faded(f, now);
    f.prune(&left);
}

fn top(f: &Frecency, n: usize, now: u64) -> Vec<(String, String)> {
    f.top(n, &all_faded(f, now))
}

fn pair(plugin: &str, payload: &str) -> (String, String) {
    (plugin.to_string(), payload.to_string())
}

fn text_of(f: &Frecency) -> String {
    let millis: Vec<u64> =
        f.weights().into_iter().map(|(w, _)| (f32::from_bits(w) * SCALE) as u64).collect();
    to_text(&f.saved(&millis))
}

fn restored(text: &str) -> Frecency {
    let saved = parse(text);
    let weights: Vec<u32> =
        saved.iter().map(|s| (s.milli as f32 / SCALE).to_bits()).collect();
    Frecency::restore(&saved, &weights)
}

fn weight_of(f: &Frecency, plugin: &str, payload: &str, now: u64) -> f32 {
    let (w, last) = f.weight(plugin, payload).unwrap();
    faded(w, last, now)
}

#[test]
fn recent_beats_frequent_but_stale() {
    let mut f = Frecency::default();
    // 100 launches two months ago...
    let long_ago = T0 - 60 * DAY;
    for _ in 0..100 {
        record(&mut f, "search", "stale", long_ago);
    }
    // ...loses to 20 launches today.
    for _ in 0..20 {
        record(&mut f, "search", "fresh", T0);
    }
    let ranked = top(&f, 2, T0);
    assert_eq!(ranked[0], pair("search", "fresh"));
    assert_eq!(ranked[1], pair("search", "stale"));
}

#[test]
fn top_is_deterministic_for_equal_weights() {
    let mut f = Frecency::default();
    for k in ["c", "a", "b"] {
        record(&mut f, "search", k, T0);
    }
    assert_eq!(
        top(&f, 3, T0),
        vec![pair("search", "a"), pair("search", "b"), pair("search", "c")]
    );
}

#[test]
fn top_spans_plugins_and_respects_n() {
    let mut f = Frecency::default();
    record(&mut f, "search", "app", T0);
    for _ in 0..5 {
        record(&mut f, "quicklinks", "link", T0);
    }
    assert_eq!(top(&f, 1, T0), vec![pair("quicklinks", "link")]);
    assert_eq!(top(&f, 9, T0).len(), 2);
}

#[test]
fn round_trips_through_text() {
    let mut f = Frecency::default();
    record(&mut f, "search", "Some.App_8wek\\App", T0);
    record(&mut f, "search", "Other", T0 - DAY);
    let back = restored(&text_of(&f));
    assert_eq!(back.len(), 2);
    assert!(
        (weight_of(&back, "search", "Other", T0) - weight_of(&f, "search", "Other", T0)).abs()
            < 1e-3
    );
}

#[test]
fn parse_skips_comments_and_junk() {
    let text = "# header\n\
                search\t1000\t100\tgood\n\
                search\tnotanumber\t100\tbad\n\
                search\t1000\tnotatime\tbad2\n\
                missing-fields\n\
                search\t-3000\t100\tnegative\n\
                search\t1.5\t100\tdecimal-is-not-fixed-point\n\
                search\t0\t100\tzero\n";
    let f = restored(text);
    assert_eq!(f.len(), 1);
    assert!(f.weight("search", "good").is_some());
    assert_eq!(f32::from_bits(f.weight("search", "good").unwrap().0), 1.0);
}

#[test]
fn fixed_point_survives_a_save_load_cycle() {
    let mut f = Frecency::default();
    for _ in 0..7 {
        record(&mut f, "search", "a", T0);
    }
    let before = weight_of(&f, "search", "a", T0);
    let after = weight_of(&restored(&text_of(&f)), "search", "a", T0);
    // Thousandths are far finer than the bonus curve can resolve.
    assert!((before - after).abs() < 1.0 / SCALE, "{before} vs {after}");
}

#[test]
fn prune_drops_decayed_entries_and_empty_plugins() {
    let mut f = Frecency::default();
    record(&mut f, "search", "ancient", T0);
    record(&mut f, "search", "recent", T0 + 200 * DAY);
    prune(&mut f, T0 + 200 * DAY);
    assert!(f.weight("search", "ancient").is_none());
    assert!(f.weight("search", "recent").is_some());

    let mut g = Frecency::default();
    record(&mut g, "gone", "x", T0);
    prune(&mut g, T0 + 400 * DAY);
    assert!(g.len() == 0, "empty plugin map should be removed");
}
