use apex::fuzzy::{bonuses, fold_case, score, score_str, Pattern};

#[test]
fn a_score_is_the_best_placement_can_do() {
    // Word start less a lead of 7, camel hump less a gap of 2, less length.
    assert_eq!(score_str("gh", "Search GitHub"), Some(45));
    // One word start and three consecutive characters.
    assert_eq!(score_str("code", "Code"), Some(80));
    // The lead is capped, and so is the length.
    assert_eq!(score_str("z", "0123456789 abcdefghijklmnopqrstuvwxyz"), Some(-16));
}

#[test]
fn the_score_is_the_same_however_it_is_reached() {
    let (q, name) = ("vsc", "Visual Studio Code");
    let direct = score(&fold_case(q), &fold_case(name), &bonuses(name));
    assert_eq!(direct, score_str(q, name));
    assert_eq!(direct, Pattern::new(name).score(&fold_case(q)));
    assert!(direct.is_some());
}

#[test]
fn queries_match_in_either_case() {
    assert_eq!(score_str("CODE", "Code"), score_str("code", "Code"));
    assert_eq!(score_str("ÜBER", "Über"), score_str("über", "Über"));
    assert!(score_str("über", "Über").is_some());
    assert_eq!(fold_case("ÀB"), vec!['à', 'b']);
}

#[test]
fn humps_are_seen_past_ascii() {
    assert_eq!(bonuses("ab éÉ-x"), vec![32, 0, 0, 32, 24, 0, 32]);
}

#[test]
fn scores_stay_within_their_bounds() {
    let name = "a b c d e f g h i j k l m n o p";
    let s = score_str("abcdefghijklmnop", name).unwrap();
    assert_eq!(s, 32 * 16 - 15 - 3);
    assert!(s <= 32 * 16);
    let far = format!("a{}b", " ".repeat(40));
    let s = score_str("ab", &far).unwrap();
    assert!(s >= -(8 + 8 + 42), "{s}");
}

#[test]
fn every_name_is_found_by_itself() {
    for name in ["Notepad", "7-Zip", "Café ☕", "x"] {
        assert!(score_str(name, name).is_some(), "{name}");
    }
}

#[test]
fn an_empty_query_finds_nothing() {
    assert_eq!(score_str("", "Notepad"), None);
    assert_eq!(score_str("", ""), None);
    assert_eq!(score_str("a", ""), None);
}

#[test]
fn long_names_are_scored_like_any_other() {
    let name = format!("{}z", "a ".repeat(70_000));
    assert_eq!(score_str("z", &name), Some(32 - 8 - 8));
    let far = format!("a{}z", "b".repeat(70_000));
    assert_eq!(score_str("az", &far), Some(32 - 70_000 - 8));
}
