use apex::fuzzy::score_str;

#[test]
fn non_match_is_none() {
    assert_eq!(score_str("xyz", "Notepad"), None);
    assert_eq!(score_str("notepadd", "Notepad"), None);
    assert_eq!(score_str("", "Notepad"), None);
}

#[test]
fn subsequence_matches() {
    assert!(score_str("np", "Notepad").is_some());
    assert!(score_str("notepad", "Notepad").is_some());
    assert!(score_str("vsc", "Visual Studio Code").is_some());
}

#[test]
fn case_insensitive() {
    assert_eq!(score_str("NOTE", "Notepad"), score_str("note", "Notepad"));
}

#[test]
fn prefix_beats_scattered() {
    let prefix = score_str("note", "Notepad").unwrap();
    let scattered = score_str("note", "OneNote").unwrap();
    assert!(prefix > scattered, "prefix {prefix} vs scattered {scattered}");
}

#[test]
fn word_start_beats_middle() {
    let initials = score_str("vs", "Visual Studio").unwrap();
    let middle = score_str("vs", "Avast").unwrap();
    assert!(initials > middle, "initials {initials} vs middle {middle}");
}

#[test]
fn shorter_target_wins_ties() {
    let short = score_str("term", "Terminal").unwrap();
    let long = score_str("term", "Terminal Preview Edition").unwrap();
    assert!(short > long, "short {short} vs long {long}");
}

#[test]
fn initials_match_words() {
    assert!(score_str("gc", "Google Chrome").is_some());
    let initials = score_str("gc", "Google Chrome").unwrap();
    let plain = score_str("gc", "Logcat").unwrap();
    assert!(initials > plain, "initials {initials} vs plain {plain}");
}
