use apex::numbers;
use apex::offsets;
use apex::order;
use apex::pieces;
use apex::text;

fn chars(s: &str) -> Vec<char> {
    s.chars().collect()
}

fn strings(pieces: &[Vec<char>]) -> Vec<String> {
    pieces.iter().map(|p| p.iter().collect()).collect()
}

#[test]
fn lowering_reaches_past_ascii() {
    assert_eq!(text::lower("ÄÖ Straße ΣΊΓΜΑ"), "äö straße σίγμα");
    assert_eq!(text::lower("Apex: Quit"), "apex: quit");
    assert_eq!(text::lower(""), "");
}

#[test]
fn ascii_case_is_all_that_is_ignored() {
    assert!(text::eq_ignore_ascii_case(r"D:\Tools", r"d:\tools"));
    assert!(!text::eq_ignore_ascii_case("Ä", "ä"));
    assert!(!text::eq_ignore_ascii_case("ab", "abc"));
}

#[test]
fn trimming_takes_blanks_off_both_ends() {
    assert_eq!(text::trim_str(" \t a b\u{3000}\n"), "a b");
    assert_eq!(text::trim_str("   "), "");
    assert_eq!(text::trim(&chars(" x ")), vec!['x']);
}

#[test]
fn blanks_and_control_characters_are_told_apart() {
    assert!(text::white('\u{a0}') && text::white('\u{2003}') && !text::white('\u{200b}'));
    assert!(text::control('\u{7f}') && text::control('\u{85}') && !text::control(' '));
    assert_eq!(text::small('Q'), 'q');
    assert_eq!(text::small('Ä'), 'Ä');
}

#[test]
fn texts_and_characters_convert_both_ways() {
    let s = "Café ☕";
    assert_eq!(text::string_of(&text::chars_of(s)), s);
    assert_eq!(text::slice_of(&chars(s), 1, 4), vec!['a', 'f', 'é']);
}

#[test]
fn split_pieces_join_to_the_text_they_came_from() {
    for s in ["", "a", "a,b", ",a,,b,"] {
        let parts = pieces::split(&chars(s), ',');
        assert_eq!(pieces::join(&parts, ','), chars(s));
    }
    assert_eq!(strings(&pieces::split(&chars(",a,"), ',')), vec!["", "a", ""]);
}

#[test]
fn joined_pieces_split_into_what_they_were() {
    let parts = vec![chars("one"), chars(""), chars("two")];
    assert_eq!(pieces::split(&pieces::join(&parts, '+'), '+'), parts);
}

#[test]
fn lines_end_at_either_line_ending() {
    assert_eq!(strings(&pieces::lines(&chars("a\r\nb\n\nc"))), vec!["a", "b", "", "c"]);
    assert_eq!(strings(&pieces::lines(&chars("a\n"))), vec!["a"]);
    assert!(pieces::lines(&chars("")).is_empty());
}

#[test]
fn searching_finds_the_first_place() {
    let s = chars("banana");
    assert_eq!(pieces::find(&s, 'n'), 2);
    assert_eq!(pieces::find_from(&s, 3, 'n'), 4);
    assert_eq!(pieces::find(&s, 'x'), 6);
    assert!(pieces::is_at(&s, &chars("nan"), 2));
    assert!(!pieces::is_at(&s, &chars("nan"), 4));
    assert!(pieces::contains(&s, &chars("nana")));
    assert!(!pieces::contains(&s, &chars("nab")));
}

#[test]
fn replacing_goes_from_left_to_right() {
    let s = chars("aaaa b");
    assert_eq!(pieces::replace(&s, &chars("aa"), &chars("x")), chars("xx b"));
    assert_eq!(pieces::replace(&s, &chars("c"), &chars("x")), s);
    let mut out = chars("ab");
    pieces::append(&mut out, &chars("cd"));
    assert_eq!(out, chars("abcd"));
    assert_eq!(pieces::concat("Alias for ", "Code"), "Alias for Code");
}

#[test]
fn shown_numbers_read_back_and_differ() {
    for n in [0u64, 7, 10, 4096, u64::MAX] {
        let shown = numbers::show(n as u128);
        assert_eq!(numbers::parse(&shown), Some(n));
    }
    assert_eq!(numbers::show(1204), chars("1204"));
    assert_ne!(numbers::show(10), numbers::show(1));
}

#[test]
fn only_digits_that_fit_are_numbers() {
    assert_eq!(numbers::parse(&chars("18446744073709551616")), None);
    assert_eq!(numbers::parse(&chars("")), None);
    assert_eq!(numbers::parse(&chars("1a")), None);
    assert_eq!(numbers::parse(&chars("-1")), None);
    assert_eq!(numbers::parse(&chars("007")), Some(7));
}

#[test]
fn texts_sort_as_in_a_dictionary() {
    assert!(order::comes_first("App", "Apple"));
    assert!(order::comes_first("Zoo", "apple"));
    assert!(!order::comes_first("a", "a"));
    let v = vec!["b".to_string(), "a".to_string(), "B".to_string(), "a".to_string()];
    assert_eq!(order::sorted(&v), vec!["B", "a", "a", "b"]);
}

#[test]
fn offsets_count_bytes() {
    assert_eq!(offsets::width('a'), 1);
    assert_eq!(offsets::width('é'), 2);
    assert_eq!(offsets::width('☕'), 3);
    assert_eq!(offsets::width('😀'), 4);
    let s = chars("aé☕😀");
    assert_eq!(offsets::offset_of(&s, 3), 6);
    assert_eq!(offsets::index_at(&s, 6), Some(3));
    assert_eq!(offsets::index_at(&s, 10), Some(4));
    assert_eq!(offsets::index_at(&s, 2), None);
    assert_eq!(offsets::byte_len("aé☕😀"), 10);
    assert_eq!(offsets::part("aé☕😀", 1, 6), "é☕");
}

#[test]
fn texts_are_the_same_by_their_characters() {
    assert!(text::same("é☕", "é☕") && text::same("", ""));
    assert!(!text::same("é", "e") && !text::same("a", "ab"));
    assert_eq!(text::head_or(&vec!['b', 'c'], 'a'), 'b');
    assert_eq!(text::head_or(&Vec::new(), 'a'), 'a');
    // One character in place of several.
    assert_eq!(text::first_lower('İ'), 'i');
    assert_eq!(text::first_lower('Ä'), 'ä');
    assert_eq!(text::first_lower('Q'), 'q');
}
