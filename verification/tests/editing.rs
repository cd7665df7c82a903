use apex::editor::{Edit, Motion, TextField};

fn at(text: &str, pos: usize) -> TextField {
    let mut f = TextField::new(text);
    f.set_caret(pos, false);
    f
}

#[test]
fn cutting_and_pasting_back_restores_the_text() {
    let mut f = at("héllo wörld", 1);
    f.set_caret(7, true);
    let cut = f.cut().unwrap();
    assert_eq!(cut, "éllo ");
    assert_eq!(f.text(), "hwörld");
    f.apply(Edit::Text(&cut));
    assert_eq!(f.text(), "héllo wörld");
    assert_eq!(f.caret(), 7);
}

#[test]
fn backspace_takes_back_what_was_typed() {
    let mut f = at("abc", 1);
    for unit in [0xE9u16, 0xD83D, 0xDE00] {
        f.apply(Edit::Char(unit));
    }
    assert_eq!(f.text(), "aé😀bc");
    f.apply(Edit::Backspace { word: false });
    f.apply(Edit::Backspace { word: false });
    assert_eq!((f.text(), f.caret()), ("abc", 1));
}

#[test]
fn a_pair_types_one_character_and_half_a_pair_none() {
    let mut f = TextField::new("");
    assert!(!f.apply(Edit::Char(0xD83D)));
    assert!(!f.apply(Edit::Char(0xD83D)));
    assert!(f.apply(Edit::Char(0xDE00)));
    assert_eq!(f.text(), "😀");
    assert!(!f.apply(Edit::Char(0xD83D)));
    assert!(f.apply(Edit::Char(0x61)));
    assert_eq!(f.text(), "😀a");
}

#[test]
fn moving_keeps_the_text() {
    let mut f = at("one two  three", 4);
    for motion in [Motion::Left, Motion::Right, Motion::Home, Motion::End] {
        for (word, select) in [(false, false), (true, false), (false, true), (true, true)] {
            assert!(!f.apply(Edit::Move { motion, word, select }));
            assert_eq!(f.text(), "one two  three");
        }
    }
}

#[test]
fn everything_selected_is_replaced() {
    let mut f = TextField::new("old text");
    f.apply(Edit::SelectAll);
    assert_eq!(f.selected_text(), Some("old text"));
    f.apply(Edit::Text("new"));
    assert_eq!(f.text(), "new");
    assert_eq!(f.selection(), None);
    f.clear();
    assert!(f.is_empty());
    f.set_text("again");
    assert_eq!(f.caret(), 5);
}

#[test]
fn placing_the_caret_where_it_is_changes_nothing() {
    let mut f = at("aé☕", 3);
    f.set_caret(f.caret(), false);
    assert_eq!(f.caret(), 3);
    // Inside a character: stays. Past the end: the end.
    f.set_caret(4, false);
    assert_eq!(f.caret(), 3);
    f.set_caret(99, true);
    assert_eq!(f.selection(), Some((3, 6)));
}

#[test]
fn word_jumps_stop_at_the_starts_of_words() {
    let mut f = TextField::new("one  two three");
    let mut stops = Vec::new();
    for _ in 0..4 {
        f.apply(Edit::Move { motion: Motion::Left, word: true, select: false });
        stops.push(f.caret());
    }
    assert_eq!(stops, vec![9, 5, 0, 0]);
    stops.clear();
    for _ in 0..4 {
        f.apply(Edit::Move { motion: Motion::Right, word: true, select: false });
        stops.push(f.caret());
    }
    assert_eq!(stops, vec![5, 9, 14, 14]);
}

#[test]
fn typing_what_is_selected_changes_no_text() {
    let mut f = TextField::new("x");
    f.apply(Edit::SelectAll);
    assert!(!f.apply(Edit::Char(0x78)));
    assert_eq!((f.text(), f.caret(), f.selection()), ("x", 1, None));
    f.apply(Edit::SelectAll);
    assert!(!f.apply(Edit::Text("x")));
    f.apply(Edit::SelectAll);
    assert!(f.apply(Edit::Text("y")));
    assert_eq!(f.text(), "y");
    // The same text comes out of another place, too.
    let mut g = at("aab", 1);
    g.set_caret(2, true);
    assert!(!g.apply(Edit::Text("a")));
    assert!(!g.apply(Edit::Text("")));
    assert_eq!(g.text(), "aab");
}
