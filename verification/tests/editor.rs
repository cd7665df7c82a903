use apex::editor::{Edit, Motion, TextField};

fn field(text: &str) -> TextField {
    TextField::new(text)
}

fn mv(motion: Motion, word: bool, select: bool) -> Edit<'static> {
    Edit::Move {
        motion,
        word,
        select,
    }
}

#[test]
fn typing_inserts_at_the_caret() {
    let mut f = field("ac");
    f.apply(mv(Motion::Left, false, false));
    assert!(f.apply(Edit::Char(b'b' as u16)));
    assert_eq!(f.text(), "abc");
    assert_eq!(f.caret(), 2);
    assert!(f.selection().is_none());
}

#[test]
fn surrogate_pairs_are_reassembled() {
    let mut f = field("");
    // U+1F600 as UTF-16: D83D DE00.
    assert!(!f.apply(Edit::Char(0xD83D)));
    assert!(f.apply(Edit::Char(0xDE00)));
    assert_eq!(f.text(), "\u{1F600}");
    assert_eq!(f.caret(), 4);
}

#[test]
fn a_stray_low_surrogate_is_ignored() {
    let mut f = field("x");
    assert!(!f.apply(Edit::Char(0xDE00)));
    assert_eq!(f.text(), "x");
}

#[test]
fn backspace_and_delete_take_one_char() {
    let mut f = field("héllo");
    f.apply(mv(Motion::Left, false, false));
    f.apply(mv(Motion::Left, false, false));
    f.apply(mv(Motion::Left, false, false));
    assert_eq!(f.caret(), 3); // after "hé"
    assert!(f.apply(Edit::Backspace { word: false }));
    assert_eq!(f.text(), "hllo");
    assert_eq!(f.caret(), 1);
    assert!(f.apply(Edit::Delete { word: false }));
    assert_eq!(f.text(), "hlo");
    assert_eq!(f.caret(), 1);
}

#[test]
fn backspace_at_start_and_delete_at_end_do_nothing() {
    let mut f = field("ab");
    assert!(!f.apply(Edit::Delete { word: false }));
    f.apply(mv(Motion::Home, false, false));
    assert!(!f.apply(Edit::Backspace { word: false }));
    assert_eq!(f.text(), "ab");
}

#[test]
fn word_backspace_matches_the_old_behaviour() {
    // Trailing spaces go first, then the word.
    let mut f = field("visual studio  ");
    assert!(f.apply(Edit::Backspace { word: true }));
    assert_eq!(f.text(), "visual ");
    assert!(f.apply(Edit::Backspace { word: true }));
    assert_eq!(f.text(), "");
}

#[test]
fn word_delete_eats_the_word_and_its_trailing_space() {
    let mut f = field("one two three");
    f.apply(mv(Motion::Home, false, false));
    assert!(f.apply(Edit::Delete { word: true }));
    assert_eq!(f.text(), "two three");
    assert_eq!(f.caret(), 0);
}

#[test]
fn word_jumps_land_on_word_starts() {
    let mut f = field("one  two three");
    f.apply(mv(Motion::Home, false, false));
    f.apply(mv(Motion::Right, true, false));
    assert_eq!(f.caret(), 5); // start of "two"
    f.apply(mv(Motion::Right, true, false));
    assert_eq!(f.caret(), 9); // start of "three"
    f.apply(mv(Motion::Right, true, false));
    assert_eq!(f.caret(), 14); // end
    f.apply(mv(Motion::Left, true, false));
    assert_eq!(f.caret(), 9);
    f.apply(mv(Motion::Left, true, false));
    assert_eq!(f.caret(), 5);
    f.apply(mv(Motion::Left, true, false));
    assert_eq!(f.caret(), 0);
}

#[test]
fn caret_stays_on_char_boundaries() {
    let mut f = field("aé😀b");
    f.apply(mv(Motion::Home, false, false));
    let mut seen = vec![f.caret()];
    while f.caret() < f.text().len() {
        f.apply(mv(Motion::Right, false, false));
        seen.push(f.caret());
    }
    assert_eq!(seen, vec![0, 1, 3, 7, 8]);
    for pos in seen {
        assert!(f.text().is_char_boundary(pos));
    }
}

#[test]
fn shift_extends_and_plain_arrows_collapse_to_the_near_end() {
    let mut f = field("hello world");
    f.apply(mv(Motion::Left, true, true)); // select "world"
    assert_eq!(f.selected_text(), Some("world"));
    assert_eq!(f.caret(), 6);
    f.apply(mv(Motion::Right, false, false)); // collapse to the end
    assert!(f.selection().is_none());
    assert_eq!(f.caret(), 11);
    f.apply(mv(Motion::Left, true, true));
    f.apply(mv(Motion::Left, false, false)); // collapse to the start
    assert_eq!(f.caret(), 6);
}

#[test]
fn selection_can_grow_from_either_side() {
    let mut f = field("abcdef");
    f.apply(mv(Motion::Left, false, true));
    f.apply(mv(Motion::Left, false, true));
    assert_eq!(f.selected_text(), Some("ef"));
    f.apply(mv(Motion::Right, false, true));
    assert_eq!(f.selected_text(), Some("f"));
    f.apply(mv(Motion::Right, false, true));
    assert!(f.selection().is_none());
}

#[test]
fn home_and_end_with_shift_select_to_the_edges() {
    let mut f = field("abc");
    f.apply(mv(Motion::Home, false, true));
    assert_eq!(f.selected_text(), Some("abc"));
    f.apply(mv(Motion::End, false, false));
    assert!(f.selection().is_none());
    assert_eq!(f.caret(), 3);
}

#[test]
fn typing_replaces_the_selection() {
    let mut f = field("hello world");
    f.apply(mv(Motion::Left, true, true));
    assert!(f.apply(Edit::Text("there")));
    assert_eq!(f.text(), "hello there");
    assert_eq!(f.caret(), 11);
    f.apply(Edit::SelectAll);
    assert!(f.apply(Edit::Char(b'x' as u16)));
    assert_eq!(f.text(), "x");
}

#[test]
fn backspace_and_delete_remove_only_the_selection() {
    let mut f = field("abcdef");
    f.apply(mv(Motion::Home, false, false));
    f.apply(mv(Motion::Right, false, true));
    f.apply(mv(Motion::Right, false, true));
    assert!(f.apply(Edit::Delete { word: true }));
    assert_eq!(f.text(), "cdef");
    f.apply(mv(Motion::End, false, false));
    f.apply(mv(Motion::Left, false, true));
    assert!(f.apply(Edit::Backspace { word: true }));
    assert_eq!(f.text(), "cde");
}

#[test]
fn select_all_then_cut() {
    let mut f = field("hello");
    f.apply(Edit::SelectAll);
    assert_eq!(f.cut(), Some("hello".to_string()));
    assert_eq!(f.text(), "");
    assert_eq!(f.cut(), None);
}

#[test]
fn empty_paste_without_selection_changes_nothing() {
    let mut f = field("abc");
    assert!(!f.apply(Edit::Text("")));
    f.apply(Edit::SelectAll);
    // An empty paste over a selection still deletes it.
    assert!(f.apply(Edit::Text("")));
    assert_eq!(f.text(), "");
}

#[test]
fn set_caret_rejects_positions_inside_a_char() {
    let mut f = field("é");
    f.set_caret(1, false);
    assert_eq!(f.caret(), 2);
    f.set_caret(0, true);
    assert_eq!(f.selected_text(), Some("é"));
    f.set_caret(99, false);
    assert_eq!(f.caret(), 2);
}

#[test]
fn set_text_resets_caret_and_selection() {
    let mut f = field("abc");
    f.apply(Edit::SelectAll);
    f.set_text("xy");
    assert_eq!(f.caret(), 2);
    assert!(f.selection().is_none());
    f.clear();
    assert!(f.is_empty());
    assert_eq!(f.caret(), 0);
}
